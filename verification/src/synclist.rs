//! The replicated collection: an ordered container that assigns dense
//! identifiers to its visible entries and enforces role-dependent removal
//! semantics. A client defers physical deletion by tagging entries as
//! removed, while a server deletes immediately and never carries tombstones.

use vstd::prelude::*;

use crate::item::{ItemState, SyncItem};

verus! {

/// Whether an entry is part of the visible view: its state is not `Removed`.
pub open spec fn is_visible<T: SyncItem>(t: T) -> bool {
    t.spec_state() != ItemState::Removed
}

/// The visibility predicate in function form, for sequence filtering.
pub open spec fn visible_pred<T: SyncItem>() -> spec_fn(T) -> bool {
    |t: T| is_visible(t)
}

/// The visible view of a stored entry sequence: the entries whose state is
/// not `Removed`, in stored order.
pub open spec fn visible_seq<T: SyncItem>(s: Seq<T>) -> Seq<T> {
    s.filter(visible_pred())
}

/// The position the entry at raw index `i` takes in the visible view: the
/// number of visible entries stored before it.
pub open spec fn visible_index<T: SyncItem>(s: Seq<T>, i: int) -> int {
    visible_seq(s.take(i)).len() as int
}

/// The visible view of a one-entry sequence.
pub proof fn lemma_visible_singleton<T: SyncItem>(x: T)
    ensures
        visible_seq(seq![x]) == if is_visible(x) {
            seq![x]
        } else {
            Seq::<T>::empty()
        },
{
    reveal_with_fuel(Seq::<_>::filter, 2);
    assert(seq![x].drop_last() =~= Seq::<T>::empty());
    if is_visible(x) {
        assert(visible_seq(seq![x]) =~= seq![x]);
    } else {
        assert(visible_seq(seq![x]) =~= Seq::<T>::empty());
    }
}

/// Appending one entry extends the visible view by that entry exactly when it
/// is visible.
pub proof fn lemma_visible_push<T: SyncItem>(s: Seq<T>, x: T)
    ensures
        visible_seq(s.push(x)) == if is_visible(x) {
            visible_seq(s).push(x)
        } else {
            visible_seq(s)
        },
{
    s.lemma_filter_push(x, visible_pred());
}

/// Scanning one entry further extends the visible view of the scanned prefix
/// by the entry exactly when it is visible.
pub proof fn lemma_visible_take_step<T: SyncItem>(s: Seq<T>, i: int)
    requires
        0 <= i < s.len(),
    ensures
        visible_seq(s.take(i + 1)) == if is_visible(s[i]) {
            visible_seq(s.take(i)).push(s[i])
        } else {
            visible_seq(s.take(i))
        },
{
    assert(s.take(i + 1) =~= s.take(i).push(s[i]));
    lemma_visible_push(s.take(i), s[i]);
}

/// The visible view of a sequence, split around one raw position.
pub proof fn lemma_visible_split<T: SyncItem>(s: Seq<T>, r: int)
    requires
        0 <= r < s.len(),
    ensures
        visible_seq(s) == visible_seq(s.take(r)) + (if is_visible(s[r]) {
            seq![s[r]]
        } else {
            Seq::<T>::empty()
        }) + visible_seq(s.skip(r + 1)),
{
    let mid = seq![s[r]] + s.skip(r + 1);
    assert(s =~= s.take(r) + mid);
    Seq::<T>::filter_distributes_over_add(s.take(r), mid, visible_pred());
    Seq::<T>::filter_distributes_over_add(seq![s[r]], s.skip(r + 1), visible_pred());
    lemma_visible_singleton(s[r]);
    if is_visible(s[r]) {
        assert(visible_seq(s.take(r)) + seq![s[r]] + visible_seq(s.skip(r + 1)) =~= visible_seq(
            s.take(r),
        ) + (seq![s[r]] + visible_seq(s.skip(r + 1))));
    } else {
        assert(visible_seq(s.take(r)) + Seq::<T>::empty() + visible_seq(s.skip(r + 1))
            =~= visible_seq(s.take(r)) + (Seq::<T>::empty() + visible_seq(s.skip(r + 1))));
    }
}

/// A visible entry stands in the visible view at its visible index.
pub proof fn lemma_visible_entry<T: SyncItem>(s: Seq<T>, i: int)
    requires
        0 <= i < s.len(),
        is_visible(s[i]),
    ensures
        0 <= visible_index(s, i) < visible_seq(s).len(),
        visible_seq(s)[visible_index(s, i)] == s[i],
{
    lemma_visible_take_step(s, i);
    assert(s.take(i + 1).is_prefix_of(s)) by {
        assert(s.take(i + 1) =~= s.subrange(0, i + 1));
    };
    s.take(i + 1).lemma_filter_monotone(s, visible_pred());
    let k = visible_index(s, i);
    let prefix = visible_seq(s.take(i + 1));
    assert(prefix.len() == k + 1);
    assert(prefix[k] == s[i]);
    assert(prefix =~= visible_seq(s).subrange(0, k + 1));
    assert(visible_seq(s)[k] == visible_seq(s).subrange(0, k + 1)[k]);
}

/// Every position of the visible view is the visible index of some visible
/// raw entry.
pub proof fn lemma_visible_index_surjective<T: SyncItem>(s: Seq<T>, k: int)
    requires
        0 <= k < visible_seq(s).len(),
    ensures
        exists|i: int|
            0 <= i < s.len() && is_visible(#[trigger] s[i]) && visible_index(s, i) == k,
    decreases s.len(),
{
    s.lemma_filter_len(visible_pred());
    let l = s.len() - 1;
    assert(s.drop_last().push(s.last()) =~= s);
    lemma_visible_push(s.drop_last(), s.last());
    if is_visible(s.last()) && k == visible_seq(s).len() - 1 {
        assert(s.take(l) =~= s.drop_last());
        assert(is_visible(s[l]) && visible_index(s, l) == k);
    } else {
        lemma_visible_index_surjective(s.drop_last(), k);
        let i = choose|i: int|
            0 <= i < s.drop_last().len() && is_visible(#[trigger] s.drop_last()[i])
                && visible_index(s.drop_last(), i) == k;
        assert(s.drop_last().take(i) =~= s.take(i));
        assert(is_visible(s[i]) && visible_index(s, i) == k);
    }
}

/// The raw storage index of the visible entry at visible position `id`.
pub open spec fn raw_index_of<T: SyncItem>(s: Seq<T>, id: u64) -> int {
    choose|raw: int|
        0 <= raw < s.len() && is_visible(#[trigger] s[raw]) && visible_index(s, raw) == id
}

/// Visible entries keep their storage order in the visible view: an earlier
/// visible entry has a smaller visible index.
pub proof fn lemma_visible_index_injective<T: SyncItem>(s: Seq<T>, i: int, j: int)
    requires
        0 <= i < j <= s.len(),
        is_visible(s[i]),
    ensures
        visible_index(s, i) < visible_index(s, j),
{
    lemma_visible_take_step(s, i);
    assert(s.take(i + 1).is_prefix_of(s.take(j))) by {
        assert(s.take(i + 1) =~= s.take(j).subrange(0, i + 1));
    };
    s.take(i + 1).lemma_filter_monotone(s.take(j), visible_pred());
}

/// Two equally long sequences whose entries are pairwise equally visible have
/// equally long visible views.
pub proof fn lemma_visible_len_pointwise<T: SyncItem>(a: Seq<T>, b: Seq<T>)
    requires
        a.len() == b.len(),
        forall|i: int| 0 <= i < a.len() ==> (is_visible(#[trigger] a[i]) <==> is_visible(b[i])),
    ensures
        visible_seq(a).len() == visible_seq(b).len(),
    decreases a.len(),
{
    if a.len() == 0 {
        a.lemma_filter_len(visible_pred());
        b.lemma_filter_len(visible_pred());
    } else {
        assert(a.drop_last().push(a.last()) =~= a);
        assert(b.drop_last().push(b.last()) =~= b);
        lemma_visible_push(a.drop_last(), a.last());
        lemma_visible_push(b.drop_last(), b.last());
        lemma_visible_len_pointwise(a.drop_last(), b.drop_last());
    }
}

/// A sequence without tombstones is its own visible view.
pub proof fn lemma_visible_all<T: SyncItem>(s: Seq<T>)
    requires
        forall|i: int| 0 <= i < s.len() ==> is_visible(#[trigger] s[i]),
    ensures
        visible_seq(s) == s,
    decreases s.len(),
{
    if s.len() == 0 {
        s.lemma_filter_len(visible_pred());
        assert(visible_seq(s) =~= s);
    } else {
        assert(s.drop_last().push(s.last()) =~= s);
        lemma_visible_push(s.drop_last(), s.last());
        lemma_visible_all(s.drop_last());
    }
}

/// How the visible view changes when the visible entry at identifier `id`
/// leaves the collection: the earlier entries stay as they are, and the later
/// ones shift down by one position with their identifiers renumbered to
/// match.
pub open spec fn removed_at<T: SyncItem>(pre: Seq<T>, post: Seq<T>, id: u64) -> bool {
    &&& id < visible_seq(pre).len()
    &&& visible_seq(post).len() == visible_seq(pre).len() - 1
    &&& forall|j: int| 0 <= j < id ==> #[trigger] visible_seq(post)[j] == visible_seq(pre)[j]
    &&& forall|j: int|
        id <= j < visible_seq(post).len() ==> #[trigger] visible_seq(post)[j] == visible_seq(
            pre,
        )[j + 1].with_id(j as u64)
}

/// The sequence of entries with every entry's identifier reassigned to its
/// position.
pub open spec fn renumbered<T: SyncItem>(s: Seq<T>) -> Seq<T> {
    Seq::new(s.len(), |k: int| s[k].with_id(k as u64))
}

/// A filter whose predicate holds of every element changes nothing.
pub proof fn lemma_filter_all_pass<T>(s: Seq<T>, p: spec_fn(T) -> bool)
    requires
        forall|i: int| 0 <= i < s.len() ==> p(#[trigger] s[i]),
    ensures
        s.filter(p) == s,
    decreases s.len(),
{
    if s.len() == 0 {
        s.lemma_filter_len(p);
        assert(s.filter(p) =~= s);
    } else {
        assert(s.drop_last().push(s.last()) =~= s);
        s.drop_last().lemma_filter_push(s.last(), p);
        lemma_filter_all_pass(s.drop_last(), p);
    }
}

/// Two equally long sequences filter to the same result when, position by
/// position, the second predicate holds of the second sequence exactly where
/// the first predicate holds of the first, and the entries agree wherever
/// they are kept.
pub proof fn lemma_filter_pointwise<T>(a: Seq<T>, b: Seq<T>, p: spec_fn(T) -> bool, q: spec_fn(
    T,
) -> bool)
    requires
        a.len() == b.len(),
        forall|i: int|
            0 <= i < a.len() ==> ((q(#[trigger] b[i]) <==> p(#[trigger] a[i])) && (p(a[i])
                ==> b[i] == a[i])),
    ensures
        b.filter(q) == a.filter(p),
    decreases a.len(),
{
    if a.len() == 0 {
        a.lemma_filter_len(p);
        b.lemma_filter_len(q);
        assert(b.filter(q) =~= a.filter(p));
    } else {
        assert(a.drop_last().push(a.last()) =~= a);
        assert(b.drop_last().push(b.last()) =~= b);
        a.drop_last().lemma_filter_push(a.last(), p);
        b.drop_last().lemma_filter_push(b.last(), q);
        lemma_filter_pointwise(a.drop_last(), b.drop_last(), p, q);
    }
}

/// Replacing a visible entry by another visible entry replaces exactly the
/// corresponding entry of the visible view.
pub proof fn lemma_visible_update<T: SyncItem>(s: Seq<T>, raw: int, x: T)
    requires
        0 <= raw < s.len(),
        is_visible(s[raw]),
        is_visible(x),
    ensures
        visible_seq(s.update(raw, x)) == visible_seq(s).update(visible_index(s, raw), x),
{
    let s2 = s.update(raw, x);
    lemma_visible_split(s, raw);
    lemma_visible_split(s2, raw);
    assert(s2.take(raw) =~= s.take(raw));
    assert(s2.skip(raw + 1) =~= s.skip(raw + 1));
    assert(visible_seq(s2) =~= visible_seq(s).update(visible_index(s, raw), x));
}

/// Returns a mutable reference to one element of a vector.
pub(crate) fn vec_elem_mut<T>(v: &mut Vec<T>, i: usize) -> (e: &mut T)
    requires
        i < old(v).len(),
    ensures
        *e == old(v)@[i as int],
        final(v)@ == old(v)@.update(i as int, *final(e)),
{
    &mut v[i]
}

/// An ordered collection of replicated items. It operates in one of two roles
/// fixed at construction: *server* (authoritative, removals are physical and
/// immediate) or *client* (tentative, removals are deferred tombstones).
///
/// Invariant (`wf`): the identifier of every entry visible through `items`
/// equals its positional index in the visible view at the moment of
/// observation, and a server list carries no tombstones. Identifiers are not
/// stable across mutation.
#[derive(Debug)]
pub struct SyncList<T: SyncItem> {
    pub items: Vec<T>,
    pub server: bool,
}

impl<T: SyncItem> SyncList<T> {
    /// Identifiers of visible entries equal their position in the visible
    /// view.
    pub open spec fn ids_dense(self) -> bool {
        forall|k: int|
            0 <= k < visible_seq(self.items@).len() ==> #[trigger] visible_seq(
                self.items@,
            )[k].spec_id() == k
    }

    /// A server list never carries tombstones.
    pub open spec fn server_clean(self) -> bool {
        self.server ==> forall|i: int|
            0 <= i < self.items@.len() ==> is_visible(#[trigger] self.items@[i])
    }

    /// Well-formedness of the collection.
    pub open spec fn wf(self) -> bool {
        self.ids_dense() && self.server_clean()
    }

    /// Creates an empty collection with the given role.
    pub fn new(server: bool) -> (r: SyncList<T>)
        ensures
            r.items@ == Seq::<T>::empty(),
            r.server == server,
            r.wf(),
    {
        let r = SyncList { items: Vec::new(), server };
        proof {
            r.items@.lemma_filter_len(visible_pred());
        }
        r
    }

    /// The number of visible entries.
    pub fn visible_len(&self) -> (n: u64)
        ensures
            n == visible_seq(self.items@).len(),
    {
        let ghost s = self.items@;
        let mut i: usize = 0;
        let mut count: u64 = 0;
        while i < self.items.len()
            invariant
                i <= s.len(),
                self.items@ == s,
                count == visible_seq(s.take(i as int)).len(),
                count <= i,
            decreases s.len() - i,
        {
            proof {
                lemma_visible_take_step(s, i as int);
            }
            if self.items[i].state() != ItemState::Removed {
                count = count + 1;
            }
            i = i + 1;
        }
        proof {
            assert(s.take(s.len() as int) =~= s);
        }
        count
    }

    /// Finds the raw storage index of the visible entry at visible position
    /// `id`, if that position exists.
    fn find_visible(&self, id: u64) -> (r: Option<usize>)
        ensures
            match r {
                Some(raw) => raw < self.items@.len() && is_visible(self.items@[raw as int])
                    && visible_index(self.items@, raw as int) == id,
                None => visible_seq(self.items@).len() <= id,
            },
    {
        let ghost s = self.items@;
        let mut i: usize = 0;
        let mut count: u64 = 0;
        while i < self.items.len()
            invariant
                i <= s.len(),
                self.items@ == s,
                count == visible_seq(s.take(i as int)).len(),
                count <= id,
            decreases s.len() - i,
        {
            proof {
                lemma_visible_take_step(s, i as int);
            }
            if self.items[i].state() != ItemState::Removed {
                if count == id {
                    return Some(i);
                }
                count = count + 1;
            }
            i = i + 1;
        }
        proof {
            assert(s.take(s.len() as int) =~= s);
        }
        None
    }

    /// Reassigns every visible entry's identifier to its position in the
    /// visible view; tombstones are left untouched.
    pub fn map_indices_to_ids(&mut self)
        ensures
            final(self).server == old(self).server,
            final(self).items@.len() == old(self).items@.len(),
            forall|i: int|
                0 <= i < old(self).items@.len() ==> #[trigger] final(self).items@[i] == (
                if is_visible(old(self).items@[i]) {
                    old(self).items@[i].with_id(visible_index(old(self).items@, i) as u64)
                } else {
                    old(self).items@[i]
                }),
            visible_seq(final(self).items@).len() == visible_seq(old(self).items@).len(),
            forall|k: int|
                0 <= k < visible_seq(old(self).items@).len() ==> #[trigger] visible_seq(
                    final(self).items@,
                )[k] == visible_seq(old(self).items@)[k].with_id(k as u64),
            final(self).ids_dense(),
            old(self).server_clean() ==> final(self).server_clean(),
    {
        let ghost s = old(self).items@;
        let mut i: usize = 0;
        let mut count: u64 = 0;
        while i < self.items.len()
            invariant
                i <= s.len(),
                self.items@.len() == s.len(),
                self.server == old(self).server,
                count == visible_seq(s.take(i as int)).len(),
                count <= i,
                forall|j: int|
                    0 <= j < i ==> #[trigger] self.items@[j] == (if is_visible(s[j]) {
                        s[j].with_id(visible_index(s, j) as u64)
                    } else {
                        s[j]
                    }),
                forall|j: int| i <= j < s.len() ==> #[trigger] self.items@[j] == s[j],
            decreases s.len() - i,
        {
            proof {
                lemma_visible_take_step(s, i as int);
            }
            let visible = self.items[i].state() != ItemState::Removed;
            if visible {
                let e = vec_elem_mut(&mut self.items, i);
                e.set_id(count);
                count = count + 1;
            }
            i = i + 1;
        }
        proof {
            assert(s.take(s.len() as int) =~= s);
            let s2 = self.items@;
            assert forall|j: int| 0 <= j < s.len() implies (is_visible(#[trigger] s[j])
                <==> is_visible(s2[j])) by {
                s[j].lemma_with(s[j].spec_state(), visible_index(s, j) as u64);
            };
            lemma_visible_len_pointwise(s, s2);
            assert forall|k: int| 0 <= k < visible_seq(s).len() implies #[trigger] visible_seq(
                s2,
            )[k] == visible_seq(s)[k].with_id(k as u64) by {
                lemma_visible_index_surjective(s, k);
                let j = choose|j: int|
                    0 <= j < s.len() && is_visible(#[trigger] s[j]) && visible_index(s, j) == k;
                lemma_visible_entry(s, j);
                assert forall|m: int| 0 <= m < j implies (is_visible(#[trigger] s.take(j)[m])
                    <==> is_visible(s2.take(j)[m])) by {
                    s[m].lemma_with(s[m].spec_state(), visible_index(s, m) as u64);
                };
                lemma_visible_len_pointwise(s.take(j), s2.take(j));
                lemma_visible_entry(s2, j);
            };
            assert forall|k: int| 0 <= k < visible_seq(s2).len() implies #[trigger] visible_seq(
                s2,
            )[k].spec_id() == k by {
                visible_seq(s)[k].lemma_with(ItemState::Unchanged, k as u64);
            };
        }
    }

    /// Adds an item: its state becomes `New` on a client and `Unchanged` on a
    /// server, its identifier becomes the current visible length, and it is
    /// appended to the collection.
    pub fn add(&mut self, item: T)
        requires
            old(self).wf(),
        ensures
            final(self).wf(),
            final(self).server == old(self).server,
            final(self).items@ == old(self).items@.push(
                item.with_state(
                    if old(self).server {
                        ItemState::Unchanged
                    } else {
                        ItemState::New
                    },
                ).with_id(visible_seq(old(self).items@).len() as u64),
            ),
            visible_seq(final(self).items@) == visible_seq(old(self).items@).push(
                item.with_state(
                    if old(self).server {
                        ItemState::Unchanged
                    } else {
                        ItemState::New
                    },
                ).with_id(visible_seq(old(self).items@).len() as u64),
            ),
    {
        let ghost s = old(self).items@;
        let n = self.visible_len();
        let mut it = item;
        if self.server {
            it.set_state(ItemState::Unchanged);
        } else {
            it.set_state(ItemState::New);
        }
        it.set_id(n);
        self.items.push(it);
        proof {
            let st = if old(self).server {
                ItemState::Unchanged
            } else {
                ItemState::New
            };
            let added = item.with_state(st).with_id(n);
            item.lemma_with(st, n);
            item.with_state(st).lemma_with(st, n);
            assert(added.spec_state() == st);
            assert(added.spec_id() == n);
            assert(is_visible(added));
            lemma_visible_push(s, added);
        }
    }

    /// Marks the visible entry at identifier `id` as removed. On a server the
    /// entry is physically removed at once; on a client it is tagged
    /// `Removed`, stays stored, and disappears from the visible view. Either
    /// way, the identifiers of the later visible entries shift down by one to
    /// stay dense. Fails, changing nothing, when `id` is outside the visible
    /// range.
    pub fn mark_removed(&mut self, id: u64) -> (r: Result<(), ()>)
        requires
            old(self).wf(),
        ensures
            final(self).server == old(self).server,
            match r {
                Ok(_) => {
                    &&& removed_at(old(self).items@, final(self).items@, id)
                    &&& final(self).wf()
                    &&& old(self).server ==> final(self).items@.len() == old(
                        self,
                    ).items@.len() - 1
                    &&& !old(self).server ==> final(self).items@.len() == old(self).items@.len()
                    &&& !old(self).server ==> exists|raw: int|
                        0 <= raw < final(self).items@.len() && #[trigger] final(self).items@[raw]
                            == visible_seq(old(self).items@)[id as int].with_state(
                            ItemState::Removed,
                        )
                },
                Err(_) => {
                    &&& *final(self) == *old(self)
                    &&& id >= visible_seq(old(self).items@).len()
                },
            },
    {
        let ghost s = old(self).items@;
        let found = self.find_visible(id);
        match found {
            None => Err(()),
            Some(raw) => {
                proof {
                    lemma_visible_entry(s, raw as int);
                    lemma_visible_split(s, raw as int);
                }
                if self.server {
                    let _ = self.items.remove(raw);
                    proof {
                        let mid = self.items@;
                        assert(mid.take(raw as int) =~= s.take(raw as int));
                        assert(mid.skip(raw as int) =~= s.skip(raw as int + 1));
                        assert(mid =~= mid.take(raw as int) + mid.skip(raw as int));
                        Seq::<T>::filter_distributes_over_add(
                            mid.take(raw as int),
                            mid.skip(raw as int),
                            visible_pred(),
                        );
                        lemma_mark_removed_views(s, mid, raw as int, id);
                    }
                } else {
                    let e = vec_elem_mut(&mut self.items, raw);
                    e.set_state(ItemState::Removed);
                    proof {
                        let mid = self.items@;
                        let marked = s[raw as int].with_state(ItemState::Removed);
                        s[raw as int].lemma_with(ItemState::Removed, id);
                        assert(mid =~= mid.take(raw as int) + (seq![marked] + mid.skip(
                            raw as int + 1,
                        )));
                        assert(mid.take(raw as int) =~= s.take(raw as int));
                        assert(mid.skip(raw as int + 1) =~= s.skip(raw as int + 1));
                        Seq::<T>::filter_distributes_over_add(
                            mid.take(raw as int),
                            seq![marked] + mid.skip(raw as int + 1),
                            visible_pred(),
                        );
                        Seq::<T>::filter_distributes_over_add(
                            seq![marked],
                            mid.skip(raw as int + 1),
                            visible_pred(),
                        );
                        lemma_visible_singleton(marked);
                        assert(visible_seq(mid) =~= visible_seq(s.take(raw as int)) + visible_seq(
                            s.skip(raw as int + 1),
                        ));
                        lemma_mark_removed_views(s, mid, raw as int, id);
                    }
                }
                let ghost mid_items = self.items@;
                self.map_indices_to_ids();
                proof {
                    lemma_mark_removed_final(s, mid_items, self.items@, id);
                    if !old(self).server {
                        let marked = visible_seq(s)[id as int].with_state(ItemState::Removed);
                        assert(self.items@[raw as int] == marked);
                    }
                }
                Ok(())
            },
        }
    }

    /// Returns the visible entries, in stored order, as references.
    pub fn items(&self) -> (r: Vec<&T>)
        ensures
            r@.len() == visible_seq(self.items@).len(),
            forall|k: int| 0 <= k < r@.len() ==> *(#[trigger] r@[k]) == visible_seq(self.items@)[k],
    {
        let ghost s = self.items@;
        let mut r: Vec<&T> = Vec::new();
        let mut i: usize = 0;
        while i < self.items.len()
            invariant
                i <= s.len(),
                self.items@ == s,
                r@.len() == visible_seq(s.take(i as int)).len(),
                forall|k: int|
                    0 <= k < r@.len() ==> *(#[trigger] r@[k]) == visible_seq(s.take(i as int))[k],
            decreases s.len() - i,
        {
            proof {
                lemma_visible_take_step(s, i as int);
            }
            if self.items[i].state() != ItemState::Removed {
                r.push(&self.items[i]);
            }
            i = i + 1;
        }
        proof {
            assert(s.take(s.len() as int) =~= s);
        }
        r
    }

    /// Returns a mutable handle to the visible entry at identifier `id`. The
    /// entry stands in storage at `raw_index_of(old(self).items@, id)`, and
    /// only that storage slot changes.
    pub fn get_item_mut(&mut self, id: u64) -> (r: &mut T)
        requires
            old(self).wf(),
            id < visible_seq(old(self).items@).len(),
        ensures
            *r == visible_seq(old(self).items@)[id as int],
            final(self).server == old(self).server,
            ({
                let raw = raw_index_of(old(self).items@, id);
                &&& 0 <= raw < old(self).items@.len()
                &&& is_visible(old(self).items@[raw])
                &&& visible_index(old(self).items@, raw) == id
                &&& old(self).items@[raw] == visible_seq(old(self).items@)[id as int]
                &&& final(self).items@ == old(self).items@.update(raw, *final(r))
            }),
    {
        let found = self.find_visible(id);
        match found {
            Some(found_raw) => {
                proof {
                    lemma_visible_entry(self.items@, found_raw as int);
                    let raw = raw_index_of(self.items@, id);
                    assert(0 <= found_raw < self.items@.len() && is_visible(
                        self.items@[found_raw as int],
                    ) && visible_index(self.items@, found_raw as int) == id);
                    assert(0 <= raw < self.items@.len() && is_visible(self.items@[raw])
                        && visible_index(self.items@, raw) == id);
                    if raw < found_raw as int {
                        lemma_visible_index_injective(self.items@, raw, found_raw as int);
                    } else if raw > found_raw as int {
                        lemma_visible_index_injective(self.items@, found_raw as int, raw);
                    }
                    assert(raw == found_raw as int);
                    lemma_visible_entry(self.items@, raw);
                }
                vec_elem_mut(&mut self.items, found_raw)
            },
            None => vstd::pervasive::unreached(),
        }
    }

    /// Physically discards every tombstone. On a well-formed list the
    /// surviving entries' identifiers are already dense, so the stored
    /// sequence becomes exactly the old visible view.
    pub fn compact(&mut self)
        requires
            old(self).ids_dense(),
        ensures
            final(self).wf(),
            final(self).server == old(self).server,
            final(self).items@ == visible_seq(old(self).items@),
    {
        let ghost s = old(self).items@;
        let mut i: usize = 0;
        let mut jj: Ghost<int> = Ghost(0int);
        while i < self.items.len()
            invariant
                0 <= jj@ <= s.len(),
                i == visible_seq(s.take(jj@)).len(),
                self.server == old(self).server,
                self.items@ == visible_seq(s.take(jj@)) + s.skip(jj@),
            decreases s.len() - jj@,
        {
            proof {
                assert(self.items@.len() == visible_seq(s.take(jj@)).len() + s.skip(jj@).len());
                assert(jj@ < s.len());
                lemma_visible_take_step(s, jj@);
                assert(s.skip(jj@) =~= seq![s[jj@]] + s.skip(jj@ + 1));
                assert(self.items@[i as int] == s[jj@]);
            }
            if self.items[i].state() != ItemState::Removed {
                i = i + 1;
                proof {
                    jj@ = jj@ + 1;
                    assert(self.items@ =~= visible_seq(s.take(jj@)) + s.skip(jj@));
                }
            } else {
                let _ = self.items.remove(i);
                proof {
                    jj@ = jj@ + 1;
                    assert(self.items@ =~= visible_seq(s.take(jj@)) + s.skip(jj@));
                }
            }
        }
        proof {
            assert(self.items@.len() == visible_seq(s.take(jj@)).len() + s.skip(jj@).len());
            assert(jj@ == s.len());
            assert(s.take(s.len() as int) =~= s);
            assert(s.skip(s.len() as int) =~= Seq::<T>::empty());
            assert(self.items@ =~= visible_seq(s));
            assert forall|k: int| 0 <= k < visible_seq(s).len() implies is_visible(
                #[trigger] visible_seq(s)[k],
            ) by {
                s.lemma_filter_pred(visible_pred(), k);
            };
            lemma_visible_all(self.items@);
            assert forall|k: int|
                0 <= k < visible_seq(self.items@).len() implies #[trigger] visible_seq(
                self.items@,
            )[k].spec_id() == k by {
                assert(visible_seq(self.items@)[k] == visible_seq(s)[k]);
            };
        }
    }
}

/// After the entry at raw index `raw` (standing at visible position `id`)
/// leaves the visible view, the remaining visible entries are the old ones
/// with the one at `id` taken out.
proof fn lemma_mark_removed_views<T: SyncItem>(s: Seq<T>, mid: Seq<T>, raw: int, id: u64)
    requires
        0 <= raw < s.len(),
        is_visible(s[raw]),
        visible_index(s, raw) == id,
        visible_seq(mid) == visible_seq(s.take(raw)) + visible_seq(s.skip(raw + 1)),
        visible_seq(s) == visible_seq(s.take(raw)) + seq![s[raw]] + visible_seq(s.skip(raw + 1)),
    ensures
        visible_seq(mid).len() == visible_seq(s).len() - 1,
        forall|j: int|
            0 <= j < id ==> #[trigger] visible_seq(mid)[j] == visible_seq(s)[j],
        forall|j: int|
            id <= j < visible_seq(mid).len() ==> #[trigger] visible_seq(mid)[j] == visible_seq(
                s,
            )[j + 1],
{
}

/// Combines the visible-view shift of a removal with the renumbering pass
/// that follows it: on a list whose identifiers were dense, the final visible
/// view keeps the entries before `id` unchanged and shifts the later ones
/// down by one, renumbered.
proof fn lemma_mark_removed_final<T: SyncItem>(s: Seq<T>, mid: Seq<T>, fin: Seq<T>, id: u64)
    requires
        id < visible_seq(s).len(),
        forall|k: int|
            0 <= k < visible_seq(s).len() ==> #[trigger] visible_seq(s)[k].spec_id() == k,
        visible_seq(mid).len() == visible_seq(s).len() - 1,
        forall|j: int|
            0 <= j < id ==> #[trigger] visible_seq(mid)[j] == visible_seq(s)[j],
        forall|j: int|
            id <= j < visible_seq(mid).len() ==> #[trigger] visible_seq(mid)[j] == visible_seq(
                s,
            )[j + 1],
        visible_seq(fin).len() == visible_seq(mid).len(),
        forall|k: int|
            0 <= k < visible_seq(mid).len() ==> #[trigger] visible_seq(fin)[k] == visible_seq(
                mid,
            )[k].with_id(k as u64),
    ensures
        visible_seq(fin).len() == visible_seq(s).len() - 1,
        forall|j: int|
            0 <= j < id ==> #[trigger] visible_seq(fin)[j] == visible_seq(s)[j],
        forall|j: int|
            id <= j < visible_seq(fin).len() ==> #[trigger] visible_seq(fin)[j] == visible_seq(
                s,
            )[j + 1].with_id(j as u64),
{
    assert forall|j: int| 0 <= j < id implies #[trigger] visible_seq(fin)[j] == visible_seq(
        s,
    )[j] by {
        visible_seq(s)[j].lemma_with(ItemState::Unchanged, j as u64);
    };
}

} // verus!
