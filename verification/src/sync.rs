//! The pure part of the synchronization protocol. A client collects its
//! pending delta (items created since the last successful synchronization and
//! identifiers of items marked removed), a server applies an incoming delta
//! to its authoritative store and garbage-collects stale todos, and a client
//! adopts the server's full snapshot as its own new state. Connections,
//! framing, encryption and serialization live outside this crate; they only
//! move the plain values handled here across the wire. A failed exchange
//! never reaches the adopting step, so it leaves a client store untouched.

use vstd::prelude::*;

use crate::date::Date;
use crate::item::{ItemState, SyncItem};
use crate::synclist::{is_visible, lemma_visible_all, removed_at, visible_seq, SyncList};
use crate::task::Task;
use crate::tdlist::{spec_self_synced_todos, TdList};
use crate::todo::Todo;

verus! {

/// The predicate selecting entries created locally since the last successful
/// synchronization.
pub open spec fn new_pred<T: SyncItem>() -> spec_fn(T) -> bool {
    |t: T| t.spec_state() == ItemState::New
}

/// The predicate selecting entries marked for deletion but not yet dropped.
pub open spec fn removed_pred<T: SyncItem>() -> spec_fn(T) -> bool {
    |t: T| t.spec_state() == ItemState::Removed
}

/// The identifiers of a sequence of entries, in stored order.
pub open spec fn ids_of<T: SyncItem>(s: Seq<T>) -> Seq<u64> {
    s.map_values(|t: T| t.spec_id())
}

/// A client's pending edits since its last successful synchronization: the
/// items to be created on the server and the last-known identifiers of the
/// items to be deleted there, per kind.
#[derive(Debug)]
pub struct Delta {
    pub new_todos: Vec<Todo>,
    pub removed_todo_ids: Vec<u64>,
    pub new_tasks: Vec<Task>,
    pub removed_task_ids: Vec<u64>,
}

/// One removal applied to an authoritative collection, which carries no
/// tombstones and keeps identifiers dense: the entries after the removed one
/// shift down by one, renumbered. An identifier out of the collection's range
/// removes nothing, and the rest of the delta still applies.
pub open spec fn spec_server_remove<T: SyncItem>(s: Seq<T>, id: u64) -> Seq<T> {
    if id < s.len() {
        Seq::new(
            (s.len() - 1) as nat,
            |j: int|
                if j < id {
                    s[j]
                } else {
                    s[j + 1].with_id(j as u64)
                },
        )
    } else {
        s
    }
}

/// The removals of a delta applied to an authoritative collection, in order.
pub open spec fn spec_apply_removals<T: SyncItem>(s: Seq<T>, ids: Seq<u64>) -> Seq<T>
    decreases ids.len(),
{
    if ids.len() == 0 {
        s
    } else {
        spec_server_remove(spec_apply_removals(s, ids.drop_last()), ids.last())
    }
}

/// One incoming item added to an authoritative collection: it is stored as
/// `Unchanged` under the next free identifier.
pub open spec fn spec_server_add<T: SyncItem>(s: Seq<T>, item: T) -> Seq<T> {
    s.push(item.with_state(ItemState::Unchanged).with_id(visible_seq(s).len() as u64))
}

/// The additions of a delta applied to an authoritative collection, in order.
pub open spec fn spec_apply_adds<T: SyncItem>(s: Seq<T>, items: Seq<T>) -> Seq<T>
    decreases items.len(),
{
    if items.len() == 0 {
        s
    } else {
        spec_server_add(spec_apply_adds(s, items.drop_last()), items.last())
    }
}

/// The collection a client adopts from a server snapshot: the received items
/// in their received order, every one `Unchanged`, with dense identifiers.
pub open spec fn spec_adopted<T: SyncItem>(s: Seq<T>) -> Seq<T> {
    Seq::new(s.len(), |i: int| s[i].with_state(ItemState::Unchanged).with_id(i as u64))
}

/// On sequences without tombstones, a removal that succeeded (or was refused
/// for an out-of-range identifier) produces exactly `spec_server_remove`.
proof fn lemma_server_remove_matches<T: SyncItem>(pre: Seq<T>, post: Seq<T>, id: u64, ok: bool)
    requires
        forall|i: int| 0 <= i < pre.len() ==> is_visible(#[trigger] pre[i]),
        forall|i: int| 0 <= i < post.len() ==> is_visible(#[trigger] post[i]),
        ok ==> removed_at(pre, post, id),
        !ok ==> post == pre && id >= visible_seq(pre).len(),
    ensures
        post == spec_server_remove(pre, id),
{
    lemma_visible_all(pre);
    lemma_visible_all(post);
    if ok {
        assert(post =~= spec_server_remove(pre, id));
    }
}

impl TdList {
    /// The `Todo`s created locally since the last successful synchronization,
    /// in stored order.
    pub fn pending_new_todos(&self) -> (r: Vec<&Todo>)
        ensures
            r@.len() == self.todos.items@.filter(new_pred::<Todo>()).len(),
            forall|k: int|
                0 <= k < r@.len() ==> *(#[trigger] r@[k]) == self.todos.items@.filter(
                    new_pred::<Todo>(),
                )[k],
    {
        let ghost s = self.todos.items@;
        let mut r: Vec<&Todo> = Vec::new();
        let mut i: usize = 0;
        while i < self.todos.items.len()
            invariant
                i <= s.len(),
                self.todos.items@ == s,
                r@.len() == s.take(i as int).filter(new_pred::<Todo>()).len(),
                forall|k: int|
                    0 <= k < r@.len() ==> *(#[trigger] r@[k]) == s.take(i as int).filter(
                        new_pred::<Todo>(),
                    )[k],
            decreases s.len() - i,
        {
            proof {
                assert(s.take(i + 1) =~= s.take(i as int).push(s[i as int]));
                s.take(i as int).lemma_filter_push(s[i as int], new_pred::<Todo>());
            }
            let t = &self.todos.items[i];
            if t.state() == ItemState::New {
                r.push(t);
            }
            i = i + 1;
        }
        proof {
            assert(s.take(s.len() as int) =~= s);
        }
        r
    }

    /// The `Task`s created locally since the last successful synchronization,
    /// in stored order.
    pub fn pending_new_tasks(&self) -> (r: Vec<&Task>)
        ensures
            r@.len() == self.tasks.items@.filter(new_pred::<Task>()).len(),
            forall|k: int|
                0 <= k < r@.len() ==> *(#[trigger] r@[k]) == self.tasks.items@.filter(
                    new_pred::<Task>(),
                )[k],
    {
        let ghost s = self.tasks.items@;
        let mut r: Vec<&Task> = Vec::new();
        let mut i: usize = 0;
        while i < self.tasks.items.len()
            invariant
                i <= s.len(),
                self.tasks.items@ == s,
                r@.len() == s.take(i as int).filter(new_pred::<Task>()).len(),
                forall|k: int|
                    0 <= k < r@.len() ==> *(#[trigger] r@[k]) == s.take(i as int).filter(
                        new_pred::<Task>(),
                    )[k],
            decreases s.len() - i,
        {
            proof {
                assert(s.take(i + 1) =~= s.take(i as int).push(s[i as int]));
                s.take(i as int).lemma_filter_push(s[i as int], new_pred::<Task>());
            }
            let t = &self.tasks.items[i];
            if t.state() == ItemState::New {
                r.push(t);
            }
            i = i + 1;
        }
        proof {
            assert(s.take(s.len() as int) =~= s);
        }
        r
    }

    /// The last-known identifiers of the `Todo`s marked removed locally, in
    /// stored order.
    pub fn pending_removed_todo_ids(&self) -> (r: Vec<u64>)
        ensures
            r@ == ids_of(self.todos.items@.filter(removed_pred::<Todo>())),
    {
        let ghost s = self.todos.items@;
        let mut r: Vec<u64> = Vec::new();
        let mut i: usize = 0;
        while i < self.todos.items.len()
            invariant
                i <= s.len(),
                self.todos.items@ == s,
                r@ == ids_of(s.take(i as int).filter(removed_pred::<Todo>())),
            decreases s.len() - i,
        {
            proof {
                assert(s.take(i + 1) =~= s.take(i as int).push(s[i as int]));
                s.take(i as int).lemma_filter_push(s[i as int], removed_pred::<Todo>());
                if removed_pred::<Todo>()(s[i as int]) {
                    assert(ids_of(s.take(i as int).filter(removed_pred::<Todo>()).push(s[i as int]))
                        =~= ids_of(s.take(i as int).filter(removed_pred::<Todo>())).push(
                        s[i as int].spec_id(),
                    ));
                }
            }
            let t = &self.todos.items[i];
            if t.state() == ItemState::Removed {
                r.push(t.id());
            }
            i = i + 1;
        }
        proof {
            assert(s.take(s.len() as int) =~= s);
        }
        r
    }

    /// The last-known identifiers of the `Task`s marked removed locally, in
    /// stored order.
    pub fn pending_removed_task_ids(&self) -> (r: Vec<u64>)
        ensures
            r@ == ids_of(self.tasks.items@.filter(removed_pred::<Task>())),
    {
        let ghost s = self.tasks.items@;
        let mut r: Vec<u64> = Vec::new();
        let mut i: usize = 0;
        while i < self.tasks.items.len()
            invariant
                i <= s.len(),
                self.tasks.items@ == s,
                r@ == ids_of(s.take(i as int).filter(removed_pred::<Task>())),
            decreases s.len() - i,
        {
            proof {
                assert(s.take(i + 1) =~= s.take(i as int).push(s[i as int]));
                s.take(i as int).lemma_filter_push(s[i as int], removed_pred::<Task>());
                if removed_pred::<Task>()(s[i as int]) {
                    assert(ids_of(s.take(i as int).filter(removed_pred::<Task>()).push(s[i as int]))
                        =~= ids_of(s.take(i as int).filter(removed_pred::<Task>())).push(
                        s[i as int].spec_id(),
                    ));
                }
            }
            let t = &self.tasks.items[i];
            if t.state() == ItemState::Removed {
                r.push(t.id());
            }
            i = i + 1;
        }
        proof {
            assert(s.take(s.len() as int) =~= s);
        }
        r
    }

    /// Applies an incoming delta to this authoritative store: first every
    /// removal, by the item's last-known identifier (an identifier the store
    /// no longer holds removes nothing, and the rest of the delta still
    /// applies), then every addition, and finally the garbage collection of
    /// stale completed todos.
    pub fn apply_delta(&mut self, delta: Delta, today: Date)
        requires
            old(self).wf(),
            old(self).server,
            forall|i: int| 0 <= i < delta.new_tasks@.len() ==> (#[trigger] delta.new_tasks@[i]).wf(),
        ensures
            final(self).wf(),
            final(self).server == old(self).server,
            final(self).todos.items@ == spec_self_synced_todos(
                spec_apply_adds(
                    spec_apply_removals(old(self).todos.items@, delta.removed_todo_ids@),
                    delta.new_todos@,
                ),
                today,
            ),
            final(self).tasks.items@ == spec_apply_adds(
                spec_apply_removals(old(self).tasks.items@, delta.removed_task_ids@),
                delta.new_tasks@,
            ),
    {
        let Delta { new_todos, removed_todo_ids, new_tasks, removed_task_ids } = delta;
        let ghost t0 = self.todos.items@;
        let ghost k0 = self.tasks.items@;
        let ghost trids = removed_todo_ids@;
        let ghost krids = removed_task_ids@;

        let mut i: usize = 0;
        while i < removed_todo_ids.len()
            invariant
                i <= trids.len(),
                removed_todo_ids@ == trids,
                self.wf(),
                self.server == old(self).server,
                old(self).server,
                self.tasks == old(self).tasks,
                self.todos.items@ == spec_apply_removals(t0, trids.take(i as int)),
            decreases trids.len() - i,
        {
            let id = removed_todo_ids[i];
            let ghost pre = self.todos.items@;
            let res = self.remove_todo(id);
            proof {
                assert(trids.take(i + 1).drop_last() =~= trids.take(i as int));
                lemma_server_remove_matches(pre, self.todos.items@, id, res is Ok);
            }
            i = i + 1;
        }
        proof {
            assert(trids.take(trids.len() as int) =~= trids);
        }

        let mut i: usize = 0;
        while i < removed_task_ids.len()
            invariant
                i <= krids.len(),
                removed_task_ids@ == krids,
                self.wf(),
                self.server == old(self).server,
                old(self).server,
                self.todos.items@ == spec_apply_removals(t0, trids),
                self.tasks.items@ == spec_apply_removals(k0, krids.take(i as int)),
            decreases krids.len() - i,
        {
            let id = removed_task_ids[i];
            let ghost pre = self.tasks.items@;
            let res = self.remove_task(id);
            proof {
                assert(krids.take(i + 1).drop_last() =~= krids.take(i as int));
                lemma_server_remove_matches(pre, self.tasks.items@, id, res is Ok);
            }
            i = i + 1;
        }
        proof {
            assert(krids.take(krids.len() as int) =~= krids);
        }

        let ghost t1 = self.todos.items@;
        let ghost k1 = self.tasks.items@;
        let ghost tnews = new_todos@;
        let ghost knews = new_tasks@;

        let mut new_todos = new_todos;
        while new_todos.len() > 0
            invariant
                new_todos@.len() <= tnews.len(),
                new_todos@ == tnews.skip(tnews.len() - new_todos@.len()),
                self.wf(),
                self.server == old(self).server,
                old(self).server,
                self.tasks.items@ == spec_apply_removals(k0, krids),
                self.todos.items@ == spec_apply_adds(
                    t1,
                    tnews.take(tnews.len() - new_todos@.len()),
                ),
            decreases new_todos@.len(),
        {
            let ghost done = tnews.len() - new_todos@.len();
            let t = new_todos.remove(0);
            proof {
                assert(t == tnews[done]);
                assert(new_todos@ =~= tnews.skip(done + 1));
                assert(tnews.take(done + 1).drop_last() =~= tnews.take(done));
            }
            self.add_todo(t);
        }
        proof {
            assert(tnews.take(tnews.len() as int) =~= tnews);
        }

        let mut new_tasks = new_tasks;
        while new_tasks.len() > 0
            invariant
                new_tasks@.len() <= knews.len(),
                new_tasks@ == knews.skip(knews.len() - new_tasks@.len()),
                forall|j: int| 0 <= j < knews.len() ==> (#[trigger] knews[j]).wf(),
                self.wf(),
                self.server == old(self).server,
                old(self).server,
                self.todos.items@ == spec_apply_adds(t1, tnews),
                self.tasks.items@ == spec_apply_adds(
                    k1,
                    knews.take(knews.len() - new_tasks@.len()),
                ),
            decreases new_tasks@.len(),
        {
            let ghost done = knews.len() - new_tasks@.len();
            let t = new_tasks.remove(0);
            proof {
                assert(t == knews[done]);
                assert(new_tasks@ =~= knews.skip(done + 1));
                assert(knews.take(done + 1).drop_last() =~= knews.take(done));
            }
            self.add_task(t);
        }
        proof {
            assert(knews.take(knews.len() as int) =~= knews);
        }

        self.remove_old_todos(today);
    }

    /// Atomically replaces this client store's collections with a server's
    /// full snapshot: the received items in the server's order, every one
    /// `Unchanged`, with freshly assigned dense identifiers. All pending
    /// local tags are discarded. This is the single commit point of a client
    /// synchronization; a failed exchange never reaches it.
    pub fn apply_snapshot(&mut self, todos: Vec<Todo>, tasks: Vec<Task>)
        requires
            !old(self).server,
            forall|i: int| 0 <= i < tasks@.len() ==> (#[trigger] tasks@[i]).wf(),
        ensures
            final(self).wf(),
            final(self).server == old(self).server,
            final(self).todos.items@ == spec_adopted(todos@),
            final(self).tasks.items@ == spec_adopted(tasks@),
    {
        let ghost ts = todos@;
        let ghost ks = tasks@;
        proof {
            vstd::std_specs::vec::axiom_spec_len(&todos);
            vstd::std_specs::vec::axiom_spec_len(&tasks);
        }

        let mut incoming = todos;
        let mut new_todos: Vec<Todo> = Vec::new();
        while incoming.len() > 0
            invariant
                incoming@.len() <= ts.len(),
                incoming@ == ts.skip(ts.len() - incoming@.len()),
                new_todos@ == spec_adopted(ts).take(ts.len() - incoming@.len()),
            decreases incoming@.len(),
        {
            let ghost done = ts.len() - incoming@.len();
            let n = new_todos.len() as u64;
            let mut t = incoming.remove(0);
            proof {
                assert(t == ts[done]);
                assert(incoming@ =~= ts.skip(done + 1));
            }
            t.set_state(ItemState::Unchanged);
            t.set_id(n);
            new_todos.push(t);
            proof {
                assert(new_todos@ =~= spec_adopted(ts).take(done + 1));
            }
        }
        proof {
            assert(spec_adopted(ts).take(ts.len() as int) =~= spec_adopted(ts));
        }

        let mut incoming = tasks;
        let mut new_tasks: Vec<Task> = Vec::new();
        while incoming.len() > 0
            invariant
                incoming@.len() <= ks.len(),
                incoming@ == ks.skip(ks.len() - incoming@.len()),
                new_tasks@ == spec_adopted(ks).take(ks.len() - incoming@.len()),
            decreases incoming@.len(),
        {
            let ghost done = ks.len() - incoming@.len();
            let n = new_tasks.len() as u64;
            let mut t = incoming.remove(0);
            proof {
                assert(t == ks[done]);
                assert(incoming@ =~= ks.skip(done + 1));
            }
            t.set_state(ItemState::Unchanged);
            t.set_id(n);
            new_tasks.push(t);
            proof {
                assert(new_tasks@ =~= spec_adopted(ks).take(done + 1));
            }
        }
        proof {
            assert(spec_adopted(ks).take(ks.len() as int) =~= spec_adopted(ks));
        }

        self.todos = SyncList { items: new_todos, server: self.server };
        self.tasks = SyncList { items: new_tasks, server: self.server };
        proof {
            lemma_adopted_wf(ts, self.todos.items@);
            lemma_adopted_wf(ks, self.tasks.items@);
            assert forall|k: int|
                0 <= k < visible_seq(self.tasks.items@).len() implies (#[trigger] visible_seq(
                self.tasks.items@,
            )[k]).wf() by {
                assert(visible_seq(self.tasks.items@)[k] == self.tasks.items@[k]);
                assert(self.tasks.items@[k] == ks[k].with_state(ItemState::Unchanged).with_id(
                    k as u64,
                ));
            };
        }
    }
}

/// An adopted snapshot is well formed as a client collection: every entry is
/// visible and the identifiers are dense.
proof fn lemma_adopted_wf<T: SyncItem>(src: Seq<T>, adopted: Seq<T>)
    requires
        src.len() <= u64::MAX,
        adopted == spec_adopted(src),
    ensures
        forall|i: int| 0 <= i < adopted.len() ==> is_visible(#[trigger] adopted[i]),
        visible_seq(adopted) == adopted,
        forall|k: int|
            0 <= k < visible_seq(adopted).len() ==> #[trigger] visible_seq(adopted)[k].spec_id()
                == k,
{
    assert forall|i: int| 0 <= i < adopted.len() implies is_visible(#[trigger] adopted[i]) by {
        src[i].lemma_with(ItemState::Unchanged, i as u64);
        src[i].with_state(ItemState::Unchanged).lemma_with(ItemState::Unchanged, i as u64);
    };
    lemma_visible_all(adopted);
    assert forall|k: int|
        0 <= k < visible_seq(adopted).len() implies #[trigger] visible_seq(adopted)[k].spec_id()
            == k by {
        assert(visible_seq(adopted)[k] == adopted[k]);
        assert(adopted[k] == src[k].with_state(ItemState::Unchanged).with_id(k as u64));
        src[k].with_state(ItemState::Unchanged).lemma_with(ItemState::Unchanged, k as u64);
    };
}

} // verus!
