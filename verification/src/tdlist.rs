//! The list store: one replicated collection of `Todo`s and one of `Task`s,
//! carrying the role flag and offering the aggregate operations — queries by
//! date, garbage collection of stale completed todos, and local
//! reconciliation.

use vstd::prelude::*;

use crate::date::Date;
use crate::error::MtdError;
use crate::item::{ItemState, SyncItem};
use crate::synclist::{
    is_visible, lemma_filter_all_pass, lemma_filter_pointwise, lemma_visible_all,
    lemma_visible_entry, lemma_visible_index_surjective, raw_index_of, removed_at, renumbered,
    vec_elem_mut, visible_index, visible_pred, visible_seq, SyncList,
};
use crate::task::Task;
use crate::todo::Todo;

verus! {

/// The predicate selecting the todos that survive garbage collection on
/// `today`: the visible entries that are not yet removable.
pub open spec fn keeps_todo(today: Date) -> spec_fn(Todo) -> bool {
    |t: Todo| is_visible(t) && !t.spec_can_remove(today)
}

/// The visible todos that count as not yet done for a query date.
pub open spec fn undone_todo_pred(date: Date, today: Date) -> spec_fn(Todo) -> bool {
    |t: Todo| is_visible(t) && t.spec_for_date(date, today) && !t.spec_done()
}

/// The visible todos that count as done for a query date.
pub open spec fn done_todo_pred(date: Date, today: Date) -> spec_fn(Todo) -> bool {
    |t: Todo| is_visible(t) && t.spec_for_date(date, today) && t.spec_done()
}

/// The visible tasks scheduled for a query date and not yet done for it.
pub open spec fn undone_task_pred(date: Date) -> spec_fn(Task) -> bool {
    |t: Task| is_visible(t) && t.spec_for_date(date) && !t.spec_done(date)
}

/// The visible tasks scheduled for a query date and done for it.
pub open spec fn done_task_pred(date: Date) -> spec_fn(Task) -> bool {
    |t: Task| is_visible(t) && t.spec_for_date(date) && t.spec_done(date)
}

/// The todo collection of a store after a local synchronization on `today`:
/// the visible, not yet removable todos, with identifiers renumbered densely.
pub open spec fn spec_self_synced_todos(s: Seq<Todo>, today: Date) -> Seq<Todo> {
    renumbered(s.filter(keeps_todo(today)))
}

/// The task collection of a store after a local synchronization: exactly the
/// visible tasks. Their identifiers are already dense on a well-formed store.
pub open spec fn spec_self_synced_tasks(s: Seq<Task>) -> Seq<Task> {
    visible_seq(s)
}

/// A synchronizable list used for containing and managing all `Todo`s and
/// `Task`s. Every item's `id` matches its index within the visible view of
/// its collection.
#[derive(Debug)]
pub struct TdList {
    pub todos: SyncList<Todo>,
    pub tasks: SyncList<Task>,
    pub server: bool,
}

impl TdList {
    /// Well-formedness: both collections are well formed, carry the store's
    /// role, and every visible task has a complete completion record.
    pub open spec fn wf(self) -> bool {
        &&& self.todos.wf()
        &&& self.tasks.wf()
        &&& self.todos.server == self.server
        &&& self.tasks.server == self.server
        &&& forall|k: int|
            0 <= k < visible_seq(self.tasks.items@).len() ==> (#[trigger] visible_seq(
                self.tasks.items@,
            )[k]).wf()
    }

    /// Creates a new empty client `TdList`.
    pub fn new_client() -> (r: TdList)
        ensures
            r.wf(),
            !r.server,
            r.todos.items@ == Seq::<Todo>::empty(),
            r.tasks.items@ == Seq::<Task>::empty(),
    {
        TdList { todos: SyncList::new(false), tasks: SyncList::new(false), server: false }
    }

    /// Creates a new empty server `TdList`.
    pub fn new_server() -> (r: TdList)
        ensures
            r.wf(),
            r.server,
            r.todos.items@ == Seq::<Todo>::empty(),
            r.tasks.items@ == Seq::<Task>::empty(),
    {
        TdList { todos: SyncList::new(true), tasks: SyncList::new(true), server: true }
    }

    /// Gets all the `Todo`s in the list. A `Todo`'s id matches its index in
    /// this list.
    pub fn todos(&self) -> (r: Vec<&Todo>)
        ensures
            r@.len() == visible_seq(self.todos.items@).len(),
            forall|k: int|
                0 <= k < r@.len() ==> *(#[trigger] r@[k]) == visible_seq(self.todos.items@)[k],
    {
        self.todos.items()
    }

    /// Gets all the `Task`s in the list. A `Task`'s id matches its index in
    /// this list.
    pub fn tasks(&self) -> (r: Vec<&Task>)
        ensures
            r@.len() == visible_seq(self.tasks.items@).len(),
            forall|k: int|
                0 <= k < r@.len() ==> *(#[trigger] r@[k]) == visible_seq(self.tasks.items@)[k],
    {
        self.tasks.items()
    }

    /// Adds a `Todo` to the list, setting its state by role and its id to the
    /// next free identifier.
    pub fn add_todo(&mut self, todo: Todo)
        requires
            old(self).wf(),
        ensures
            final(self).wf(),
            final(self).server == old(self).server,
            final(self).tasks == old(self).tasks,
            final(self).todos.items@ == old(self).todos.items@.push(
                todo.with_state(
                    if old(self).server {
                        ItemState::Unchanged
                    } else {
                        ItemState::New
                    },
                ).with_id(visible_seq(old(self).todos.items@).len() as u64),
            ),
            visible_seq(final(self).todos.items@) == visible_seq(old(self).todos.items@).push(
                todo.with_state(
                    if old(self).server {
                        ItemState::Unchanged
                    } else {
                        ItemState::New
                    },
                ).with_id(visible_seq(old(self).todos.items@).len() as u64),
            ),
    {
        self.todos.add(todo);
    }

    /// Adds a `Task` to the list, setting its state by role and its id to the
    /// next free identifier.
    pub fn add_task(&mut self, task: Task)
        requires
            old(self).wf(),
            task.wf(),
        ensures
            final(self).wf(),
            final(self).server == old(self).server,
            final(self).todos == old(self).todos,
            final(self).tasks.items@ == old(self).tasks.items@.push(
                task.with_state(
                    if old(self).server {
                        ItemState::Unchanged
                    } else {
                        ItemState::New
                    },
                ).with_id(visible_seq(old(self).tasks.items@).len() as u64),
            ),
            visible_seq(final(self).tasks.items@) == visible_seq(old(self).tasks.items@).push(
                task.with_state(
                    if old(self).server {
                        ItemState::Unchanged
                    } else {
                        ItemState::New
                    },
                ).with_id(visible_seq(old(self).tasks.items@).len() as u64),
            ),
    {
        self.tasks.add(task);
    }

    /// Removes the `Todo` that matches the given id. On a client this only
    /// marks the item as removed; it is physically dropped by the next
    /// synchronization. Fails, changing nothing, if no visible `Todo` has the
    /// given id.
    pub fn remove_todo(&mut self, id: u64) -> (r: Result<(), MtdError>)
        requires
            old(self).wf(),
        ensures
            final(self).server == old(self).server,
            final(self).tasks == old(self).tasks,
            match r {
                Ok(_) => {
                    &&& final(self).wf()
                    &&& removed_at(old(self).todos.items@, final(self).todos.items@, id)
                    &&& old(self).server ==> final(self).todos.items@.len() == old(
                        self,
                    ).todos.items@.len() - 1
                    &&& !old(self).server ==> final(self).todos.items@.len() == old(
                        self,
                    ).todos.items@.len()
                },
                Err(e) => {
                    &&& *final(self) == *old(self)
                    &&& e == MtdError::NoTodoWithGivenId(id)
                    &&& id >= visible_seq(old(self).todos.items@).len()
                },
            },
    {
        match self.todos.mark_removed(id) {
            Ok(_) => Ok(()),
            Err(_) => Err(MtdError::NoTodoWithGivenId(id)),
        }
    }

    /// Removes the `Task` that matches the given id. On a client this only
    /// marks the item as removed; it is physically dropped by the next
    /// synchronization. Fails, changing nothing, if no visible `Task` has the
    /// given id.
    pub fn remove_task(&mut self, id: u64) -> (r: Result<(), MtdError>)
        requires
            old(self).wf(),
        ensures
            final(self).server == old(self).server,
            final(self).todos == old(self).todos,
            match r {
                Ok(_) => {
                    &&& final(self).wf()
                    &&& removed_at(old(self).tasks.items@, final(self).tasks.items@, id)
                    &&& old(self).server ==> final(self).tasks.items@.len() == old(
                        self,
                    ).tasks.items@.len() - 1
                    &&& !old(self).server ==> final(self).tasks.items@.len() == old(
                        self,
                    ).tasks.items@.len()
                },
                Err(e) => {
                    &&& *final(self) == *old(self)
                    &&& e == MtdError::NoTaskWithGivenId(id)
                    &&& id >= visible_seq(old(self).tasks.items@).len()
                },
            },
    {
        let ghost pre = self.tasks.items@;
        let r = self.tasks.mark_removed(id);
        proof {
            if r is Ok {
                assert forall|k: int|
                    0 <= k < visible_seq(self.tasks.items@).len() implies (#[trigger] visible_seq(
                    self.tasks.items@,
                )[k]).wf() by {
                    if k >= id {
                        assert(visible_seq(self.tasks.items@)[k] == visible_seq(pre)[k
                            + 1].with_id(k as u64));
                    }
                }
            }
        }
        match r {
            Ok(_) => Ok(()),
            Err(_) => Err(MtdError::NoTaskWithGivenId(id)),
        }
    }

    /// Returns a mutable reference to the visible `Todo` with the given id.
    pub fn get_todo_mut(&mut self, id: u64) -> (r: &mut Todo)
        requires
            old(self).wf(),
            id < visible_seq(old(self).todos.items@).len(),
        ensures
            *r == visible_seq(old(self).todos.items@)[id as int],
            final(self).server == old(self).server,
            final(self).todos.server == old(self).todos.server,
            final(self).tasks == old(self).tasks,
            ({
                let raw = raw_index_of(old(self).todos.items@, id);
                &&& 0 <= raw < old(self).todos.items@.len()
                &&& is_visible(old(self).todos.items@[raw])
                &&& visible_index(old(self).todos.items@, raw) == id
                &&& old(self).todos.items@[raw] == visible_seq(old(self).todos.items@)[id as int]
                &&& final(self).todos.items@ == old(self).todos.items@.update(raw, *final(r))
            }),
    {
        self.todos.get_item_mut(id)
    }

    /// Returns a mutable reference to the visible `Task` with the given id.
    pub fn get_task_mut(&mut self, id: u64) -> (r: &mut Task)
        requires
            old(self).wf(),
            id < visible_seq(old(self).tasks.items@).len(),
        ensures
            *r == visible_seq(old(self).tasks.items@)[id as int],
            r.wf(),
            final(self).server == old(self).server,
            final(self).tasks.server == old(self).tasks.server,
            final(self).todos == old(self).todos,
            ({
                let raw = raw_index_of(old(self).tasks.items@, id);
                &&& 0 <= raw < old(self).tasks.items@.len()
                &&& is_visible(old(self).tasks.items@[raw])
                &&& visible_index(old(self).tasks.items@, raw) == id
                &&& old(self).tasks.items@[raw] == visible_seq(old(self).tasks.items@)[id as int]
                &&& final(self).tasks.items@ == old(self).tasks.items@.update(raw, *final(r))
            }),
    {
        proof {
            lemma_visible_index_surjective(self.tasks.items@, id as int);
            let i = choose|i: int|
                0 <= i < self.tasks.items@.len() && is_visible(
                    #[trigger] self.tasks.items@[i],
                ) && visible_index(self.tasks.items@, i) == id;
            lemma_visible_entry(self.tasks.items@, i);
        }
        self.tasks.get_item_mut(id)
    }

    /// Returns all `Todo`s for a given date, as seen from `today`, that are
    /// not yet done.
    pub fn undone_todos_for_date(&self, date: Date, today: Date) -> (r: Vec<&Todo>)
        ensures
            r@.len() == self.todos.items@.filter(undone_todo_pred(date, today)).len(),
            forall|k: int|
                0 <= k < r@.len() ==> *(#[trigger] r@[k]) == self.todos.items@.filter(
                    undone_todo_pred(date, today),
                )[k],
    {
        let ghost s = self.todos.items@;
        let ghost pred = undone_todo_pred(date, today);
        let mut r: Vec<&Todo> = Vec::new();
        let mut i: usize = 0;
        while i < self.todos.items.len()
            invariant
                i <= s.len(),
                self.todos.items@ == s,
                pred == undone_todo_pred(date, today),
                r@.len() == s.take(i as int).filter(pred).len(),
                forall|k: int|
                    0 <= k < r@.len() ==> *(#[trigger] r@[k]) == s.take(i as int).filter(pred)[k],
            decreases s.len() - i,
        {
            proof {
                assert(s.take(i + 1) =~= s.take(i as int).push(s[i as int]));
                s.take(i as int).lemma_filter_push(s[i as int], pred);
            }
            let t = &self.todos.items[i];
            if t.state() != ItemState::Removed && t.for_date(date, today) && !t.done() {
                r.push(t);
            }
            i = i + 1;
        }
        proof {
            assert(s.take(s.len() as int) =~= s);
        }
        r
    }

    /// Returns all `Todo`s for a given date, as seen from `today`, that are
    /// done.
    pub fn done_todos_for_date(&self, date: Date, today: Date) -> (r: Vec<&Todo>)
        ensures
            r@.len() == self.todos.items@.filter(done_todo_pred(date, today)).len(),
            forall|k: int|
                0 <= k < r@.len() ==> *(#[trigger] r@[k]) == self.todos.items@.filter(
                    done_todo_pred(date, today),
                )[k],
    {
        let ghost s = self.todos.items@;
        let ghost pred = done_todo_pred(date, today);
        let mut r: Vec<&Todo> = Vec::new();
        let mut i: usize = 0;
        while i < self.todos.items.len()
            invariant
                i <= s.len(),
                self.todos.items@ == s,
                pred == done_todo_pred(date, today),
                r@.len() == s.take(i as int).filter(pred).len(),
                forall|k: int|
                    0 <= k < r@.len() ==> *(#[trigger] r@[k]) == s.take(i as int).filter(pred)[k],
            decreases s.len() - i,
        {
            proof {
                assert(s.take(i + 1) =~= s.take(i as int).push(s[i as int]));
                s.take(i as int).lemma_filter_push(s[i as int], pred);
            }
            let t = &self.todos.items[i];
            if t.state() != ItemState::Removed && t.for_date(date, today) && t.done() {
                r.push(t);
            }
            i = i + 1;
        }
        proof {
            assert(s.take(s.len() as int) =~= s);
        }
        r
    }

    /// Returns all `Task`s for a given date that are not yet done.
    pub fn undone_tasks_for_date(&self, date: Date) -> (r: Vec<&Task>)
        requires
            self.wf(),
        ensures
            r@.len() == self.tasks.items@.filter(undone_task_pred(date)).len(),
            forall|k: int|
                0 <= k < r@.len() ==> *(#[trigger] r@[k]) == self.tasks.items@.filter(
                    undone_task_pred(date),
                )[k],
    {
        let ghost s = self.tasks.items@;
        let ghost pred = undone_task_pred(date);
        let mut r: Vec<&Task> = Vec::new();
        let mut i: usize = 0;
        while i < self.tasks.items.len()
            invariant
                i <= s.len(),
                self.tasks.items@ == s,
                forall|k: int|
                    0 <= k < visible_seq(s).len() ==> (#[trigger] visible_seq(s)[k]).wf(),
                pred == undone_task_pred(date),
                r@.len() == s.take(i as int).filter(pred).len(),
                forall|k: int|
                    0 <= k < r@.len() ==> *(#[trigger] r@[k]) == s.take(i as int).filter(pred)[k],
            decreases s.len() - i,
        {
            proof {
                assert(s.take(i + 1) =~= s.take(i as int).push(s[i as int]));
                s.take(i as int).lemma_filter_push(s[i as int], pred);
                if is_visible(s[i as int]) {
                    lemma_visible_entry(s, i as int);
                }
            }
            let t = &self.tasks.items[i];
            if t.state() != ItemState::Removed && t.for_date(date) && !t.done(date) {
                r.push(t);
            }
            i = i + 1;
        }
        proof {
            assert(s.take(s.len() as int) =~= s);
        }
        r
    }

    /// Returns all `Task`s for a given date that are done.
    pub fn done_tasks_for_date(&self, date: Date) -> (r: Vec<&Task>)
        requires
            self.wf(),
        ensures
            r@.len() == self.tasks.items@.filter(done_task_pred(date)).len(),
            forall|k: int|
                0 <= k < r@.len() ==> *(#[trigger] r@[k]) == self.tasks.items@.filter(
                    done_task_pred(date),
                )[k],
    {
        let ghost s = self.tasks.items@;
        let ghost pred = done_task_pred(date);
        let mut r: Vec<&Task> = Vec::new();
        let mut i: usize = 0;
        while i < self.tasks.items.len()
            invariant
                i <= s.len(),
                self.tasks.items@ == s,
                forall|k: int|
                    0 <= k < visible_seq(s).len() ==> (#[trigger] visible_seq(s)[k]).wf(),
                pred == done_task_pred(date),
                r@.len() == s.take(i as int).filter(pred).len(),
                forall|k: int|
                    0 <= k < r@.len() ==> *(#[trigger] r@[k]) == s.take(i as int).filter(pred)[k],
            decreases s.len() - i,
        {
            proof {
                assert(s.take(i + 1) =~= s.take(i as int).push(s[i as int]));
                s.take(i as int).lemma_filter_push(s[i as int], pred);
                if is_visible(s[i as int]) {
                    lemma_visible_entry(s, i as int);
                }
            }
            let t = &self.tasks.items[i];
            if t.state() != ItemState::Removed && t.for_date(date) && t.done(date) {
                r.push(t);
            }
            i = i + 1;
        }
        proof {
            assert(s.take(s.len() as int) =~= s);
        }
        r
    }

    /// Garbage-collects every `Todo` whose `can_remove` holds on `today`. On
    /// a server the entries are physically dropped at once; on a client they
    /// are only tagged removed and stay stored until the next
    /// synchronization. Either way the visible view afterwards holds exactly
    /// the surviving todos, renumbered densely.
    pub fn remove_old_todos(&mut self, today: Date)
        requires
            old(self).wf(),
        ensures
            final(self).wf(),
            final(self).server == old(self).server,
            final(self).tasks == old(self).tasks,
            visible_seq(final(self).todos.items@) == spec_self_synced_todos(
                old(self).todos.items@,
                today,
            ),
            old(self).server ==> final(self).todos.items@ == spec_self_synced_todos(
                old(self).todos.items@,
                today,
            ),
            !old(self).server ==> final(self).todos.items@.len() == old(
                self,
            ).todos.items@.len(),
    {
        let ghost orig = self.todos.items@;
        let mut i: usize = 0;
        while i < self.todos.items.len()
            invariant
                i <= orig.len(),
                self.todos.items@.len() == orig.len(),
                self.todos.server == old(self).todos.server,
                self.tasks == old(self).tasks,
                self.server == old(self).server,
                forall|j: int|
                    0 <= j < i ==> #[trigger] self.todos.items@[j] == (if is_visible(orig[j])
                        && orig[j].spec_can_remove(today) {
                        orig[j].with_state(ItemState::Removed)
                    } else {
                        orig[j]
                    }),
                forall|j: int| i <= j < orig.len() ==> #[trigger] self.todos.items@[j] == orig[j],
            decreases orig.len() - i,
        {
            let mark = self.todos.items[i].state() != ItemState::Removed && self.todos.items[
                i
            ].can_remove(today);
            if mark {
                let e = vec_elem_mut(&mut self.todos.items, i);
                e.set_state(ItemState::Removed);
            }
            i = i + 1;
        }
        proof {
            let mid = self.todos.items@;
            assert forall|j: int| 0 <= j < orig.len() implies ((visible_pred::<Todo>()(
                #[trigger] mid[j],
            ) <==> keeps_todo(today)(orig[j])) && (keeps_todo(today)(orig[j]) ==> mid[j]
                == orig[j])) by {
                orig[j].lemma_with(ItemState::Removed, orig[j].spec_id());
            };
            lemma_filter_pointwise(orig, mid, keeps_todo(today), visible_pred::<Todo>());
        }
        let ghost mid = self.todos.items@;
        self.todos.map_indices_to_ids();
        proof {
            let kept = orig.filter(keeps_todo(today));
            assert(visible_seq(mid) == kept);
            assert forall|k: int| 0 <= k < kept.len() implies #[trigger] visible_seq(
                self.todos.items@,
            )[k] == renumbered(kept)[k] by {
            };
            assert(visible_seq(self.todos.items@) =~= renumbered(kept));
        }
        if self.server {
            let ghost pre2 = self.todos.items@;
            self.todos.compact();
            proof {
                let fin = self.todos.items@;
                assert forall|j: int| 0 <= j < fin.len() implies is_visible(#[trigger] fin[j]) by {
                    pre2.lemma_filter_pred(visible_pred::<Todo>(), j);
                };
                lemma_visible_all(fin);
            }
        }
    }

    /// Synchronizes the list with itself, actually removing items: stale
    /// todos are garbage-collected, every tombstone of both collections is
    /// physically discarded, and identifiers are renumbered densely. This may
    /// change the ids of both `Todo`s and `Task`s.
    pub fn self_sync(&mut self, today: Date)
        requires
            old(self).wf(),
        ensures
            final(self).wf(),
            final(self).server == old(self).server,
            final(self).todos.items@ == spec_self_synced_todos(old(self).todos.items@, today),
            final(self).tasks.items@ == spec_self_synced_tasks(old(self).tasks.items@),
    {
        self.remove_old_todos(today);
        let ghost t1 = self.todos.items@;
        self.todos.compact();
        proof {
            assert(self.todos.items@ == spec_self_synced_todos(old(self).todos.items@, today));
        }
        let ghost k1 = self.tasks.items@;
        self.tasks.compact();
        proof {
            let fin = self.tasks.items@;
            assert forall|i: int| 0 <= i < fin.len() implies is_visible(#[trigger] fin[i]) by {
                k1.lemma_filter_pred(visible_pred::<Task>(), i);
            };
            lemma_visible_all(fin);
            assert forall|k: int|
                0 <= k < visible_seq(fin).len() implies (#[trigger] visible_seq(fin)[k]).wf() by {
                assert(visible_seq(fin)[k] == visible_seq(k1)[k]);
            };
        }
    }
}

/// Local synchronization is idempotent: running `self_sync` a second time
/// with the same "today" leaves both collections exactly as the first run
/// left them.
pub proof fn lemma_self_sync_idempotent(todos: Seq<Todo>, tasks: Seq<Task>, today: Date)
    ensures
        spec_self_synced_todos(spec_self_synced_todos(todos, today), today)
            == spec_self_synced_todos(todos, today),
        spec_self_synced_tasks(spec_self_synced_tasks(tasks)) == spec_self_synced_tasks(tasks),
{
    let kept = todos.filter(keeps_todo(today));
    let once = renumbered(kept);
    assert forall|i: int| 0 <= i < once.len() implies keeps_todo(today)(#[trigger] once[i]) by {
        todos.lemma_filter_pred(keeps_todo(today), i);
        kept[i].lemma_with(kept[i].spec_state(), i as u64);
    };
    lemma_filter_all_pass(once, keeps_todo(today));
    assert forall|k: int| 0 <= k < once.len() implies #[trigger] renumbered(once)[k]
        == once[k] by {
        kept[k].lemma_with(kept[k].spec_state(), k as u64);
        assert(once[k] == kept[k].with_id(k as u64));
        assert(kept[k].with_id(k as u64).with_id(k as u64) == kept[k].with_id(k as u64));
    };
    assert(renumbered(once) =~= once);
    let vt = visible_seq(tasks);
    assert forall|i: int| 0 <= i < vt.len() implies is_visible(#[trigger] vt[i]) by {
        tasks.lemma_filter_pred(visible_pred::<Task>(), i);
    };
    lemma_visible_all(vt);
}

} // verus!
