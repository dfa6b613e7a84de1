//! The command layer: the decisions behind the user-facing commands (add,
//! remove, mark done or undone, edit), as pure operations on a list store
//! with an explicit "today". Argument parsing and presentation live outside
//! this crate and call in here with plain values.

use vstd::prelude::*;

use crate::date::{spec_weekday_to_date, Date, Weekday};
use crate::error::MtdError;
use crate::item::{ItemState, SyncItem};
use crate::synclist::{is_visible, lemma_visible_update, raw_index_of, visible_pred, visible_seq};
use crate::task::Task;
use crate::tdlist::TdList;
use crate::todo::Todo;

verus! {

/// The two item kinds a command can act on.
#[derive(Clone, Copy, Debug, PartialEq, Eq, Structural)]
pub enum ItemKind {
    Todo,
    Task,
}

/// The weekdays a new item is created for: those given, or today's weekday
/// when none are.
pub open spec fn spec_effective_weekdays(weekdays: Seq<Weekday>, today: Date) -> Seq<Weekday> {
    if weekdays.len() == 0 {
        seq![today.spec_weekday()]
    } else {
        weekdays
    }
}

/// Whether a task is scheduled on the date with day number `e`.
pub open spec fn task_scheduled_on_day(task: Task, e: int) -> bool {
    task.spec_for_date(Date { days: e as u64 })
}

/// The first date on or after `today` that the task is scheduled for.
pub fn next_scheduled_date(task: &Task, today: Date) -> (d: Date)
    requires
        task.weekdays@.len() >= 1,
        today.days + 6 <= u64::MAX,
    ensures
        today.days <= d.days <= today.days + 6,
        task.spec_for_date(d),
        forall|e: int| today.days <= e < d.days ==> !(#[trigger] task_scheduled_on_day(*task, e)),
{
    let mut k: u64 = 0;
    while k < 7
        invariant
            0 <= k <= 7,
            today.days + 6 <= u64::MAX,
            forall|e: int|
                today.days <= e < today.days + k ==> !(#[trigger] task_scheduled_on_day(
                    *task,
                    e,
                )),
        decreases 7 - k,
    {
        let d = Date { days: today.days + k };
        if task.for_date(d) {
            return d;
        }
        proof {
            assert(!task_scheduled_on_day(*task, today.days + k));
        }
        k = k + 1;
    }
    proof {
        let w0 = task.weekdays@[0];
        crate::date::lemma_weekday_to_date(w0, today);
        let d0 = spec_weekday_to_date(w0, today);
        assert(task.weekdays@[0] == d0.spec_weekday());
        assert(task.weekdays@.contains(d0.spec_weekday()));
        assert(task_scheduled_on_day(*task, d0.days as int)) by {
            assert((Date { days: d0.days }) == d0);
        };
        assert(!task_scheduled_on_day(*task, d0.days as int));
        assert(false);
    }
    vstd::pervasive::unreached()
}

/// How marking a task done or undone changes the visible task at identifier
/// `id`: its completion record for the weekday of `d` — the first date on or
/// after `today` the task is scheduled for — is set or cleared, and all else
/// is kept.
pub open spec fn task_marked_on_next_scheduled(
    pre_items: Seq<Task>,
    post_items: Seq<Task>,
    id: u64,
    to_done: bool,
    today: Date,
    d: Date,
) -> bool {
    let pre = visible_seq(pre_items)[id as int];
    let post = visible_seq(post_items)[id as int];
    &&& today.days <= d.days <= today.days + 6
    &&& pre.spec_for_date(d)
    &&& (forall|e: int|
        today.days <= e < d.days ==> !(#[trigger] task_scheduled_on_day(pre, e)))
    &&& post.done_map@ == pre.done_map@.update(
        d.spec_weekday().spec_number(),
        if to_done {
            Some(d)
        } else {
            None::<Date>
        },
    )
    &&& post.body == pre.body
    &&& post.weekdays == pre.weekdays
    &&& post.id == pre.id
    &&& post.state == pre.state
}

/// Adds a new item to the store: one `Todo` per effective weekday, each
/// targeting that weekday's next occurrence, or one `Task` scheduled on all
/// the effective weekdays. When no weekday is given, today's weekday is used.
pub fn add(list: &mut TdList, item_kind: ItemKind, weekdays: Vec<Weekday>, body: String, today: Date)
    requires
        old(list).wf(),
        today.days + 6 <= u64::MAX,
    ensures
        final(list).wf(),
        final(list).server == old(list).server,
        item_kind == ItemKind::Task ==> {
            let wds = spec_effective_weekdays(weekdays@, today);
            &&& final(list).todos == old(list).todos
            &&& final(list).tasks.items@.len() == old(list).tasks.items@.len() + 1
            &&& final(list).tasks.items@.take(old(list).tasks.items@.len() as int) == old(
                list,
            ).tasks.items@
            &&& {
                let added = final(list).tasks.items@.last();
                &&& added.body == body
                &&& added.weekdays@ == wds
                &&& forall|w: int| 0 <= w < 7 ==> added.done_map@[w] is None
                &&& added.id == visible_seq(old(list).tasks.items@).len()
                &&& added.state == (if old(list).server {
                    ItemState::Unchanged
                } else {
                    ItemState::New
                })
            }
        },
        item_kind == ItemKind::Todo ==> {
            let wds = spec_effective_weekdays(weekdays@, today);
            let n = old(list).todos.items@.len() as int;
            let v = visible_seq(old(list).todos.items@).len() as int;
            &&& final(list).tasks == old(list).tasks
            &&& final(list).todos.items@.len() == n + wds.len()
            &&& final(list).todos.items@.take(n) == old(list).todos.items@
            &&& forall|m: int|
                0 <= m < wds.len() ==> final(list).todos.items@[n + m] == (Todo {
                    body,
                    date: spec_weekday_to_date(wds[m], today),
                    id: (v + m) as u64,
                    done: None::<Date>,
                    state: (if old(list).server {
                        ItemState::Unchanged
                    } else {
                        ItemState::New
                    }),
                })
        },
{
    let mut wds = weekdays;
    if wds.len() == 0 {
        wds.push(today.weekday());
    }
    proof {
        assert(wds@ =~= spec_effective_weekdays(weekdays@, today));
    }
    match item_kind {
        ItemKind::Todo => {
            let ghost base = list.todos.items@;
            let ghost n = base.len() as int;
            let ghost v = visible_seq(base).len() as int;
            let ghost st = if old(list).server {
                ItemState::Unchanged
            } else {
                ItemState::New
            };
            let mut m: usize = 0;
            while m < wds.len()
                invariant
                    m <= wds@.len(),
                    list.wf(),
                    list.server == old(list).server,
                    list.tasks == old(list).tasks,
                    today.days + 6 <= u64::MAX,
                    st == (if old(list).server {
                        ItemState::Unchanged
                    } else {
                        ItemState::New
                    }),
                    base == old(list).todos.items@,
                    n == base.len() as int,
                    v == visible_seq(base).len() as int,
                    list.todos.items@.len() == n + m,
                    visible_seq(list.todos.items@).len() == v + m,
                    list.todos.items@.take(n) == base,
                    forall|j: int|
                        0 <= j < m ==> list.todos.items@[n + j] == (Todo {
                            body,
                            date: spec_weekday_to_date(wds@[j], today),
                            id: (v + j) as u64,
                            done: None::<Date>,
                            state: st,
                        }),
                decreases wds@.len() - m,
            {
                let ghost pre = list.todos.items@;
                let t = Todo::new_dated(body.clone(), wds[m], today);
                list.add_todo(t);
                proof {
                    let added = t.with_state(st).with_id((v + m) as u64);
                    assert(added == (Todo {
                        body,
                        date: spec_weekday_to_date(wds@[m as int], today),
                        id: (v + m) as u64,
                        done: None::<Date>,
                        state: st,
                    }));
                    assert(list.todos.items@.take(n) =~= pre.take(n));
                }
                m = m + 1;
            }
        },
        ItemKind::Task => {
            let t = Task::new(body, wds);
            let ghost pre = list.tasks.items@;
            proof {
                pre.lemma_filter_len(visible_pred::<Task>());
                vstd::std_specs::vec::axiom_spec_len(&list.tasks.items);
            }
            list.add_task(t);
            proof {
                let added = t.with_state(
                    if old(list).server {
                        ItemState::Unchanged
                    } else {
                        ItemState::New
                    },
                ).with_id(visible_seq(pre).len() as u64);
                assert(list.tasks.items@.last() == added);
                assert(list.tasks.items@.take(pre.len() as int) =~= pre);
            }
        },
    }
}

/// Removes the item of the given kind with the given id. On a client the
/// item is only tagged removed until the next synchronization.
pub fn remove(list: &mut TdList, item_kind: ItemKind, id: u64) -> (r: Result<(), MtdError>)
    requires
        old(list).wf(),
    ensures
        final(list).server == old(list).server,
        match r {
            Ok(_) => final(list).wf(),
            Err(_) => *final(list) == *old(list),
        },
        item_kind == ItemKind::Todo ==> final(list).tasks == old(list).tasks && (match r {
            Ok(_) => crate::synclist::removed_at(
                old(list).todos.items@,
                final(list).todos.items@,
                id,
            ),
            Err(e) => e == MtdError::NoTodoWithGivenId(id) && id >= visible_seq(
                old(list).todos.items@,
            ).len(),
        }),
        item_kind == ItemKind::Task ==> final(list).todos == old(list).todos && (match r {
            Ok(_) => crate::synclist::removed_at(
                old(list).tasks.items@,
                final(list).tasks.items@,
                id,
            ),
            Err(e) => e == MtdError::NoTaskWithGivenId(id) && id >= visible_seq(
                old(list).tasks.items@,
            ).len(),
        }),
{
    match item_kind {
        ItemKind::Todo => list.remove_todo(id),
        ItemKind::Task => list.remove_task(id),
    }
}

/// Marks the item of the given kind with the given id as done or undone. A
/// `Todo` records today as its completion date; a `Task` records the first
/// date on or after today that it is scheduled for.
pub fn modify_done_state(
    list: &mut TdList,
    item_kind: ItemKind,
    id: u64,
    to_done: bool,
    today: Date,
) -> (r: Result<(), MtdError>)
    requires
        old(list).wf(),
        today.days + 6 <= u64::MAX,
        item_kind == ItemKind::Task && id < visible_seq(old(list).tasks.items@).len()
            ==> visible_seq(old(list).tasks.items@)[id as int].weekdays@.len() >= 1,
    ensures
        final(list).server == old(list).server,
        match r {
            Ok(_) => final(list).wf(),
            Err(_) => *final(list) == *old(list),
        },
        item_kind == ItemKind::Todo ==> final(list).tasks == old(list).tasks && (match r {
            Ok(_) => {
                &&& id < visible_seq(old(list).todos.items@).len()
                &&& final(list).todos.items@.len() == old(list).todos.items@.len()
                &&& visible_seq(final(list).todos.items@) == visible_seq(
                    old(list).todos.items@,
                ).update(
                    id as int,
                    (Todo {
                        done: if to_done {
                            Some(today)
                        } else {
                            None::<Date>
                        },
                        ..visible_seq(old(list).todos.items@)[id as int]
                    }),
                )
            },
            Err(e) => e == MtdError::NoTodoWithGivenId(id) && id >= visible_seq(
                old(list).todos.items@,
            ).len(),
        }),
        item_kind == ItemKind::Task ==> final(list).todos == old(list).todos && (match r {
            Ok(_) => {
                &&& id < visible_seq(old(list).tasks.items@).len()
                &&& final(list).tasks.items@.len() == old(list).tasks.items@.len()
                &&& exists|d: Date|
                    task_marked_on_next_scheduled(
                        old(list).tasks.items@,
                        final(list).tasks.items@,
                        id,
                        to_done,
                        today,
                        d,
                    )
                &&& forall|j: int|
                    0 <= j < visible_seq(old(list).tasks.items@).len() && j != id
                        ==> #[trigger] visible_seq(final(list).tasks.items@)[j] == visible_seq(
                        old(list).tasks.items@,
                    )[j]
            },
            Err(e) => e == MtdError::NoTaskWithGivenId(id) && id >= visible_seq(
                old(list).tasks.items@,
            ).len(),
        }),
{
    match item_kind {
        ItemKind::Todo => {
            let len = list.todos.visible_len();
            if id >= len {
                return Err(MtdError::NoTodoWithGivenId(id));
            }
            let ghost pre_items = list.todos.items@;
            let t = list.get_todo_mut(id);
            t.set_done(to_done, today);
            proof {
                let pre = visible_seq(pre_items)[id as int];
                let raw = raw_index_of(pre_items, id);
                let x = list.todos.items@[raw];
                assert(list.todos.items@ == pre_items.update(raw, x));
                assert(x == (Todo {
                    done: if to_done {
                        Some(today)
                    } else {
                        None::<Date>
                    },
                    ..pre
                }));
                lemma_visible_update(pre_items, raw, x);
                assert(list.todos.ids_dense()) by {
                    assert forall|k: int|
                        0 <= k < visible_seq(list.todos.items@).len() implies #[trigger] visible_seq(
                        list.todos.items@,
                    )[k].spec_id() == k by {
                        if k == id {
                            assert(visible_seq(pre_items)[id as int].spec_id() == id);
                            assert(visible_seq(list.todos.items@)[k] == x);
                        } else {
                            assert(visible_seq(pre_items)[k].spec_id() == k);
                            assert(visible_seq(list.todos.items@)[k] == visible_seq(pre_items)[k]);
                        }
                    };
                };
                assert(list.todos.server_clean()) by {
                    if list.todos.server {
                        assert forall|j: int|
                            0 <= j < list.todos.items@.len() implies is_visible(
                            #[trigger] list.todos.items@[j],
                        ) by {
                            if j != raw {
                                assert(list.todos.items@[j] == pre_items[j]);
                            }
                        };
                    }
                };
            }
            Ok(())
        },
        ItemKind::Task => {
            let len = list.tasks.visible_len();
            if id >= len {
                return Err(MtdError::NoTaskWithGivenId(id));
            }
            proof {
                list.tasks.items@.lemma_filter_len(visible_pred::<Task>());
                vstd::std_specs::vec::axiom_spec_len(&list.tasks.items);
            }
            let d = {
                let ts = list.tasks();
                let t: &Task = ts[id as usize];
                next_scheduled_date(t, today)
            };
            let ghost pre_items = list.tasks.items@;
            let t = list.get_task_mut(id);
            t.set_done(to_done, d);
            proof {
                let pre = visible_seq(pre_items)[id as int];
                let raw = raw_index_of(pre_items, id);
                let x = list.tasks.items@[raw];
                assert(list.tasks.items@ == pre_items.update(raw, x));
                assert(x.done_map@ == pre.done_map@.update(
                    d.spec_weekday().spec_number(),
                    if to_done {
                        Some(d)
                    } else {
                        None::<Date>
                    },
                ));
                lemma_visible_update(pre_items, raw, x);
                assert(visible_seq(list.tasks.items@)[id as int] == x);
                assert(list.tasks.ids_dense()) by {
                    assert forall|k: int|
                        0 <= k < visible_seq(list.tasks.items@).len() implies #[trigger] visible_seq(
                        list.tasks.items@,
                    )[k].spec_id() == k by {
                        if k == id {
                            assert(visible_seq(pre_items)[id as int].spec_id() == id);
                            assert(visible_seq(list.tasks.items@)[k] == x);
                        } else {
                            assert(visible_seq(pre_items)[k].spec_id() == k);
                            assert(visible_seq(list.tasks.items@)[k] == visible_seq(pre_items)[k]);
                        }
                    };
                };
                assert(list.tasks.server_clean()) by {
                    if list.tasks.server {
                        assert forall|j: int|
                            0 <= j < list.tasks.items@.len() implies is_visible(
                            #[trigger] list.tasks.items@[j],
                        ) by {
                            if j != raw {
                                assert(list.tasks.items@[j] == pre_items[j]);
                            }
                        };
                    }
                };
                assert forall|k: int|
                    0 <= k < visible_seq(list.tasks.items@).len() implies (#[trigger] visible_seq(
                    list.tasks.items@,
                )[k]).wf() by {
                    if k == id {
                        assert(visible_seq(list.tasks.items@)[k] == x);
                    } else {
                        assert(visible_seq(list.tasks.items@)[k] == visible_seq(pre_items)[k]);
                    }
                };
                assert(task_marked_on_next_scheduled(
                    pre_items,
                    list.tasks.items@,
                    id,
                    to_done,
                    today,
                    d,
                ));
            }
            Ok(())
        },
    }
}

/// Edits the item of the given kind with the given id: replaces its body if
/// one is given, and its weekday(s) if any are given. A `Todo` takes only the
/// first given weekday, recomputing its target date relative to `today`; a
/// `Task` takes the whole list. What is not given explicitly stays unchanged.
pub fn set(
    list: &mut TdList,
    item_kind: ItemKind,
    id: u64,
    body: Option<String>,
    weekdays: Vec<Weekday>,
    today: Date,
) -> (r: Result<(), MtdError>)
    requires
        old(list).wf(),
        today.days + 6 <= u64::MAX,
    ensures
        final(list).server == old(list).server,
        match r {
            Ok(_) => final(list).wf(),
            Err(_) => *final(list) == *old(list),
        },
        item_kind == ItemKind::Todo ==> final(list).tasks == old(list).tasks && (match r {
            Ok(_) => {
                let pre = visible_seq(old(list).todos.items@)[id as int];
                &&& id < visible_seq(old(list).todos.items@).len()
                &&& final(list).todos.items@.len() == old(list).todos.items@.len()
                &&& visible_seq(final(list).todos.items@) == visible_seq(
                    old(list).todos.items@,
                ).update(
                    id as int,
                    (Todo {
                        body: match body {
                            Some(b) => b,
                            None => pre.body,
                        },
                        date: if weekdays@.len() >= 1 {
                            spec_weekday_to_date(weekdays@[0], today)
                        } else {
                            pre.date
                        },
                        ..pre
                    }),
                )
            },
            Err(e) => e == MtdError::NoTodoWithGivenId(id) && id >= visible_seq(
                old(list).todos.items@,
            ).len(),
        }),
        item_kind == ItemKind::Task ==> final(list).todos == old(list).todos && (match r {
            Ok(_) => {
                let pre = visible_seq(old(list).tasks.items@)[id as int];
                let post = visible_seq(final(list).tasks.items@)[id as int];
                &&& id < visible_seq(old(list).tasks.items@).len()
                &&& final(list).tasks.items@.len() == old(list).tasks.items@.len()
                &&& visible_seq(final(list).tasks.items@).len() == visible_seq(
                    old(list).tasks.items@,
                ).len()
                &&& post.body == (match body {
                    Some(b) => b,
                    None => pre.body,
                })
                &&& post.weekdays@ == (if weekdays@.len() >= 1 {
                    weekdays@
                } else {
                    pre.weekdays@
                })
                &&& post.done_map == pre.done_map
                &&& post.id == pre.id
                &&& post.state == pre.state
                &&& forall|j: int|
                    0 <= j < visible_seq(old(list).tasks.items@).len() && j != id
                        ==> #[trigger] visible_seq(final(list).tasks.items@)[j] == visible_seq(
                        old(list).tasks.items@,
                    )[j]
            },
            Err(e) => e == MtdError::NoTaskWithGivenId(id) && id >= visible_seq(
                old(list).tasks.items@,
            ).len(),
        }),
{
    match item_kind {
        ItemKind::Todo => {
            let len = list.todos.visible_len();
            if id >= len {
                return Err(MtdError::NoTodoWithGivenId(id));
            }
            let ghost pre_items = list.todos.items@;
            let t = list.get_todo_mut(id);
            match body {
                Some(b) => t.set_body(b),
                None => (),
            }
            if weekdays.len() >= 1 {
                t.set_weekday(weekdays[0], today);
            }
            proof {
                let pre = visible_seq(pre_items)[id as int];
                let raw = raw_index_of(pre_items, id);
                let x = list.todos.items@[raw];
                assert(list.todos.items@ == pre_items.update(raw, x));
                assert(x == (Todo {
                    body: match body {
                        Some(b) => b,
                        None => pre.body,
                    },
                    date: if weekdays@.len() >= 1 {
                        spec_weekday_to_date(weekdays@[0], today)
                    } else {
                        pre.date
                    },
                    ..pre
                }));
                lemma_visible_update(pre_items, raw, x);
                assert(list.todos.ids_dense()) by {
                    assert forall|k: int|
                        0 <= k < visible_seq(list.todos.items@).len() implies #[trigger] visible_seq(
                        list.todos.items@,
                    )[k].spec_id() == k by {
                        if k == id {
                            assert(visible_seq(pre_items)[id as int].spec_id() == id);
                            assert(visible_seq(list.todos.items@)[k] == x);
                        } else {
                            assert(visible_seq(pre_items)[k].spec_id() == k);
                            assert(visible_seq(list.todos.items@)[k] == visible_seq(pre_items)[k]);
                        }
                    };
                };
                assert(list.todos.server_clean()) by {
                    if list.todos.server {
                        assert forall|j: int|
                            0 <= j < list.todos.items@.len() implies is_visible(
                            #[trigger] list.todos.items@[j],
                        ) by {
                            if j != raw {
                                assert(list.todos.items@[j] == pre_items[j]);
                            }
                        };
                    }
                };
            }
            Ok(())
        },
        ItemKind::Task => {
            let len = list.tasks.visible_len();
            if id >= len {
                return Err(MtdError::NoTaskWithGivenId(id));
            }
            let ghost pre_items = list.tasks.items@;
            let t = list.get_task_mut(id);
            match body {
                Some(b) => t.set_body(b),
                None => (),
            }
            if weekdays.len() >= 1 {
                t.set_weekdays(weekdays);
            }
            proof {
                let pre = visible_seq(pre_items)[id as int];
                let raw = raw_index_of(pre_items, id);
                let x = list.tasks.items@[raw];
                assert(list.tasks.items@ == pre_items.update(raw, x));
                assert(x.body == (match body {
                    Some(b) => b,
                    None => pre.body,
                }));
                assert(x.weekdays@ == (if weekdays@.len() >= 1 {
                    weekdays@
                } else {
                    pre.weekdays@
                }));
                assert(x.done_map == pre.done_map && x.id == pre.id && x.state == pre.state);
                lemma_visible_update(pre_items, raw, x);
                assert(visible_seq(list.tasks.items@)[id as int] == x);
                assert(list.tasks.ids_dense()) by {
                    assert forall|k: int|
                        0 <= k < visible_seq(list.tasks.items@).len() implies #[trigger] visible_seq(
                        list.tasks.items@,
                    )[k].spec_id() == k by {
                        if k == id {
                            assert(visible_seq(pre_items)[id as int].spec_id() == id);
                            assert(visible_seq(list.tasks.items@)[k] == x);
                        } else {
                            assert(visible_seq(pre_items)[k].spec_id() == k);
                            assert(visible_seq(list.tasks.items@)[k] == visible_seq(pre_items)[k]);
                        }
                    };
                };
                assert(list.tasks.server_clean()) by {
                    if list.tasks.server {
                        assert forall|j: int|
                            0 <= j < list.tasks.items@.len() implies is_visible(
                            #[trigger] list.tasks.items@[j],
                        ) by {
                            if j != raw {
                                assert(list.tasks.items@[j] == pre_items[j]);
                            }
                        };
                    }
                };
                assert forall|k: int|
                    0 <= k < visible_seq(list.tasks.items@).len() implies (#[trigger] visible_seq(
                    list.tasks.items@,
                )[k]).wf() by {
                    if k == id {
                        assert(visible_seq(list.tasks.items@)[k] == x);
                    } else {
                        assert(visible_seq(list.tasks.items@)[k] == visible_seq(pre_items)[k]);
                    }
                };
            }
            Ok(())
        },
    }
}

} // verus!
