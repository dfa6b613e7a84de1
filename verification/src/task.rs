//! Recurring items: a `Task` is scheduled on a set of weekdays and records,
//! per weekday, the last date it was marked done.

use vstd::prelude::*;
use vstd::pervasive::VecAdditionalExecFns;

use crate::date::{Date, Weekday};
use crate::item::{ItemState, SyncItem};

verus! {

/// A reoccurring task for the given weekday(s). Duplicate weekdays are
/// permitted and semantically irrelevant.
///
/// The completion record is a mapping from weekday to the last date the task
/// was marked done for that weekday, stored as a vector of seven optional
/// dates indexed by weekday number.
///
/// The `id` and `state` fields are replication metadata owned by the
/// containing collection; equality of two `Task`s compares the content
/// (body, weekdays and completion record) only.
#[derive(Debug, Clone)]
pub struct Task {
    pub body: String,
    pub weekdays: Vec<Weekday>,
    pub done_map: Vec<Option<Date>>,
    pub id: u64,
    pub state: ItemState,
}

impl Task {
    /// Well-formedness: the completion record has one slot per weekday.
    pub open spec fn wf(self) -> bool {
        self.done_map@.len() == 7
    }

    /// Creates a new task for the given weekday(s). A task must be scheduled
    /// on at least one weekday; attempting to construct one with none is a
    /// programmer error, so the empty list is excluded here.
    pub fn new(body: String, weekdays: Vec<Weekday>) -> (t: Task)
        requires
            weekdays@.len() >= 1,
        ensures
            t.wf(),
            t.body == body,
            t.weekdays == weekdays,
            t.id == 0,
            t.state == ItemState::Unchanged,
            forall|w: int| 0 <= w < 7 ==> t.done_map@[w] is None,
    {
        let done_map: Vec<Option<Date>> = vec![None, None, None, None, None, None, None];
        Task { body, weekdays, done_map, id: 0, state: ItemState::Unchanged }
    }

    /// Gets the `body` of the `Task`.
    pub fn body(&self) -> (r: &str)
        ensures
            r@ == self.body@,
    {
        self.body.as_str()
    }

    /// Gets the `weekdays` of the `Task`. Note that duplicate weekdays are
    /// allowed.
    pub fn weekdays(&self) -> (r: &Vec<Weekday>)
        ensures
            r == &self.weekdays,
    {
        &self.weekdays
    }

    /// Gets the `id` of the `Task`.
    pub fn id(&self) -> (i: u64)
        ensures
            i == self.id,
    {
        self.id
    }

    /// Sets the `body` of the `Task`.
    pub fn set_body(&mut self, body: String)
        ensures
            *final(self) == (Task { body, ..*old(self) }),
    {
        self.body = body;
    }

    /// Sets the `weekdays` of the `Task`.
    pub fn set_weekdays(&mut self, weekdays: Vec<Weekday>)
        ensures
            *final(self) == (Task { weekdays, ..*old(self) }),
    {
        self.weekdays = weekdays;
    }

    /// Adds a weekday to the weekdays list. Duplicate weekdays are allowed.
    pub fn add_weekday(&mut self, weekday: Weekday)
        ensures
            final(self).weekdays@ == old(self).weekdays@.push(weekday),
            final(self).body == old(self).body,
            final(self).done_map == old(self).done_map,
            final(self).id == old(self).id,
            final(self).state == old(self).state,
    {
        self.weekdays.push(weekday);
    }

    /// The predicate selecting the weekdays that survive removing
    /// `removed_wd` from a weekday list.
    pub open spec fn keeps_weekday(removed_wd: Weekday) -> spec_fn(Weekday) -> bool {
        |wd: Weekday| wd != removed_wd
    }

    /// Removes a weekday from the weekdays list, all duplicates included.
    /// Removing a weekday that is not listed does nothing.
    pub fn remove_weekday(&mut self, removed_wd: Weekday)
        ensures
            final(self).weekdays@ == old(self).weekdays@.filter(Task::keeps_weekday(removed_wd)),
            final(self).body == old(self).body,
            final(self).done_map == old(self).done_map,
            final(self).id == old(self).id,
            final(self).state == old(self).state,
    {
        let ghost all = self.weekdays@;
        let ghost pred = Task::keeps_weekday(removed_wd);
        let mut new_weekdays: Vec<Weekday> = Vec::new();
        let mut i: usize = 0;
        while i < self.weekdays.len()
            invariant
                i <= all.len(),
                self.weekdays@ == all,
                pred == Task::keeps_weekday(removed_wd),
                new_weekdays@ == all.take(i as int).filter(pred),
            decreases all.len() - i,
        {
            let ghost prefix = all.take(i as int);
            let ghost single = seq![all[i as int]];
            let wd = self.weekdays[i];
            if wd != removed_wd {
                new_weekdays.push(wd);
            }
            proof {
                reveal_with_fuel(Seq::<_>::filter, 3);
                assert(all.take(i + 1) =~= prefix + single);
                Seq::<Weekday>::filter_distributes_over_add(prefix, single, pred);
                if pred(all[i as int]) {
                    assert(single.filter(pred) =~= seq![all[i as int]]);
                    assert(prefix.filter(pred).push(all[i as int]) =~= prefix.filter(pred)
                        + single.filter(pred));
                } else {
                    assert(single.filter(pred) =~= Seq::<Weekday>::empty());
                    assert(prefix.filter(pred) =~= prefix.filter(pred) + single.filter(pred));
                }
            }
            i = i + 1;
        }
        proof {
            assert(all.take(all.len() as int) =~= all);
        }
        self.weekdays = new_weekdays;
    }

    /// Whether the `Task` is for the given date, that is, whether the date's
    /// weekday is among the task's weekdays.
    pub open spec fn spec_for_date(self, date: Date) -> bool {
        self.weekdays@.contains(date.spec_weekday())
    }

    /// Returns `true` if the `Task` is for the given date.
    pub fn for_date(&self, date: Date) -> (r: bool)
        ensures
            r == self.spec_for_date(date),
    {
        let wd = date.weekday();
        let mut i: usize = 0;
        while i < self.weekdays.len()
            invariant
                i <= self.weekdays@.len(),
                wd == date.spec_weekday(),
                forall|j: int| 0 <= j < i ==> self.weekdays@[j] != wd,
            decreases self.weekdays@.len() - i,
        {
            if self.weekdays[i] == wd {
                proof {
                    assert(self.weekdays@.contains(date.spec_weekday()));
                }
                return true;
            }
            i = i + 1;
        }
        false
    }

    /// The completion record of the task for the weekday of `date`.
    pub open spec fn spec_done_on(self, date: Date) -> Option<Date> {
        self.done_map@[date.spec_weekday().spec_number()]
    }

    /// Whether the `Task` is done for the given date: vacuously so when the
    /// task is not for the date at all, and otherwise when the last recorded
    /// completion for the date's weekday is on or after the date.
    pub open spec fn spec_done(self, date: Date) -> bool {
        if self.spec_for_date(date) {
            match self.spec_done_on(date) {
                Some(d) => d.days >= date.days,
                None => false,
            }
        } else {
            true
        }
    }

    /// Returns `true` if the `Task` is done for the given date. Always
    /// returns `true` if the task is not for the given date.
    pub fn done(&self, date: Date) -> (r: bool)
        requires
            self.wf(),
        ensures
            r == self.spec_done(date),
    {
        if self.for_date(date) {
            let n = date.weekday().number();
            match self.done_map[n as usize] {
                Some(d) => d.days >= date.days,
                None => false,
            }
        } else {
            true
        }
    }

    /// Sets the done state of the `Task` for the given date: marking it done
    /// records the date as the last completion of the date's weekday, and
    /// marking it undone clears that weekday's record.
    pub fn set_done(&mut self, done: bool, date: Date)
        requires
            old(self).wf(),
        ensures
            final(self).wf(),
            final(self).done_map@ == old(self).done_map@.update(
                date.spec_weekday().spec_number(),
                if done {
                    Some(date)
                } else {
                    None::<Date>
                },
            ),
            final(self).body == old(self).body,
            final(self).weekdays == old(self).weekdays,
            final(self).id == old(self).id,
            final(self).state == old(self).state,
    {
        let n = date.weekday().number();
        if done {
            self.done_map.set(n as usize, Some(date));
        } else {
            self.done_map.set(n as usize, None);
        }
    }
}

impl SyncItem for Task {
    open spec fn spec_state(&self) -> ItemState {
        self.state
    }

    open spec fn spec_id(&self) -> u64 {
        self.id
    }

    open spec fn with_state(&self, state: ItemState) -> Task {
        Task { state, ..*self }
    }

    open spec fn with_id(&self, id: u64) -> Task {
        Task { id, ..*self }
    }

    proof fn lemma_with(&self, state: ItemState, id: u64) {
    }

    fn state(&self) -> (s: ItemState) {
        self.state
    }

    fn set_state(&mut self, state: ItemState) {
        self.state = state;
    }

    fn id(&self) -> (i: u64) {
        self.id
    }

    fn set_id(&mut self, id: u64) {
        self.id = id;
    }
}

impl PartialEq for Task {
    /// Compares the content of two `Task`s: body, weekdays and completion
    /// record. Identifier and lifecycle state are replication metadata and
    /// take no part.
    fn eq(&self, other: &Task) -> (r: bool) {
        if self.weekdays.len() != other.weekdays.len() || self.done_map.len()
            != other.done_map.len() {
            return false;
        }
        let mut i: usize = 0;
        while i < self.weekdays.len()
            invariant
                i <= self.weekdays@.len(),
                self.weekdays@.len() == other.weekdays@.len(),
                forall|j: int| 0 <= j < i ==> self.weekdays@[j] == other.weekdays@[j],
            decreases self.weekdays@.len() - i,
        {
            if self.weekdays[i] != other.weekdays[i] {
                return false;
            }
            i = i + 1;
        }
        let mut j: usize = 0;
        while j < self.done_map.len()
            invariant
                j <= self.done_map@.len(),
                self.done_map@.len() == other.done_map@.len(),
                forall|k: int| 0 <= k < j ==> self.done_map@[k] == other.done_map@[k],
            decreases self.done_map@.len() - j,
        {
            let slot_eq: bool = match (self.done_map[j], other.done_map[j]) {
                (Some(a), Some(b)) => a == b,
                (None, None) => true,
                _ => false,
            };
            if !slot_eq {
                return false;
            }
            j = j + 1;
        }
        proof {
            if self.body@ == other.body@ {
                assert(self.weekdays@ =~= other.weekdays@);
                assert(self.done_map@ =~= other.done_map@);
            }
        }
        self.body == other.body
    }
}

impl vstd::std_specs::cmp::PartialEqSpecImpl for Task {
    open spec fn obeys_eq_spec() -> bool {
        true
    }

    open spec fn eq_spec(&self, other: &Task) -> bool {
        self.body@ == other.body@ && self.weekdays@ == other.weekdays@ && self.done_map@
            == other.done_map@
    }
}

/// The completion cycle law of a recurring item. For a task whose completion
/// record for some weekday holds the date `d0`, a query date `d` falling on
/// that same weekday counts as done exactly up to and including `d0`: it is
/// done for any such date on or before `d0` and flips back to undone on the
/// weekday's next occurrence after `d0`. Dates whose weekday the task is not
/// scheduled on are vacuously done.
pub proof fn lemma_task_done_cycle(task: Task, d0: Date, d: Date)
    requires
        task.wf(),
        task.spec_done_on(d0) == Some(d0),
        d.spec_weekday() == d0.spec_weekday(),
    ensures
        task.spec_for_date(d) ==> (task.spec_done(d) <==> d.days <= d0.days),
        !task.spec_for_date(d) ==> task.spec_done(d),
{
}

} // verus!
