//! One-time items: a `Todo` targets a fixed date and keeps showing up every
//! day after it until it is marked done.

use vstd::prelude::*;

use crate::date::{spec_weekday_to_date, weekday_to_date, Date, Weekday};
use crate::item::{ItemState, SyncItem};

verus! {

/// A one-time task to be done at a specific date. The date is specified as a
/// weekday from now. If no weekday is given, the current weekday is used.
/// After the given date has passed, the `Todo` keeps showing up for the
/// current day until it is done.
///
/// The `id` and `state` fields are replication metadata owned by the
/// containing collection; equality of two `Todo`s compares the content
/// (body, date and completion) only.
#[derive(Debug, Clone)]
pub struct Todo {
    pub body: String,
    pub date: Date,
    pub id: u64,
    pub done: Option<Date>,
    pub state: ItemState,
}

impl Todo {
    /// Creates a new `Todo` that shows up to be done on `today`.
    pub fn new_undated(body: String, today: Date) -> (t: Todo)
        ensures
            t == (Todo { body, date: today, id: 0, done: None::<Date>, state: ItemState::Unchanged }),
    {
        Todo { body, date: today, id: 0, done: None, state: ItemState::Unchanged }
    }

    /// Creates a new `Todo` that shows up to be done at the first date on or
    /// after `today` falling on `weekday`, after which it shows for the
    /// current day.
    pub fn new_dated(body: String, weekday: Weekday, today: Date) -> (t: Todo)
        requires
            today.days + 6 <= u64::MAX,
        ensures
            t == (Todo {
                body,
                date: spec_weekday_to_date(weekday, today),
                id: 0,
                done: None::<Date>,
                state: ItemState::Unchanged,
            }),
    {
        let date = weekday_to_date(weekday, today);
        Todo { body, date, id: 0, done: None, state: ItemState::Unchanged }
    }

    /// Creates a new `Todo` for an explicitly given target date.
    pub fn new_specific_date(body: String, date: Date) -> (t: Todo)
        ensures
            t == (Todo { body, date, id: 0, done: None::<Date>, state: ItemState::Unchanged }),
    {
        Todo { body, date, id: 0, done: None, state: ItemState::Unchanged }
    }

    /// Whether the `Todo` is for the given query date, as seen from `today`:
    /// the query date is on or after the target date, and either the query is
    /// about today itself or the target date still lies in the future. An
    /// overdue `Todo` thus keeps showing on every subsequent day.
    pub open spec fn spec_for_date(self, date: Date, today: Date) -> bool {
        date.days >= self.date.days && (date.days == today.days || self.date.days > today.days)
    }

    /// Returns `true` if the `Todo` is for the given date, as seen from
    /// `today`.
    pub fn for_date(&self, date: Date, today: Date) -> (r: bool)
        ensures
            r == self.spec_for_date(date, today),
    {
        date.days >= self.date.days && (date.days == today.days || self.date.days > today.days)
    }

    /// Gets the `body` of the `Todo`.
    pub fn body(&self) -> (r: &str)
        ensures
            r@ == self.body@,
    {
        self.body.as_str()
    }

    /// Gets the weekday of the `Todo`.
    pub fn weekday(&self) -> (w: Weekday)
        ensures
            w == self.date.spec_weekday(),
    {
        self.date.weekday()
    }

    /// Gets the `id` of the `Todo`.
    pub fn id(&self) -> (i: u64)
        ensures
            i == self.id,
    {
        self.id
    }

    /// Sets the `body` of the `Todo`.
    pub fn set_body(&mut self, body: String)
        ensures
            *final(self) == (Todo { body, ..*old(self) }),
    {
        self.body = body;
    }

    /// Sets the target date of the `Todo` to the first date on or after
    /// `today` falling on `weekday`.
    pub fn set_weekday(&mut self, weekday: Weekday, today: Date)
        requires
            today.days + 6 <= u64::MAX,
        ensures
            *final(self) == (Todo { date: spec_weekday_to_date(weekday, today), ..*old(self) }),
    {
        self.date = weekday_to_date(weekday, today);
    }

    /// Whether the `Todo` is done.
    pub open spec fn spec_done(self) -> bool {
        self.done is Some
    }

    /// Returns `true` if the `Todo` is done.
    pub fn done(&self) -> (r: bool)
        ensures
            r == self.spec_done(),
    {
        self.done.is_some()
    }

    /// Sets the done state of the `Todo`; marking it done records `today` as
    /// the completion date.
    pub fn set_done(&mut self, done: bool, today: Date)
        ensures
            *final(self) == (Todo {
                done: if done {
                    Some(today)
                } else {
                    None::<Date>
                },
                ..*old(self)
            }),
    {
        if done {
            self.done = Some(today);
        } else {
            self.done = None;
        }
    }

    /// Whether the `Todo` can be removed on `today`: it was completed on an
    /// earlier day, never on the completion day itself.
    pub open spec fn spec_can_remove(self, today: Date) -> bool {
        match self.done {
            Some(done_date) => today.days > done_date.days,
            None => false,
        }
    }

    /// Returns `true` if the `Todo` can be removed, which is the case one day
    /// after its completion.
    pub fn can_remove(&self, today: Date) -> (r: bool)
        ensures
            r == self.spec_can_remove(today),
    {
        match self.done {
            Some(done_date) => today.days > done_date.days,
            None => false,
        }
    }
}

impl SyncItem for Todo {
    open spec fn spec_state(&self) -> ItemState {
        self.state
    }

    open spec fn spec_id(&self) -> u64 {
        self.id
    }

    open spec fn with_state(&self, state: ItemState) -> Todo {
        Todo { state, ..*self }
    }

    open spec fn with_id(&self, id: u64) -> Todo {
        Todo { id, ..*self }
    }

    proof fn lemma_with(&self, state: ItemState, id: u64) {
    }

    fn state(&self) -> (s: ItemState) {
        self.state
    }

    fn set_state(&mut self, state: ItemState) {
        self.state = state;
    }

    fn id(&self) -> (i: u64) {
        self.id
    }

    fn set_id(&mut self, id: u64) {
        self.id = id;
    }
}

impl PartialEq for Todo {
    /// Compares the content of two `Todo`s: body, target date and completion.
    /// Identifier and lifecycle state are replication metadata and take no
    /// part.
    fn eq(&self, other: &Todo) -> (r: bool) {
        let done_eq: bool = match (self.done, other.done) {
            (Some(a), Some(b)) => a == b,
            (None, None) => true,
            _ => false,
        };
        self.body == other.body && self.date == other.date && done_eq
    }
}

impl vstd::std_specs::cmp::PartialEqSpecImpl for Todo {
    open spec fn obeys_eq_spec() -> bool {
        true
    }

    open spec fn eq_spec(&self, other: &Todo) -> bool {
        self.body@ == other.body@ && self.date == other.date && self.done == other.done
    }
}

/// The applicability law of a one-time item. A `Todo` targeting some date is
/// applicable, when queried about the current day, on its target date and on
/// every later day, no matter whether it has been completed; it is never
/// removable while undone, and once done it becomes removable exactly on the
/// days strictly after its completion date.
pub proof fn lemma_todo_applicability(todo: Todo, d: Date, today: Date)
    ensures
        todo.date.days <= d.days ==> todo.spec_for_date(d, d),
        todo.done is None ==> !todo.spec_can_remove(today),
        todo.done matches Some(completed) ==> (todo.spec_can_remove(today) <==> today.days
            > completed.days),
{
}

} // verus!
