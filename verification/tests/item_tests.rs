use mtd::date::{Date, Weekday};
use mtd::{Task, Todo};

#[test]
fn todo_for_date_tests() {
    let todo = Todo::new_specific_date("Friday".to_string(), Date::from_ymd(2022, 6, 10));

    let today = Date::from_ymd(2022, 6, 10);

    // Todo is for the given date on the same day
    assert!(todo.for_date(today, today));
    // Todo is for the given date before the given date
    assert!(todo.for_date(today, today.pred()));
    // Todo is not for the given date after the given date
    assert!(!todo.for_date(today, today.succ()));
    // Todo is for the following date one day after the given date
    assert!(todo.for_date(today.succ(), today.succ()));
    // Todo is not for the following date because it is already for today
    assert!(!todo.for_date(today.succ(), today));
}

#[test]
fn todo_can_remove_returns_true_only_after_one_day_from_completion() {
    let mut todo = Todo::new_specific_date("Todo".to_string(), Date::from_ymd(2022, 4, 25));
    todo.set_done(true, Date::from_ymd(2022, 4, 26));

    assert!(!todo.can_remove(Date::from_ymd(2022, 4, 26)));
    assert!(todo.can_remove(Date::from_ymd(2022, 4, 27)));
    assert!(todo.can_remove(Date::from_ymd(2022, 4, 28)));
}

#[test]
fn todo_keeps_showing_after_target_until_done_day() {
    // An overdue Todo shows, as seen on the day itself, on its target date
    // and on every later day, done or not.
    let target = Date::from_ymd(2022, 6, 10);
    let mut todo = Todo::new_specific_date("Todo".to_string(), target);
    for off in 0..10u64 {
        let d = Date { days: target.days + off };
        assert!(todo.for_date(d, d));
    }
    let done_day = Date::from_ymd(2022, 6, 12);
    todo.set_done(true, done_day);
    // Still shows (struck through) on the day it was completed.
    assert!(todo.for_date(done_day, done_day));
    assert!(todo.done());
    // Not removable on the completion day, removable afterwards.
    assert!(!todo.can_remove(done_day));
    assert!(todo.can_remove(done_day.succ()));
}

#[test]
fn task_remove_weekday_removes_all_duplicates() {
    let mut task = Task::new(
        "Test task".to_string(),
        vec![Weekday::Mon, Weekday::Tue, Weekday::Wed, Weekday::Wed],
    );

    task.remove_weekday(Weekday::Wed);

    // Removing a weekday that isn't listed does nothing.
    task.remove_weekday(Weekday::Fri);

    assert!(task.weekdays().contains(&Weekday::Mon));
    assert!(task.weekdays().contains(&Weekday::Tue));
    assert!(!task.weekdays().contains(&Weekday::Wed));
}

#[test]
fn task_done_cycles_weekly() {
    // Scheduled on Mon, Wed and Thu; 2022-6-13 is a Monday and 2022-6-16 a
    // Thursday.
    let mut task = Task::new(
        "Task".to_string(),
        vec![Weekday::Mon, Weekday::Wed, Weekday::Thu],
    );

    task.set_done(true, Date::from_ymd(2022, 6, 13));
    task.set_done(true, Date::from_ymd(2022, 6, 16));

    // Done for mon and thu
    assert!(task.done(Date::from_ymd(2022, 6, 13)));
    assert!(task.done(Date::from_ymd(2022, 6, 16)));

    // Not done for wed
    assert!(!task.done(Date::from_ymd(2022, 6, 15)));

    // Not done for the following week's mon/thu: a new occurrence of the
    // weekday flips the task back to undone.
    assert!(!task.done(Date::from_ymd(2022, 6, 20)));
    assert!(!task.done(Date::from_ymd(2022, 6, 23)));

    // Since 2022-6-21 is a tue, the task is vacuously done for that date
    assert!(task.done(Date::from_ymd(2022, 6, 21)));

    // Marking undone clears that weekday's record again.
    task.set_done(false, Date::from_ymd(2022, 6, 13));
    assert!(!task.done(Date::from_ymd(2022, 6, 13)));
}
