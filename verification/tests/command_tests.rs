use mtd::commands::{add, modify_done_state, remove};
use mtd::date::{today, weekday_of_number, Date};
use mtd::{ItemKind, Task, TdList, Todo, Weekday};

#[test]
fn add_adds_todo_successfully() {
    let t = today();
    let mut list = TdList::new_client();
    add(&mut list, ItemKind::Todo, vec![Weekday::Wed], "Todo".to_string(), t);
    assert_eq!(list.todos()[0], &Todo::new_dated("Todo".to_string(), Weekday::Wed, t));
}

#[test]
fn add_adds_task_successfully() {
    let t = today();
    let mut list = TdList::new_client();
    add(
        &mut list,
        ItemKind::Task,
        vec![Weekday::Wed, Weekday::Fri, Weekday::Sun],
        "Task".to_string(),
        t,
    );
    assert_eq!(
        list.tasks()[0],
        &Task::new(
            "Task".to_string(),
            vec![Weekday::Wed, Weekday::Fri, Weekday::Sun],
        )
    )
}

#[test]
fn add_adds_task_without_explicit_weekday() {
    let t = today();
    let mut list = TdList::new_client();
    add(&mut list, ItemKind::Task, vec![], "Task".to_string(), t);
    assert_eq!(list.tasks()[0], &Task::new("Task".to_string(), vec![t.weekday()]))
}

#[test]
fn add_adds_todo_to_multiple_weekdays() {
    let t = today();
    let mut list = TdList::new_client();
    add(
        &mut list,
        ItemKind::Todo,
        vec![Weekday::Wed, Weekday::Fri, Weekday::Sun],
        "Todo".to_string(),
        t,
    );
    assert_eq!(list.todos()[0], &Todo::new_dated("Todo".to_string(), Weekday::Wed, t));
    assert_eq!(list.todos()[1], &Todo::new_dated("Todo".to_string(), Weekday::Fri, t));
    assert_eq!(list.todos()[2], &Todo::new_dated("Todo".to_string(), Weekday::Sun, t));
}

#[test]
fn remove_removes_todo_successfully() {
    let t = today();
    let mut list = TdList::new_client();
    list.add_todo(Todo::new_undated("Todo".to_string(), t));
    remove(&mut list, ItemKind::Todo, 0).unwrap();
    assert_eq!(list.todos().len(), 0);
}

#[test]
fn remove_removes_task_successfully() {
    let mut list = TdList::new_client();
    list.add_task(Task::new("Task".to_string(), vec![Weekday::Sun]));
    remove(&mut list, ItemKind::Task, 0).unwrap();
    assert_eq!(list.tasks().len(), 0);
}

#[test]
fn remove_fails_with_nonexistent_id() {
    let mut list = TdList::new_client();
    list.add_task(Task::new("Task".to_string(), vec![Weekday::Sun]));
    assert!(remove(&mut list, ItemKind::Task, 1).is_err());
    assert!(remove(&mut list, ItemKind::Todo, 0).is_err());
}

#[test]
fn modify_done_state_sets_todo_done() {
    let t = today();
    let mut list = TdList::new_client();
    list.add_todo(Todo::new_undated("Todo".to_string(), t));
    modify_done_state(&mut list, ItemKind::Todo, 0, true, t).unwrap();
    assert!(list.todos()[0].done());
}

#[test]
fn modify_done_state_sets_task_done_for_the_next_correct_date() {
    let t = today();
    let wd_after_two_days = weekday_of_number((t.weekday().number() + 2) % 7);
    let mut list = TdList::new_client();
    list.add_task(Task::new("Task".to_string(), vec![wd_after_two_days]));
    modify_done_state(&mut list, ItemKind::Task, 0, true, t).unwrap();
    assert!(list.tasks()[0].done(Date { days: t.days + 2 }));
}

#[test]
fn set_sets_todo_values_to_new() {
    let t = today();
    let mut list = TdList::new_client();
    list.add_todo(Todo::new_dated("Todo".to_string(), Weekday::Sun, t));
    mtd::commands::set(
        &mut list,
        ItemKind::Todo,
        0,
        Some("New Todo".to_string()),
        vec![Weekday::Wed],
        t,
    )
    .unwrap();
    assert_eq!(list.todos()[0], &Todo::new_dated("New Todo".to_string(), Weekday::Wed, t));
}

#[test]
fn set_sets_task_values_to_new() {
    let t = today();
    let mut list = TdList::new_client();
    list.add_task(Task::new("Task".to_string(), vec![Weekday::Sun]));
    mtd::commands::set(
        &mut list,
        ItemKind::Task,
        0,
        Some("New Task".to_string()),
        vec![Weekday::Thu, Weekday::Fri],
        t,
    )
    .unwrap();
    assert_eq!(
        list.tasks()[0],
        &Task::new("New Task".to_string(), vec![Weekday::Thu, Weekday::Fri])
    )
}

#[test]
fn set_doesnt_modify_weekday_without_explicit_set() {
    let t = today();
    let mut list = TdList::new_client();
    list.add_todo(Todo::new_dated("Todo".to_string(), Weekday::Sun, t));
    mtd::commands::set(&mut list, ItemKind::Todo, 0, Some("New Todo".to_string()), vec![], t).unwrap();
    assert_eq!(list.todos()[0], &Todo::new_dated("New Todo".to_string(), Weekday::Sun, t));
}

#[test]
fn set_doesnt_modify_body_without_explicit_set() {
    let t = today();
    let mut list = TdList::new_client();
    list.add_task(Task::new("Task".to_string(), vec![Weekday::Sun]));
    mtd::commands::set(
        &mut list,
        ItemKind::Task,
        0,
        None,
        vec![Weekday::Thu, Weekday::Fri],
        t,
    )
    .unwrap();
    assert_eq!(
        list.tasks()[0],
        &Task::new("Task".to_string(), vec![Weekday::Thu, Weekday::Fri])
    )
}
