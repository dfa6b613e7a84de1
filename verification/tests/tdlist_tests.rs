use mtd::date::{today, Date, Weekday};
use mtd::{MtdError, Task, TdList, Todo};

#[test]
fn tdlist_add_todo_updates_ids() {
    let t = today();
    let mut list = TdList::new_client();

    list.add_todo(Todo::new_undated("Todo 0".to_string(), t));
    list.add_todo(Todo::new_undated("Todo 1".to_string(), t));
    list.add_todo(Todo::new_undated("Todo 2".to_string(), t));

    assert_eq!(list.todos()[0].id(), 0);
    assert_eq!(list.todos()[1].id(), 1);
    assert_eq!(list.todos()[2].id(), 2);
}

#[test]
fn tdlist_removed_todos_not_visible() {
    let t = today();
    let mut list = TdList::new_client();

    list.add_todo(Todo::new_undated("Todo 0".to_string(), t));
    list.add_todo(Todo::new_undated("Todo 1".to_string(), t));
    list.add_todo(Todo::new_undated("Todo 2".to_string(), t));

    list.remove_todo(1).unwrap();

    assert_eq!(list.todos()[0].body(), "Todo 0");
    assert_eq!(list.todos()[1].body(), "Todo 2");
    assert_eq!(list.todos().len(), 2);
}

#[test]
fn tdlist_remove_todo_returns_err_nonexistent_id() {
    let t = today();
    let mut list = TdList::new_client();

    list.add_todo(Todo::new_undated("Todo 0".to_string(), t));
    list.add_todo(Todo::new_undated("Todo 1".to_string(), t));

    assert_eq!(list.remove_todo(2).err().unwrap(), MtdError::NoTodoWithGivenId(2));
}

#[test]
fn tdlist_add_task_updates_ids() {
    let mut list = TdList::new_client();

    list.add_task(Task::new("Task 0".to_string(), vec![Weekday::Mon]));
    list.add_task(Task::new("Task 1".to_string(), vec![Weekday::Mon]));
    list.add_task(Task::new("Task 2".to_string(), vec![Weekday::Mon]));

    assert_eq!(list.tasks()[0].id(), 0);
    assert_eq!(list.tasks()[1].id(), 1);
    assert_eq!(list.tasks()[2].id(), 2);
}

#[test]
fn tdlist_removed_tasks_not_visible() {
    let mut list = TdList::new_client();

    list.add_task(Task::new("Task 0".to_string(), vec![Weekday::Mon]));
    list.add_task(Task::new("Task 1".to_string(), vec![Weekday::Mon]));
    list.add_task(Task::new("Task 2".to_string(), vec![Weekday::Mon]));

    list.remove_task(1).unwrap();

    assert_eq!(list.tasks()[0].body(), "Task 0");
    assert_eq!(list.tasks()[1].body(), "Task 2");
    assert_eq!(list.tasks().len(), 2);
}

#[test]
fn tdlist_remove_task_returns_err_with_nonexistent_id() {
    let mut list = TdList::new_client();

    list.add_task(Task::new("Task 0".to_string(), vec![Weekday::Mon]));
    list.add_task(Task::new("Task 1".to_string(), vec![Weekday::Mon]));

    assert_eq!(list.remove_task(2).err().unwrap(), MtdError::NoTaskWithGivenId(2));
}

#[test]
fn tdlist_get_todo_mut_returns_mutable() {
    let t = today();
    let mut list = TdList::new_client();

    list.add_todo(Todo::new_undated("Todo".to_string(), t));

    assert_eq!(list.todos()[0].body(), "Todo");

    list.get_todo_mut(0).set_body("To-Do".to_string());

    assert_eq!(list.todos()[0].body(), "To-Do");
}

#[test]
fn tdlist_get_task_mut_returns_mutable() {
    let mut list = TdList::new_client();

    list.add_task(Task::new("Task".to_string(), vec![Weekday::Mon]));

    assert_eq!(list.tasks()[0].body(), "Task");

    list.get_task_mut(0).set_body("Ta-Sk".to_string());

    assert_eq!(list.tasks()[0].body(), "Ta-Sk");
}

fn tdlist_with_done_and_undone() -> TdList {
    let mut list = TdList::new_client();

    list.add_todo(Todo::new_specific_date("Undone 1".to_string(), Date::from_ymd(2021, 4, 1)));
    list.add_todo(Todo::new_specific_date("Undone 2".to_string(), Date::from_ymd(2021, 3, 29)));
    list.add_todo(Todo::new_specific_date("Done 1".to_string(), Date::from_ymd(2021, 4, 1)));
    list.add_todo(Todo::new_specific_date("Done 2".to_string(), Date::from_ymd(2021, 3, 30)));

    list.get_todo_mut(2).set_done(true, Date::from_ymd(2021, 4, 1));
    list.get_todo_mut(3).set_done(true, Date::from_ymd(2021, 4, 1));

    list.add_task(Task::new("Undone 1".to_string(), vec![Weekday::Thu]));
    list.add_task(Task::new("Done 1".to_string(), vec![Weekday::Thu]));

    list.get_task_mut(1).set_done(true, Date::from_ymd(2021, 4, 1));

    list
}

#[test]
fn tdlist_undone_todos_for_date_returns_only_undone() {
    let list = tdlist_with_done_and_undone();

    let returned = list.undone_todos_for_date(Date::from_ymd(2021, 4, 1), Date::from_ymd(2021, 4, 1));

    assert!(returned.contains(&list.todos()[0]));
    assert!(returned.contains(&list.todos()[1]));
    assert!(!returned.contains(&list.todos()[2]));
    assert!(!returned.contains(&list.todos()[3]));
    assert_eq!(returned.len(), 2);
}

#[test]
fn tdlist_done_todos_for_date_returns_only_done() {
    let list = tdlist_with_done_and_undone();

    let returned = list.done_todos_for_date(Date::from_ymd(2021, 4, 1), Date::from_ymd(2021, 4, 1));

    assert!(!returned.contains(&list.todos()[0]));
    assert!(!returned.contains(&list.todos()[1]));
    assert!(returned.contains(&list.todos()[2]));
    assert!(returned.contains(&list.todos()[3]));
    assert_eq!(returned.len(), 2);
}

#[test]
fn tdlist_undone_tasks_for_date_returns_only_undone() {
    let list = tdlist_with_done_and_undone();

    let returned = list.undone_tasks_for_date(Date::from_ymd(2021, 4, 1));

    assert!(returned.contains(&list.tasks()[0]));
    assert!(!returned.contains(&list.tasks()[1]));
    assert_eq!(returned.len(), 1);
}

#[test]
fn tdlist_done_tasks_for_date_returns_only_done() {
    let list = tdlist_with_done_and_undone();

    let returned = list.done_tasks_for_date(Date::from_ymd(2021, 4, 1));

    assert!(!returned.contains(&list.tasks()[0]));
    assert!(returned.contains(&list.tasks()[1]));
    assert_eq!(returned.len(), 1);
}

#[test]
fn tdlist_remove_old_todos_removes_done_after_1_day() {
    let mut list = tdlist_with_done_and_undone();
    let list_containing_same_todos_for_eq_check = tdlist_with_done_and_undone();

    list.remove_old_todos(Date::from_ymd(2021, 4, 1));

    assert_eq!(list.todos(), list_containing_same_todos_for_eq_check.todos());

    list.remove_old_todos(Date::from_ymd(2021, 4, 2));

    assert_eq!(list.todos()[0], list_containing_same_todos_for_eq_check.todos()[0]);
    assert_eq!(list.todos()[1], list_containing_same_todos_for_eq_check.todos()[1]);
    assert_eq!(list.todos().len(), 2);
}

#[test]
fn tdlist_client_only_self_sync_actually_removes_items() {
    let mut list = tdlist_with_done_and_undone();

    list.remove_old_todos(Date::from_ymd(2021, 4, 2));
    list.remove_task(1).unwrap();

    assert_eq!(list.todos.items.len(), 4);
    assert_eq!(list.tasks.items.len(), 2);

    list.self_sync(Date::from_ymd(2021, 4, 2));

    assert_eq!(list.todos.items.len(), 2);
    assert_eq!(list.tasks.items.len(), 1);
}

#[test]
fn tdlist_server_always_removes_items() {
    let mut list = tdlist_with_done_and_undone();
    list.server = true;
    list.todos.server = true;
    list.tasks.server = true;

    list.remove_old_todos(Date::from_ymd(2021, 4, 2));
    list.remove_task(1).unwrap();

    assert_eq!(list.todos.items.len(), 2);
    assert_eq!(list.tasks.items.len(), 1);
}

#[test]
fn tdlist_sync_always_removes_old_todos() {
    let mut list = tdlist_with_done_and_undone();

    assert_eq!(list.todos.items.len(), 4);

    list.self_sync(Date::from_ymd(2021, 4, 2));

    assert_eq!(list.todos.items.len(), 2);
}

#[test]
fn tdlist_self_sync_is_idempotent() {
    let mut list = tdlist_with_done_and_undone();
    list.remove_task(0).unwrap();

    let t = Date::from_ymd(2021, 4, 2);
    list.self_sync(t);

    let todos_once: Vec<Todo> = list.todos.items.clone();
    let tasks_once: Vec<Task> = list.tasks.items.clone();

    list.self_sync(t);

    assert_eq!(list.todos.items.len(), todos_once.len());
    assert_eq!(list.tasks.items.len(), tasks_once.len());
    for (a, b) in list.todos.items.iter().zip(todos_once.iter()) {
        assert!(a == b && a.id == b.id && a.state == b.state);
    }
    for (a, b) in list.tasks.items.iter().zip(tasks_once.iter()) {
        assert!(a == b && a.id == b.id && a.state == b.state);
    }
}
