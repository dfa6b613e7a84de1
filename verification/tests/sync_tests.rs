use mtd::date::{Date, Weekday};
use mtd::{Delta, ItemState, Task, TdList, Todo};

fn day() -> Date {
    Date::from_ymd(2022, 6, 7)
}

fn delta_of(client: &TdList) -> Delta {
    Delta {
        new_todos: client.pending_new_todos().into_iter().cloned().collect(),
        removed_todo_ids: client.pending_removed_todo_ids(),
        new_tasks: client.pending_new_tasks().into_iter().cloned().collect(),
        removed_task_ids: client.pending_removed_task_ids(),
    }
}

fn snapshot_into(client: &mut TdList, server: &TdList) {
    let todos: Vec<Todo> = server.todos().into_iter().cloned().collect();
    let tasks: Vec<Task> = server.tasks().into_iter().cloned().collect();
    client.apply_snapshot(todos, tasks);
}

#[test]
fn client_soft_removal_keeps_entry_and_renumbers() {
    // Adding 3 items then soft-removing the middle one leaves exactly 2
    // visible items with identifiers 0 and 1; the underlying entry count is
    // still 3 until a compaction.
    let t = day();
    let mut list = TdList::new_client();
    list.add_todo(Todo::new_undated("A".to_string(), t));
    list.add_todo(Todo::new_undated("B".to_string(), t));
    list.add_todo(Todo::new_undated("C".to_string(), t));

    list.remove_todo(1).unwrap();

    assert_eq!(list.todos().len(), 2);
    assert_eq!(list.todos()[0].id(), 0);
    assert_eq!(list.todos()[1].id(), 1);
    assert_eq!(list.todos()[0].body(), "A");
    assert_eq!(list.todos()[1].body(), "C");
    assert_eq!(list.todos.items.len(), 3);
    assert!(list.todos.items.iter().any(|e| e.state == ItemState::Removed));
}

#[test]
fn server_removal_is_physical_and_renumbers() {
    // Removing the middle of 3 items immediately yields 2 entries with
    // identifiers 0 and 1, and no Removed-tagged entries ever exist.
    let t = day();
    let mut list = TdList::new_server();
    list.add_todo(Todo::new_undated("A".to_string(), t));
    list.add_todo(Todo::new_undated("B".to_string(), t));
    list.add_todo(Todo::new_undated("C".to_string(), t));

    list.remove_todo(1).unwrap();

    assert_eq!(list.todos.items.len(), 2);
    assert_eq!(list.todos()[0].id(), 0);
    assert_eq!(list.todos()[1].id(), 1);
    assert_eq!(list.todos()[0].body(), "A");
    assert_eq!(list.todos()[1].body(), "C");
    for e in &list.todos.items {
        assert!(e.state != ItemState::Removed);
    }
}

#[test]
fn sync_pushes_new_todo_to_server() {
    // A client adds a Todo (tagged New) and syncs against a fresh server:
    // after the sync the client's collection holds exactly that item, state
    // Unchanged, identifier 0, and the server's store contains it too.
    let t = day();
    let mut client = TdList::new_client();
    client.add_todo(Todo::new_undated("Todo".to_string(), t));
    assert_eq!(client.todos.items[0].state, ItemState::New);

    let mut server = TdList::new_server();
    server.apply_delta(delta_of(&client), t);

    assert_eq!(server.todos().len(), 1);
    assert_eq!(server.todos()[0], &Todo::new_undated("Todo".to_string(), t));
    assert_eq!(server.todos.items[0].state, ItemState::Unchanged);

    snapshot_into(&mut client, &server);

    assert_eq!(client.todos().len(), 1);
    assert_eq!(client.todos()[0].id(), 0);
    assert_eq!(client.todos()[0].body(), "Todo");
    assert_eq!(client.todos.items[0].state, ItemState::Unchanged);
}

#[test]
fn sync_pushes_removal_to_server() {
    // A client removes an item (tag Removed) and syncs: after the sync the
    // item is absent from both the client's and the server's collections.
    let t = day();
    let mut server = TdList::new_server();
    server.add_todo(Todo::new_undated("Keep".to_string(), t));
    server.add_todo(Todo::new_undated("Drop".to_string(), t));

    let mut client = TdList::new_client();
    snapshot_into(&mut client, &server);
    assert_eq!(client.todos().len(), 2);

    client.remove_todo(1).unwrap();
    server.apply_delta(delta_of(&client), t);
    snapshot_into(&mut client, &server);

    assert_eq!(server.todos().len(), 1);
    assert_eq!(server.todos()[0].body(), "Keep");
    assert_eq!(client.todos().len(), 1);
    assert_eq!(client.todos()[0].body(), "Keep");
    assert_eq!(client.todos()[0].id(), 0);
}

#[test]
fn sync_pushes_new_and_removed_tasks_to_server() {
    let t = day();
    let mut server = TdList::new_server();
    server.add_task(Task::new("Old".to_string(), vec![Weekday::Mon]));

    let mut client = TdList::new_client();
    snapshot_into(&mut client, &server);

    client.add_task(Task::new("New".to_string(), vec![Weekday::Fri]));
    client.remove_task(0).unwrap();

    server.apply_delta(delta_of(&client), t);
    snapshot_into(&mut client, &server);

    assert_eq!(server.tasks().len(), 1);
    assert_eq!(server.tasks()[0].body(), "New");
    assert_eq!(client.tasks().len(), 1);
    assert_eq!(client.tasks()[0].body(), "New");
    assert_eq!(client.tasks.items[0].state, ItemState::Unchanged);
}

#[test]
fn server_skips_removal_of_unknown_id_and_applies_the_rest() {
    // A removal naming an identifier the server no longer holds removes
    // nothing, and the rest of the delta still applies.
    let t = day();
    let mut server = TdList::new_server();
    server.add_todo(Todo::new_undated("Keep".to_string(), t));

    let delta = Delta {
        new_todos: vec![Todo::new_undated("Fresh".to_string(), t)],
        removed_todo_ids: vec![7],
        new_tasks: vec![],
        removed_task_ids: vec![],
    };
    server.apply_delta(delta, t);

    assert_eq!(server.todos().len(), 2);
    assert_eq!(server.todos()[0].body(), "Keep");
    assert_eq!(server.todos()[1].body(), "Fresh");
}

#[test]
fn server_garbage_collects_stale_todos_on_sync() {
    // Applying a delta also drops every completed todo whose completion date
    // lies strictly before today.
    let t = day();
    let mut server = TdList::new_server();
    server.add_todo(Todo::new_undated("Stale".to_string(), t.pred()));
    server.get_todo_mut(0).set_done(true, t.pred());

    let empty = Delta {
        new_todos: vec![],
        removed_todo_ids: vec![],
        new_tasks: vec![],
        removed_task_ids: vec![],
    };
    server.apply_delta(empty, t);

    assert_eq!(server.todos().len(), 0);
    assert_eq!(server.todos.items.len(), 0);
}

#[test]
fn failed_sync_leaves_client_untouched() {
    // Collecting the pending delta reads the client's state only; when the
    // exchange fails, the snapshot is never applied and the client's pending
    // tags and contents stay exactly as they were.
    let t = day();
    let mut client = TdList::new_client();
    client.add_todo(Todo::new_undated("A".to_string(), t));
    client.add_todo(Todo::new_undated("B".to_string(), t));
    client.remove_todo(0).unwrap();
    client.add_task(Task::new("T".to_string(), vec![Weekday::Mon]));

    let todos_before: Vec<Todo> = client.todos.items.clone();
    let tasks_before: Vec<Task> = client.tasks.items.clone();

    // The sync attempt reaches the server neither with its delta nor for the
    // reply; the collected delta is simply dropped.
    let _unsent = delta_of(&client);

    assert_eq!(client.todos.items.len(), todos_before.len());
    for (a, b) in client.todos.items.iter().zip(todos_before.iter()) {
        assert!(a == b && a.id == b.id && a.state == b.state);
    }
    assert_eq!(client.tasks.items.len(), tasks_before.len());
    for (a, b) in client.tasks.items.iter().zip(tasks_before.iter()) {
        assert!(a == b && a.id == b.id && a.state == b.state);
    }
}

#[test]
fn delta_collects_exactly_the_pending_edits() {
    let t = day();
    let mut server = TdList::new_server();
    server.add_todo(Todo::new_undated("Synced".to_string(), t));

    let mut client = TdList::new_client();
    snapshot_into(&mut client, &server);

    client.add_todo(Todo::new_undated("Fresh".to_string(), t));
    client.remove_todo(0).unwrap();

    let delta = delta_of(&client);
    assert_eq!(delta.new_todos.len(), 1);
    assert_eq!(delta.new_todos[0].body(), "Fresh");
    assert_eq!(delta.removed_todo_ids, vec![0]);
    assert!(delta.new_tasks.is_empty());
    assert!(delta.removed_task_ids.is_empty());
}
