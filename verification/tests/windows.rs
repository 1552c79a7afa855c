use devclock::app::{handle_command, App, Command, Effect, WindowTable};

#[test]
fn table_insert_lookup_remove() {
    let mut t: WindowTable<&str> = WindowTable::new();
    assert!(t.is_empty());
    assert_eq!(t.insert(5, "a"), None);
    assert_eq!(t.insert(9, "b"), None);
    assert_eq!(t.len(), 2);
    assert_eq!(t.position(9), Some(1));
    assert_eq!(t.id_at(0), 5);
    assert_eq!(*t.window_at(1), "b");
    assert_eq!(t.insert(5, "c"), Some("a"));
    assert_eq!(t.len(), 2);
    assert_eq!(*t.window_at(0), "c");
    assert_eq!(t.remove(5), Some("c"));
    assert_eq!(t.remove(5), None);
    assert_eq!(t.position(5), None);
    assert_eq!(t.id_at(0), 9);
    assert_eq!(t.len(), 1);
}

#[test]
fn table_window_at_mut_writes_through() {
    let mut t: WindowTable<u32> = WindowTable::new();
    t.insert(1, 10);
    t.insert(2, 20);
    *t.window_at_mut(1) += 5;
    assert_eq!(*t.window_at(1), 25);
    assert_eq!(*t.window_at(0), 10);
}

#[test]
fn remove_keeps_order_of_others() {
    let mut t: WindowTable<u8> = WindowTable::new();
    for id in [3u64, 1, 4, 5] {
        t.insert(id, id as u8);
    }
    t.remove(1);
    let ids: Vec<u64> = (0..t.len()).map(|i| t.id_at(i)).collect();
    assert_eq!(ids, vec![3, 4, 5]);
}

#[test]
fn commands_remove_add_flow() {
    let mut t: WindowTable<&str> = WindowTable::new();
    t.insert(1, "one");
    t.insert(2, "two");
    let e = handle_command::<&str, &str, u8>(Command::RemoveWindow(1), &mut t);
    assert!(matches!(e, Effect::Done));
    assert_eq!(t.len(), 1);
    assert_eq!(t.position(1), None);
    let e = handle_command::<&str, &str, u8>(Command::RemoveWindow(77), &mut t);
    assert!(matches!(e, Effect::Done));
    assert_eq!(t.len(), 1);
    let e = handle_command::<&str, &str, u8>(Command::AddWindow("new"), &mut t);
    assert!(matches!(e, Effect::CreateWindow("new")));
    assert_eq!(t.len(), 1);
    let e = handle_command::<&str, &str, u8>(Command::SetControlFlow(3), &mut t);
    assert!(matches!(e, Effect::SetControlFlow(3)));
    assert_eq!(t.len(), 1);
}

#[test]
fn app_queue_and_exit_rules() {
    let mut app: App<u32, &str, &str> = App::new(7, "first");
    assert_eq!(app.app_state, 7);
    assert!(app.exit_after_window_event());
    assert!(!app.exit_after_new_events(true));
    assert!(app.exit_after_new_events(false));
    let q = app.take_new_window_queue();
    assert_eq!(q, vec!["first"]);
    assert!(app.take_new_window_queue().is_empty());
    app.windows.insert(1, "w");
    assert!(!app.exit_after_window_event());
    assert!(!app.exit_after_new_events(false));
    handle_command::<&str, &str, ()>(Command::RemoveWindow(1), &mut app.windows);
    assert!(app.exit_after_window_event());
}

#[test]
fn remove_undoes_insert_of_fresh_id() {
    let mut t: WindowTable<char> = WindowTable::new();
    t.insert(1, 'a');
    t.insert(2, 'b');
    t.insert(3, 'c');
    t.remove(3);
    assert_eq!(t.len(), 2);
    assert_eq!(*t.window_at(t.position(1).unwrap()), 'a');
    assert_eq!(*t.window_at(t.position(2).unwrap()), 'b');
    assert_eq!(t.position(3), None);
}
