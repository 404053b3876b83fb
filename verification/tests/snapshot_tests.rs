use todo_core::codec::{decode_accounts, decode_tasks};
use todo_core::store::TodoApp;

fn sample_store() -> TodoApp {
    let mut app = TodoApp::new();
    app.register("alice".to_string(), "secret".to_string()).unwrap();
    app.register("bob".to_string(), "hunter".to_string()).unwrap();
    app.login("alice".to_string(), "secret".to_string()).unwrap();
    app.add_task_at("groceries".to_string(), "milk\nand eggs".to_string(), 1700000000)
        .unwrap();
    app.add_task_at("".to_string(), "empty title above".to_string(), -5).unwrap();
    app.complete_task(1).unwrap();
    app.logout();
    app.login("bob".to_string(), "hunter".to_string()).unwrap();
    app.add_task_at("bob's own".to_string(), "with spaces  ".to_string(), 0).unwrap();
    app
}

#[test]
fn snapshots_restore_the_same_store() {
    let app = sample_store();
    let tasks_text = app.tasks_snapshot();
    let accounts_text = app.accounts_snapshot();

    let restored = TodoApp::from_snapshots(&tasks_text, &accounts_text).unwrap();
    assert_eq!(restored.tasks_snapshot(), tasks_text);
    assert_eq!(restored.accounts_snapshot(), accounts_text);
    assert!(restored.current_account().is_none());
    assert_eq!(restored.next_id_value(), 4);

    let mut restored = restored;
    restored.login("alice".to_string(), "secret".to_string()).unwrap();
    let tasks = restored.list_tasks().unwrap();
    assert_eq!(tasks.len(), 2);
    let t1 = tasks.iter().find(|t| t.id == 1).unwrap();
    assert_eq!(t1.title, "groceries");
    assert_eq!(t1.description, "milk\nand eggs");
    assert!(t1.completed);
    assert_eq!(t1.created_at, 1700000000);
    let t2 = tasks.iter().find(|t| t.id == 2).unwrap();
    assert_eq!(t2.title, "");
    assert_eq!(t2.created_at, -5);
    assert!(!t2.completed);

    let id = restored.add_task_at("fresh".to_string(), "".to_string(), 9).unwrap();
    assert_eq!(id, 4);
}

#[test]
fn empty_snapshots_restore_an_empty_store() {
    let restored = TodoApp::from_snapshots("", "").unwrap();
    assert_eq!(restored.next_id_value(), 1);
    assert_eq!(restored.account_count(), 0);
    assert_eq!(restored.tasks_snapshot(), "");
    assert_eq!(restored.accounts_snapshot(), "");
}

#[test]
fn snapshot_text_is_labelled_and_readable() {
    let mut app = TodoApp::new();
    app.register("ann".to_string(), "pw".to_string()).unwrap();
    app.login("ann".to_string(), "pw".to_string()).unwrap();
    app.add_task_at("milk".to_string(), "2%".to_string(), 42).unwrap();
    assert_eq!(
        app.tasks_snapshot(),
        "task\nid 1\ncompleted 0\ncreated_at 42\nowner 3 ann\ntitle 4 milk\ndescription 2 2%\n"
    );
    assert_eq!(app.accounts_snapshot(), "account\nusername 3 ann\npassword 2 pw\n");
}

#[test]
fn decode_rejects_malformed_text() {
    assert!(decode_tasks("garbage").is_none());
    assert!(decode_tasks("task\nid x\n").is_none());
    assert!(decode_tasks("task\nid 1\ncompleted 0\ncreated_at 5\nowner 1 a\n").is_none());
    assert!(decode_tasks("task\nid 99999999999999999999\ncompleted 0\n").is_none());
    assert!(decode_accounts("account\nusername 5 ab\npassword 2 pw\n").is_none());
    assert!(decode_accounts("user a pass b").is_none());
}

#[test]
fn decode_accepts_handwritten_records() {
    let text = "task\nid 7\ncompleted 1\ncreated_at -12\nowner 2 jo\ntitle 2 hi\ndescription 0 \n";
    let tasks = decode_tasks(text).unwrap();
    assert_eq!(tasks.len(), 1);
    assert_eq!(tasks[0].id, 7);
    assert!(tasks[0].completed);
    assert_eq!(tasks[0].created_at, -12);
    assert_eq!(tasks[0].owner, "jo");
    assert_eq!(tasks[0].title, "hi");
    assert_eq!(tasks[0].description, "");

    let accounts = decode_accounts("account\nusername 2 jo\npassword 3 pwd\n").unwrap();
    assert_eq!(accounts.len(), 1);
    assert_eq!(accounts[0].username, "jo");
    assert_eq!(accounts[0].password, "pwd");
}

#[test]
fn restore_rejects_duplicate_ids_and_usernames() {
    let record = "task\nid 1\ncompleted 0\ncreated_at 5\nowner 1 a\ntitle 1 t\ndescription 0 \n";
    let twice = format!("{}{}", record, record);
    assert!(decode_tasks(&twice).is_some());
    assert!(TodoApp::from_snapshots(&twice, "").is_none());

    let account = "account\nusername 1 a\npassword 1 p\n";
    let twice = format!("{}{}", account, account);
    assert!(decode_accounts(&twice).is_some());
    assert!(TodoApp::from_snapshots("", &twice).is_none());
}

#[test]
fn restore_rejects_unparseable_snapshots() {
    assert!(TodoApp::from_snapshots("task\n", "").is_none());
    assert!(TodoApp::from_snapshots("", "account\n").is_none());
}

#[test]
fn restore_counts_from_one_past_the_largest_id() {
    let text = "task\nid 9\ncompleted 0\ncreated_at 0\nowner 1 a\ntitle 1 t\ndescription 0 \n";
    let restored = TodoApp::from_snapshots(text, "").unwrap();
    assert_eq!(restored.next_id_value(), 10);

    let max = format!(
        "task\nid {}\ncompleted 0\ncreated_at 0\nowner 1 a\ntitle 1 t\ndescription 0 \n",
        u64::MAX
    );
    assert!(TodoApp::from_snapshots(&max, "").is_none());
}
