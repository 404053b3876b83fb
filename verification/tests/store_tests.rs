use todo_core::errors::{LoginError, RegisterError, TaskError};
use todo_core::store::TodoApp;

#[test]
fn register_then_duplicate_is_refused() {
    let mut app = TodoApp::new();
    assert_eq!(app.register("alice".to_string(), "pw".to_string()), Ok(()));
    assert_eq!(app.account_count(), 1);
    assert!(app.current_account().is_none());
    assert_eq!(
        app.register("alice".to_string(), "other".to_string()),
        Err(RegisterError::DuplicateAccount)
    );
    assert_eq!(app.account_count(), 1);
}

#[test]
fn login_failures_are_indistinguishable() {
    let mut app = TodoApp::new();
    assert_eq!(app.register("alice".to_string(), "right".to_string()), Ok(()));
    assert_eq!(
        app.login("alice".to_string(), "wrong".to_string()),
        Err(LoginError::InvalidCredentials)
    );
    assert_eq!(
        app.login("nobody".to_string(), "x".to_string()),
        Err(LoginError::InvalidCredentials)
    );
    assert!(app.current_account().is_none());
}

#[test]
fn login_success_sets_session() {
    let mut app = TodoApp::new();
    app.register("alice".to_string(), "pw".to_string()).unwrap();
    assert_eq!(app.login("alice".to_string(), "pw".to_string()), Ok(()));
    assert_eq!(app.current_account(), Some("alice".to_string()));
    app.logout();
    assert!(app.current_account().is_none());
}

#[test]
fn add_then_list_shows_exactly_one_task() {
    let mut app = TodoApp::new();
    app.register("bob".to_string(), "pw".to_string()).unwrap();
    app.login("bob".to_string(), "pw".to_string()).unwrap();
    let id = app.add_task_at("T".to_string(), "D".to_string(), 100).unwrap();
    assert_eq!(id, 1);
    let tasks = app.list_tasks().unwrap();
    assert_eq!(tasks.len(), 1);
    assert_eq!(tasks[0].id, 1);
    assert_eq!(tasks[0].title, "T");
    assert_eq!(tasks[0].description, "D");
    assert!(!tasks[0].completed);
    assert_eq!(tasks[0].created_at, 100);
    assert_eq!(tasks[0].owner, "bob");
}

#[test]
fn operations_require_authentication() {
    let mut app = TodoApp::new();
    assert_eq!(
        app.add_task("t".to_string(), "d".to_string()),
        Err(TaskError::NotAuthenticated)
    );
    assert!(matches!(app.list_tasks(), Err(TaskError::NotAuthenticated)));
    assert_eq!(app.complete_task(1), Err(TaskError::NotAuthenticated));
    assert_eq!(
        app.edit_task(1, "t".to_string(), "d".to_string()),
        Err(TaskError::NotAuthenticated)
    );
    assert_eq!(app.delete_task(1), Err(TaskError::NotAuthenticated));
}

#[test]
fn complete_by_another_account_is_not_authorized() {
    let mut app = TodoApp::new();
    app.register("alice".to_string(), "a".to_string()).unwrap();
    app.register("bob".to_string(), "b".to_string()).unwrap();
    app.login("alice".to_string(), "a".to_string()).unwrap();
    let id = app.add_task_at("hers".to_string(), "".to_string(), 7).unwrap();
    app.logout();
    app.login("bob".to_string(), "b".to_string()).unwrap();
    assert_eq!(app.complete_task(id), Err(TaskError::NotAuthorized));
    assert_eq!(
        app.edit_task(id, "x".to_string(), "y".to_string()),
        Err(TaskError::NotAuthorized)
    );
    assert_eq!(app.delete_task(id), Err(TaskError::NotAuthorized));
    app.logout();
    app.login("alice".to_string(), "a".to_string()).unwrap();
    let tasks = app.list_tasks().unwrap();
    assert_eq!(tasks.len(), 1);
    assert!(!tasks[0].completed);
    assert_eq!(tasks[0].title, "hers");
}

#[test]
fn delete_missing_task_is_not_found() {
    let mut app = TodoApp::new();
    app.register("ann".to_string(), "p".to_string()).unwrap();
    app.login("ann".to_string(), "p".to_string()).unwrap();
    assert_eq!(app.delete_task(42), Err(TaskError::TaskNotFound));
    assert_eq!(app.complete_task(42), Err(TaskError::TaskNotFound));
    assert_eq!(
        app.edit_task(42, "t".to_string(), "d".to_string()),
        Err(TaskError::TaskNotFound)
    );
}

#[test]
fn complete_and_edit_change_only_their_fields() {
    let mut app = TodoApp::new();
    app.register("ann".to_string(), "p".to_string()).unwrap();
    app.login("ann".to_string(), "p".to_string()).unwrap();
    let id = app.add_task_at("old title".to_string(), "old desc".to_string(), 55).unwrap();
    assert_eq!(app.complete_task(id), Ok(()));
    let tasks = app.list_tasks().unwrap();
    assert!(tasks[0].completed);
    assert_eq!(tasks[0].title, "old title");
    assert_eq!(app.edit_task(id, "new title".to_string(), "new desc".to_string()), Ok(()));
    let tasks = app.list_tasks().unwrap();
    assert_eq!(tasks[0].title, "new title");
    assert_eq!(tasks[0].description, "new desc");
    assert!(tasks[0].completed);
    assert_eq!(tasks[0].created_at, 55);
    assert_eq!(tasks[0].owner, "ann");
}

#[test]
fn delete_removes_the_task() {
    let mut app = TodoApp::new();
    app.register("ann".to_string(), "p".to_string()).unwrap();
    app.login("ann".to_string(), "p".to_string()).unwrap();
    let id1 = app.add_task_at("one".to_string(), "".to_string(), 1).unwrap();
    let id2 = app.add_task_at("two".to_string(), "".to_string(), 2).unwrap();
    assert_eq!(app.delete_task(id1), Ok(()));
    let tasks = app.list_tasks().unwrap();
    assert_eq!(tasks.len(), 1);
    assert_eq!(tasks[0].id, id2);
    assert_eq!(app.delete_task(id1), Err(TaskError::TaskNotFound));
}

#[test]
fn ids_grow_monotonically_after_delete() {
    let mut app = TodoApp::new();
    app.register("ann".to_string(), "p".to_string()).unwrap();
    app.login("ann".to_string(), "p".to_string()).unwrap();
    let id1 = app.add_task_at("one".to_string(), "".to_string(), 1).unwrap();
    let id2 = app.add_task_at("two".to_string(), "".to_string(), 2).unwrap();
    app.delete_task(id2).unwrap();
    let id3 = app.add_task_at("three".to_string(), "".to_string(), 3).unwrap();
    assert_eq!((id1, id2, id3), (1, 2, 3));
}

#[test]
fn end_to_end_scenario() {
    let mut app = TodoApp::new();
    assert_eq!(app.register("bob".to_string(), "pw1".to_string()), Ok(()));
    assert_eq!(app.login("bob".to_string(), "pw1".to_string()), Ok(()));
    let id1 = app.add_task("Buy milk".to_string(), "2%".to_string()).unwrap();
    assert_eq!(id1, 1);
    let id2 = app.add_task("Pay bills".to_string(), "".to_string()).unwrap();
    assert_eq!(id2, 2);
    assert_eq!(app.complete_task(1), Ok(()));
    let tasks = app.list_tasks().unwrap();
    assert_eq!(tasks.len(), 2);
    let t1 = tasks.iter().find(|t| t.id == 1).unwrap();
    let t2 = tasks.iter().find(|t| t.id == 2).unwrap();
    assert_eq!(t1.title, "Buy milk");
    assert_eq!(t1.description, "2%");
    assert!(t1.completed);
    assert_eq!(t2.title, "Pay bills");
    assert_eq!(t2.description, "");
    assert!(!t2.completed);
    app.logout();
    assert_eq!(
        app.login("bob".to_string(), "wrongpw".to_string()),
        Err(LoginError::InvalidCredentials)
    );
}
