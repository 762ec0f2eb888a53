use task_db::auth::{check_password, login, LoginOutcome};
use task_db::model::{Task, User};
use task_db::snapshot::Snapshot;
use task_db::store::Database;

fn task(id: u64, name: &str, completed: bool) -> Task {
    Task::new(id, name.to_string(), completed)
}

fn user(id: u64, username: &str, password: &str) -> User {
    User::new(id, username.to_string(), password.to_string())
}

#[test]
fn new_store_is_empty() {
    let db = Database::new();
    assert!(db.get_all_tasks().is_empty());
    assert!(db.get_all_users().is_empty());
    assert!(db.get_task(&0).is_none());
    assert!(db.get_user(&0).is_none());
}

#[test]
fn upsert_same_task_twice_keeps_one() {
    let mut db = Database::new();
    db.insert_or_update_task(task(3, "write", false));
    assert_eq!(db.get_all_tasks().len(), 1);
    db.insert_or_update_task(task(3, "write", false));
    let all = db.get_all_tasks();
    assert_eq!(all.len(), 1);
    assert_eq!(all[0].id, 3);
    assert_eq!(all[0].name, "write");
    assert!(!all[0].completed);
}

#[test]
fn upsert_overwrites_existing_id() {
    let mut db = Database::new();
    db.insert_or_update_task(task(1, "a", false));
    db.insert_or_update_task(task(1, "b", true));
    assert_eq!(db.get_all_tasks().len(), 1);
    let t = db.get_task(&1).unwrap();
    assert_eq!(t.name, "b");
    assert!(t.completed);
}

#[test]
fn delete_missing_reports_absence_twice() {
    let mut db = Database::new();
    assert!(db.delete_task(&5).is_none());
    db.insert_or_update_task(task(5, "five", false));
    let removed = db.delete_task(&5).unwrap();
    assert_eq!(removed.name, "five");
    assert!(db.delete_task(&5).is_none());
    assert!(db.get_task(&5).is_none());
}

#[test]
fn delete_task_leaves_others() {
    let mut db = Database::new();
    db.insert_or_update_task(task(1, "one", false));
    db.insert_or_update_task(task(2, "two", true));
    db.insert_or_update_user(user(1, "alice", "secret"));
    assert_eq!(db.delete_task(&1).unwrap().id, 1);
    assert_eq!(db.get_all_tasks().len(), 1);
    assert_eq!(db.get_task(&2).unwrap().name, "two");
    assert_eq!(db.get_all_users().len(), 1);
}

#[test]
fn users_upsert_get_delete() {
    let mut db = Database::new();
    assert!(db.delete_user(&1).is_none());
    db.insert_or_update_user(user(1, "alice", "secret"));
    db.insert_or_update_user(user(1, "alice", "changed"));
    assert_eq!(db.get_all_users().len(), 1);
    assert_eq!(db.get_user(&1).unwrap().password, "changed");
    assert_eq!(db.delete_user(&1).unwrap().username, "alice");
    assert!(db.get_user(&1).is_none());
    assert!(db.delete_user(&1).is_none());
}

#[test]
fn find_user_by_name() {
    let mut db = Database::new();
    db.insert_or_update_user(user(1, "alice", "secret"));
    db.insert_or_update_user(user(2, "bob", "hunter2"));
    assert_eq!(db.get_user_by_name("bob").unwrap().id, 2);
    assert_eq!(db.get_user_by_name("alice").unwrap().id, 1);
    assert!(db.get_user_by_name("carol").is_none());
    assert!(db.get_user_by_name("").is_none());
}

#[test]
fn find_user_by_name_with_duplicates_returns_one_of_them() {
    let mut db = Database::new();
    db.insert_or_update_user(user(1, "sam", "x"));
    db.insert_or_update_user(user(2, "sam", "y"));
    let found = db.get_user_by_name("sam").unwrap();
    assert_eq!(found.username, "sam");
    assert!(found.id == 1 || found.id == 2);
}

#[test]
fn login_success_and_uniform_failure() {
    let mut db = Database::new();
    db.insert_or_update_user(user(1, "alice", "secret"));
    assert_eq!(login(&db, "alice", "secret"), LoginOutcome::LoggedIn);
    let wrong_password = login(&db, "alice", "wrong");
    let unknown_user = login(&db, "bob", "anything");
    assert_eq!(wrong_password, LoginOutcome::InvalidCredentials);
    assert_eq!(unknown_user, LoginOutcome::InvalidCredentials);
    assert_eq!(wrong_password, unknown_user);
}

#[test]
fn login_password_compared_exactly() {
    let mut db = Database::new();
    db.insert_or_update_user(user(1, "alice", "secret"));
    assert_eq!(login(&db, "alice", "Secret"), LoginOutcome::InvalidCredentials);
    assert_eq!(login(&db, "alice", "secret "), LoginOutcome::InvalidCredentials);
    assert_eq!(login(&db, "alice", ""), LoginOutcome::InvalidCredentials);
}

#[test]
fn check_password_cases() {
    let u = user(7, "dana", "pw");
    assert_eq!(check_password(Some(&u), "pw"), LoginOutcome::LoggedIn);
    assert_eq!(check_password(Some(&u), "px"), LoginOutcome::InvalidCredentials);
    assert_eq!(check_password(None, "pw"), LoginOutcome::InvalidCredentials);
}

#[test]
fn snapshot_round_trip_keeps_tables() {
    let mut db = Database::new();
    db.insert_or_update_task(task(1, "first", false));
    db.insert_or_update_task(task(2, "second", true));
    db.insert_or_update_user(user(1, "alice", "secret"));
    let image = db.to_snapshot();
    assert_eq!(image.tasks.len(), 2);
    assert_eq!(image.users.len(), 1);
    let back = Database::from_snapshot(image);
    assert_eq!(back.get_all_tasks().len(), 2);
    assert_eq!(back.get_all_users().len(), 1);
    let t1 = back.get_task(&1).unwrap();
    assert_eq!((t1.id, t1.name.as_str(), t1.completed), (1, "first", false));
    let t2 = back.get_task(&2).unwrap();
    assert_eq!((t2.id, t2.name.as_str(), t2.completed), (2, "second", true));
    let u1 = back.get_user(&1).unwrap();
    assert_eq!((u1.id, u1.username.as_str(), u1.password.as_str()), (1, "alice", "secret"));
}

#[test]
fn snapshot_later_entry_wins() {
    let image = Snapshot {
        tasks: vec![(4, task(4, "old", false)), (4, task(4, "new", true))],
        users: vec![],
    };
    let db = Database::from_snapshot(image);
    assert_eq!(db.get_all_tasks().len(), 1);
    assert_eq!(db.get_task(&4).unwrap().name, "new");
}

#[test]
fn restore_without_image_is_empty() {
    let db = Database::restore(None);
    assert!(db.get_all_tasks().is_empty());
    assert!(db.get_all_users().is_empty());
}

#[test]
fn restore_with_image_uses_it() {
    let image = Snapshot { tasks: vec![(9, task(9, "nine", true))], users: vec![(2, user(2, "bo", "p"))] };
    let db = Database::restore(Some(image));
    assert_eq!(db.get_task(&9).unwrap().name, "nine");
    assert_eq!(db.get_user(&2).unwrap().username, "bo");
}

#[test]
fn distinct_upserts_are_all_kept() {
    let mut db = Database::new();
    let n: u64 = 50;
    let mut id = 0;
    while id < n {
        // interleave from both ends, as concurrent callers might be served
        let k = if id % 2 == 0 { id / 2 } else { n - 1 - id / 2 };
        db.insert_or_update_task(task(k, &format!("task {}", k), k % 3 == 0));
        id += 1;
    }
    assert_eq!(db.get_all_tasks().len(), n as usize);
    for k in 0..n {
        let t = db.get_task(&k).unwrap();
        assert_eq!(t.name, format!("task {}", k));
        assert_eq!(t.completed, k % 3 == 0);
    }
}

#[test]
fn largest_id_is_a_key() {
    let mut db = Database::new();
    db.insert_or_update_task(task(u64::MAX, "max", true));
    assert_eq!(db.get_task(&u64::MAX).unwrap().name, "max");
    assert!(db.delete_task(&u64::MAX).is_some());
}

#[test]
fn duplicate_copies_fields() {
    let t = task(2, "copy me", true);
    let c = t.duplicate();
    assert_eq!((c.id, c.name.as_str(), c.completed), (2, "copy me", true));
    let u = user(3, "u", "p");
    let d = u.duplicate();
    assert_eq!((d.id, d.username.as_str(), d.password.as_str()), (3, "u", "p"));
}
