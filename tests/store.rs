use task_db::snapshot::restore;
use task_db::snapshot::from_snapshot;
use task_db::{Snapshot, SnapshotError, Task, User, DB};

fn task(id: u64, name: &str, completed: bool) -> Task {
    Task { id, name: name.to_string(), completed }
}

fn user(id: u64, username: &str, password: &str) -> User {
    User { id, username: username.to_string(), password: password.to_string() }
}

fn same_task(a: &Task, b: &Task) -> bool {
    a.id == b.id && a.name == b.name && a.completed == b.completed
}

fn same_user(a: &User, b: &User) -> bool {
    a.id == b.id && a.username == b.username && a.password == b.password
}

#[test]
fn new_store_is_empty() {
    let db = DB::new();
    assert_eq!(db.task_count(), 0);
    assert_eq!(db.user_count(), 0);
    assert!(db.get_all().is_empty());
    assert!(db.get(&1).is_none());
}

#[test]
fn insert_then_get_returns_the_task() {
    let mut db = DB::new();
    db.insert(task(7, "write report", false));
    let got = db.get(&7).expect("task 7 is stored");
    assert!(same_task(got, &task(7, "write report", false)));
    assert!(db.get(&8).is_none());
}

#[test]
fn second_insert_with_same_id_overwrites() {
    let mut db = DB::new();
    db.insert(task(3, "first", false));
    db.insert(task(3, "second", true));
    let got = db.get(&3).unwrap();
    assert!(same_task(got, &task(3, "second", true)));
    assert_eq!(db.task_count(), 1);
}

#[test]
fn delete_of_absent_id_changes_nothing() {
    let mut db = DB::new();
    db.insert(task(1, "a", false));
    db.delete(&99);
    assert_eq!(db.task_count(), 1);
    assert_eq!(db.get_all().len(), 1);
    assert!(db.get(&1).is_some());
}

#[test]
fn delete_removes_the_task() {
    let mut db = DB::new();
    db.insert(task(1, "a", false));
    db.insert(task(2, "b", false));
    db.delete(&1);
    assert!(db.get(&1).is_none());
    assert!(db.get(&2).is_some());
    assert_eq!(db.task_count(), 1);
}

#[test]
fn get_all_length_after_inserts_and_deletes() {
    let mut db = DB::new();
    for id in 0..10u64 {
        db.insert(task(id, "t", id % 2 == 0));
    }
    for id in [2u64, 5, 9] {
        db.delete(&id);
    }
    let all = db.get_all();
    assert_eq!(all.len(), 7);
    let mut ids: Vec<u64> = all.iter().map(|t| t.id).collect();
    ids.sort();
    assert_eq!(ids, vec![0, 1, 3, 4, 6, 7, 8]);
}

#[test]
fn update_marks_task_completed() {
    let mut db = DB::new();
    db.insert(task(1, "buy milk", false));
    db.update(task(1, "buy milk", true));
    let got = db.get(&1).unwrap();
    assert!(got.completed);
    assert_eq!(got.name, "buy milk");
    assert_eq!(db.get_all().len(), 1);
}

#[test]
fn update_of_unknown_id_inserts() {
    let mut db = DB::new();
    db.update(task(4, "new", false));
    assert!(same_task(db.get(&4).unwrap(), &task(4, "new", false)));
}

#[test]
fn get_user_by_name_finds_the_user() {
    let mut db = DB::new();
    db.insert_user(user(1, "alice", "secret"));
    db.insert_user(user(2, "bob", "hunter2"));
    assert!(same_user(db.get_user_by_name("bob").unwrap(), &user(2, "bob", "hunter2")));
    assert!(db.get_user_by_name("carol").is_none());
    assert!(db.get_user_by_name("").is_none());
}

#[test]
fn insert_user_with_same_id_overwrites() {
    let mut db = DB::new();
    db.insert_user(user(1, "alice", "old"));
    db.insert_user(user(1, "alice", "new"));
    assert_eq!(db.user_count(), 1);
    assert_eq!(db.get_user_by_name("alice").unwrap().password, "new");
}

#[test]
fn login_accepts_only_matching_credentials() {
    let mut db = DB::new();
    db.insert_user(user(1, "alice", "secret"));
    assert!(db.check_login("alice", "secret"));
    let wrong_password = db.check_login("alice", "wrong");
    let unknown_user = db.check_login("bob", "secret");
    assert!(!wrong_password);
    assert!(!unknown_user);
    assert_eq!(wrong_password, unknown_user);
}

#[test]
fn login_compares_passwords_exactly() {
    let mut db = DB::new();
    db.insert_user(user(1, "alice", "secret"));
    assert!(!db.check_login("alice", "Secret"));
    assert!(!db.check_login("alice", "secret "));
    assert!(!db.check_login("Alice", "secret"));
}

#[test]
fn snapshot_round_trip_restores_the_same_store() {
    let mut db = DB::new();
    db.insert(task(1, "buy milk", false));
    db.insert(task(2, "walk dog", true));
    db.insert_user(user(10, "alice", "secret"));
    let snap = db.to_snapshot();
    assert_eq!(snap.tasks.len(), 2);
    assert_eq!(snap.users.len(), 1);
    for (k, t) in snap.tasks.iter() {
        assert_eq!(*k, t.id);
    }
    let back = from_snapshot(&snap).expect("a snapshot of a store is valid");
    assert_eq!(back.task_count(), 2);
    assert_eq!(back.user_count(), 1);
    assert!(same_task(back.get(&1).unwrap(), &task(1, "buy milk", false)));
    assert!(same_task(back.get(&2).unwrap(), &task(2, "walk dog", true)));
    assert!(same_user(back.get_user_by_name("alice").unwrap(), &user(10, "alice", "secret")));
}

#[test]
fn snapshot_of_empty_store_is_empty() {
    let db = DB::new();
    let snap = db.to_snapshot();
    assert!(snap.tasks.is_empty());
    assert!(snap.users.is_empty());
    let back = from_snapshot(&snap).unwrap();
    assert_eq!(back.task_count(), 0);
}

#[test]
fn snapshot_with_mismatched_task_key_is_refused() {
    let snap = Snapshot { tasks: vec![(5, task(3, "x", false))], users: vec![] };
    assert_eq!(from_snapshot(&snap).err(), Some(SnapshotError::MismatchedKey));
}

#[test]
fn snapshot_with_mismatched_user_key_is_refused() {
    let snap = Snapshot { tasks: vec![], users: vec![(2, user(1, "alice", "secret"))] };
    assert_eq!(from_snapshot(&snap).err(), Some(SnapshotError::MismatchedKey));
}

#[test]
fn snapshot_with_repeated_key_is_refused() {
    let snap = Snapshot {
        tasks: vec![(1, task(1, "a", false)), (1, task(1, "b", true))],
        users: vec![],
    };
    assert_eq!(from_snapshot(&snap).err(), Some(SnapshotError::RepeatedKey));
    let snap = Snapshot {
        tasks: vec![],
        users: vec![(4, user(4, "a", "p")), (4, user(4, "b", "q"))],
    };
    assert_eq!(from_snapshot(&snap).err(), Some(SnapshotError::RepeatedKey));
}

#[test]
fn restore_without_snapshot_gives_empty_store() {
    let db = restore(None);
    assert_eq!(db.task_count(), 0);
    assert_eq!(db.user_count(), 0);
}

#[test]
fn restore_of_invalid_snapshot_gives_empty_store() {
    let snap = Snapshot {
        tasks: vec![(1, task(1, "kept?", false)), (2, task(9, "bad", false))],
        users: vec![(1, user(1, "alice", "secret"))],
    };
    let db = restore(Some(snap));
    assert_eq!(db.task_count(), 0);
    assert_eq!(db.user_count(), 0);
}

#[test]
fn restore_of_valid_snapshot_keeps_its_content() {
    let snap = Snapshot {
        tasks: vec![(1, task(1, "buy milk", true))],
        users: vec![(1, user(1, "alice", "secret"))],
    };
    let db = restore(Some(snap));
    assert!(same_task(db.get(&1).unwrap(), &task(1, "buy milk", true)));
    assert!(db.check_login("alice", "secret"));
}

#[test]
fn clone_keeps_every_field() {
    let t = task(5, "copy me", true);
    assert!(same_task(&t.clone(), &t));
    let u = user(6, "dave", "pw");
    assert!(same_user(&u.clone(), &u));
}
