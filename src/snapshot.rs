//! Snapshots: the store's content as plain lists of (key, entity) entries,
//! the shape in which it is persisted. Taking a snapshot and restoring one
//! are exact inverses; a snapshot whose keys disagree with the entities'
//! ids, or repeat, is refused as a whole.

use vstd::prelude::*;
use vstd::std_specs::hash::group_hash_axioms;

use crate::record::{Task, User};
use crate::store::{StoreState, DB};

verus! {

broadcast use group_hash_axioms;

/// The store's content as lists of entries, each a key and the entity stored
/// under it.
#[derive(Debug)]
pub struct Snapshot {
    pub tasks: Vec<(u64, Task)>,
    pub users: Vec<(u64, User)>,
}

/// Why a snapshot cannot become a store.
#[derive(PartialEq, Eq, Structural, Debug, Clone, Copy)]
pub enum SnapshotError {
    /// An entry's key is not the id of its entity.
    MismatchedKey,
    /// Two entries of one list have the same key.
    RepeatedKey,
}

/// Every key is its entity's id, and no key occurs twice.
pub open spec fn task_entries_valid(s: Seq<(u64, Task)>) -> bool {
    &&& forall|i: int| 0 <= i < s.len() ==> (#[trigger] s[i]).0 == s[i].1.id
    &&& forall|i: int, j: int| 0 <= i < j < s.len() ==> (#[trigger] s[i]).0 != (#[trigger] s[j]).0
}

/// Every key is its entity's id, and no key occurs twice.
pub open spec fn user_entries_valid(s: Seq<(u64, User)>) -> bool {
    &&& forall|i: int| 0 <= i < s.len() ==> (#[trigger] s[i]).0 == s[i].1.id
    &&& forall|i: int, j: int| 0 <= i < j < s.len() ==> (#[trigger] s[i]).0 != (#[trigger] s[j]).0
}

/// The entries list exactly the map: one entry per key, each with the
/// map's entity for that key.
pub open spec fn task_entries_list(s: Seq<(u64, Task)>, m: Map<u64, Task>) -> bool {
    &&& s.len() == m.len()
    &&& forall|i: int| 0 <= i < s.len() ==> m.contains_key((#[trigger] s[i]).0) && m[s[i].0] == s[i].1
    &&& forall|k: u64| #[trigger] m.contains_key(k) ==> exists|i: int| 0 <= i < s.len() && (#[trigger] s[i]).0 == k
}

/// The entries list exactly the map: one entry per key, each with the
/// map's entity for that key.
pub open spec fn user_entries_list(s: Seq<(u64, User)>, m: Map<u64, User>) -> bool {
    &&& s.len() == m.len()
    &&& forall|i: int| 0 <= i < s.len() ==> m.contains_key((#[trigger] s[i]).0) && m[s[i].0] == s[i].1
    &&& forall|k: u64| #[trigger] m.contains_key(k) ==> exists|i: int| 0 <= i < s.len() && (#[trigger] s[i]).0 == k
}

impl Snapshot {
    /// Both lists are valid.
    pub open spec fn valid(&self) -> bool {
        task_entries_valid(self.tasks@) && user_entries_valid(self.users@)
    }

    /// The snapshot lists exactly the content `v`.
    pub open spec fn describes(&self, v: StoreState) -> bool {
        task_entries_list(self.tasks@, v.tasks) && user_entries_list(self.users@, v.users)
    }
}

/// Some entry's key is not the id of its entity.
pub open spec fn task_key_mismatch(s: Seq<(u64, Task)>) -> bool {
    exists|i: int| 0 <= i < s.len() && (#[trigger] s[i]).0 != s[i].1.id
}

/// Some entry's key is not the id of its entity.
pub open spec fn user_key_mismatch(s: Seq<(u64, User)>) -> bool {
    exists|i: int| 0 <= i < s.len() && (#[trigger] s[i]).0 != s[i].1.id
}

/// Two entries have the same key.
pub open spec fn task_key_repeated(s: Seq<(u64, Task)>) -> bool {
    exists|i: int, j: int| 0 <= i < j < s.len() && (#[trigger] s[i]).0 == (#[trigger] s[j]).0
}

/// Two entries have the same key.
pub open spec fn user_key_repeated(s: Seq<(u64, User)>) -> bool {
    exists|i: int, j: int| 0 <= i < j < s.len() && (#[trigger] s[i]).0 == (#[trigger] s[j]).0
}

/// Adds the task entries to a store that holds no task yet.
fn restore_tasks(db: &mut DB, entries: &Vec<(u64, Task)>) -> (r: Result<(), SnapshotError>)
    requires
        old(db).wf(),
        old(db)@.tasks == Map::<u64, Task>::empty(),
    ensures
        final(db).wf(),
        final(db)@.users == old(db)@.users,
        r is Ok <==> task_entries_valid(entries@),
        r is Ok ==> task_entries_list(entries@, final(db)@.tasks),
        r == Err::<(), SnapshotError>(SnapshotError::MismatchedKey) ==> task_key_mismatch(entries@),
        r == Err::<(), SnapshotError>(SnapshotError::RepeatedKey) ==> task_key_repeated(entries@),
{
    let n = entries.len();
    let mut i: usize = 0;
    assert(entries@.subrange(0, 0) =~= Seq::<(u64, Task)>::empty());
    while i < n
        invariant
            n == entries@.len(),
            i <= n,
            db.wf(),
            db@.users == old(db)@.users,
            task_entries_valid(entries@.subrange(0, i as int)),
            task_entries_list(entries@.subrange(0, i as int), db@.tasks),
        decreases n - i,
    {
        let ghost prefix = entries@.subrange(0, i as int);
        let ghost before = db@.tasks;
        let key = entries[i].0;
        let task = entries[i].1.clone();
        if key != task.id {
            assert(entries@[i as int].0 != entries@[i as int].1.id);
            assert(!task_entries_valid(entries@));
            return Err(SnapshotError::MismatchedKey);
        }
        let count = db.task_count();
        db.insert(task);
        if db.task_count() == count {
            proof {
                assert(before.contains_key(key)) by {
                    if !before.contains_key(key) {
                        assert(before.insert(key, entries@[i as int].1).dom() == before.dom().insert(key));
                    }
                }
                let j = choose|j: int| 0 <= j < prefix.len() && (#[trigger] prefix[j]).0 == key;
                assert(entries@[j].0 == entries@[i as int].0);
                assert(task_key_repeated(entries@));
            }
            return Err(SnapshotError::RepeatedKey);
        }
        proof {
            let next = entries@.subrange(0, i + 1);
            assert(next == prefix.push(entries@[i as int]));
            assert(!before.contains_key(key));
            assert(db@.tasks.dom() == before.dom().insert(key));
            assert forall|j: int| 0 <= j < next.len() implies db@.tasks.contains_key(
                (#[trigger] next[j]).0,
            ) && db@.tasks[next[j].0] == next[j].1 by {
                if j < prefix.len() {
                    assert(next[j] == prefix[j]);
                    assert(before.contains_key(prefix[j].0));
                }
            }
            assert forall|k: u64| #[trigger] db@.tasks.contains_key(k) implies exists|j: int|
                0 <= j < next.len() && (#[trigger] next[j]).0 == k by {
                if k == key {
                    assert(next[i as int].0 == k);
                } else {
                    assert(before.contains_key(k));
                    let j = choose|j: int| 0 <= j < prefix.len() && (#[trigger] prefix[j]).0 == k;
                    assert(next[j].0 == k);
                }
            }
            assert forall|a: int, b: int| 0 <= a < b < next.len() implies (#[trigger] next[a]).0
                != (#[trigger] next[b]).0 by {
                if b == i {
                    assert(before.contains_key(prefix[a].0));
                } else {
                    assert(next[a] == prefix[a] && next[b] == prefix[b]);
                }
            }
        }
        i = i + 1;
    }
    assert(entries@.subrange(0, n as int) == entries@);
    Ok(())
}

/// Adds the user entries to a store that holds no user yet.
fn restore_users(db: &mut DB, entries: &Vec<(u64, User)>) -> (r: Result<(), SnapshotError>)
    requires
        old(db).wf(),
        old(db)@.users == Map::<u64, User>::empty(),
    ensures
        final(db).wf(),
        final(db)@.tasks == old(db)@.tasks,
        r is Ok <==> user_entries_valid(entries@),
        r is Ok ==> user_entries_list(entries@, final(db)@.users),
        r == Err::<(), SnapshotError>(SnapshotError::MismatchedKey) ==> user_key_mismatch(entries@),
        r == Err::<(), SnapshotError>(SnapshotError::RepeatedKey) ==> user_key_repeated(entries@),
{
    let n = entries.len();
    let mut i: usize = 0;
    assert(entries@.subrange(0, 0) =~= Seq::<(u64, User)>::empty());
    while i < n
        invariant
            n == entries@.len(),
            i <= n,
            db.wf(),
            db@.tasks == old(db)@.tasks,
            user_entries_valid(entries@.subrange(0, i as int)),
            user_entries_list(entries@.subrange(0, i as int), db@.users),
        decreases n - i,
    {
        let ghost prefix = entries@.subrange(0, i as int);
        let ghost before = db@.users;
        let key = entries[i].0;
        let user = entries[i].1.clone();
        if key != user.id {
            assert(entries@[i as int].0 != entries@[i as int].1.id);
            assert(!user_entries_valid(entries@));
            return Err(SnapshotError::MismatchedKey);
        }
        let count = db.user_count();
        db.insert_user(user);
        if db.user_count() == count {
            proof {
                assert(before.contains_key(key)) by {
                    if !before.contains_key(key) {
                        assert(before.insert(key, entries@[i as int].1).dom() == before.dom().insert(key));
                    }
                }
                let j = choose|j: int| 0 <= j < prefix.len() && (#[trigger] prefix[j]).0 == key;
                assert(entries@[j].0 == entries@[i as int].0);
                assert(user_key_repeated(entries@));
            }
            return Err(SnapshotError::RepeatedKey);
        }
        proof {
            let next = entries@.subrange(0, i + 1);
            assert(next == prefix.push(entries@[i as int]));
            assert(!before.contains_key(key));
            assert(db@.users.dom() == before.dom().insert(key));
            assert forall|j: int| 0 <= j < next.len() implies db@.users.contains_key(
                (#[trigger] next[j]).0,
            ) && db@.users[next[j].0] == next[j].1 by {
                if j < prefix.len() {
                    assert(next[j] == prefix[j]);
                    assert(before.contains_key(prefix[j].0));
                }
            }
            assert forall|k: u64| #[trigger] db@.users.contains_key(k) implies exists|j: int|
                0 <= j < next.len() && (#[trigger] next[j]).0 == k by {
                if k == key {
                    assert(next[i as int].0 == k);
                } else {
                    assert(before.contains_key(k));
                    let j = choose|j: int| 0 <= j < prefix.len() && (#[trigger] prefix[j]).0 == k;
                    assert(next[j].0 == k);
                }
            }
            assert forall|a: int, b: int| 0 <= a < b < next.len() implies (#[trigger] next[a]).0
                != (#[trigger] next[b]).0 by {
                if b == i {
                    assert(before.contains_key(prefix[a].0));
                } else {
                    assert(next[a] == prefix[a] && next[b] == prefix[b]);
                }
            }
        }
        i = i + 1;
    }
    assert(entries@.subrange(0, n as int) == entries@);
    Ok(())
}

/// A store with exactly the snapshot's content, or the reason why the
/// snapshot describes no store.
pub fn from_snapshot(snapshot: &Snapshot) -> (r: Result<DB, SnapshotError>)
    ensures
        r is Ok <==> snapshot.valid(),
        r matches Ok(db) ==> db.wf() && snapshot.describes(db@),
        r == Err::<DB, SnapshotError>(SnapshotError::MismatchedKey) ==> task_key_mismatch(
            snapshot.tasks@,
        ) || user_key_mismatch(snapshot.users@),
        r == Err::<DB, SnapshotError>(SnapshotError::RepeatedKey) ==> task_key_repeated(
            snapshot.tasks@,
        ) || user_key_repeated(snapshot.users@),
{
    let mut db = DB::new();
    match restore_tasks(&mut db, &snapshot.tasks) {
        Ok(()) => {},
        Err(e) => {
            return Err(e);
        },
    }
    match restore_users(&mut db, &snapshot.users) {
        Ok(()) => Ok(db),
        Err(e) => Err(e),
    }
}

/// The store to start from: the snapshot's content where a snapshot was read
/// and is valid, and an empty store otherwise.
pub fn restore(loaded: Option<Snapshot>) -> (r: DB)
    ensures
        r.wf(),
        loaded is Some && loaded->0.valid() ==> loaded->0.describes(r@),
        !(loaded is Some && loaded->0.valid()) ==> r@.tasks == Map::<u64, Task>::empty()
            && r@.users == Map::<u64, User>::empty(),
{
    match loaded {
        Some(s) => match from_snapshot(&s) {
            Ok(db) => db,
            Err(_) => DB::new(),
        },
        None => DB::new(),
    }
}

} // verus!
