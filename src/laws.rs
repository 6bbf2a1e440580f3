//! Laws that relate the store's operations, stated over the maps that their
//! contracts speak of.

use vstd::prelude::*;

use crate::record::Task;
use crate::snapshot::Snapshot;
use crate::store::{tasks_keyed_by_id, users_keyed_by_id, StoreState};

verus! {

/// The task map after inserting `ts` into `m` in order.
pub open spec fn insert_tasks(m: Map<u64, Task>, ts: Seq<Task>) -> Map<u64, Task>
    decreases ts.len(),
{
    if ts.len() == 0 {
        m
    } else {
        insert_tasks(m, ts.drop_last()).insert(ts.last().id, ts.last())
    }
}

/// The task map after deleting the ids `ids` from `m` in order.
pub open spec fn delete_ids(m: Map<u64, Task>, ids: Seq<u64>) -> Map<u64, Task>
    decreases ids.len(),
{
    if ids.len() == 0 {
        m
    } else {
        delete_ids(m, ids.drop_last()).remove(ids.last())
    }
}

/// No two tasks of `ts` share an id.
pub open spec fn distinct_ids(ts: Seq<Task>) -> bool {
    forall|i: int, j: int| 0 <= i < j < ts.len() ==> (#[trigger] ts[i]).id != (#[trigger] ts[j]).id
}

/// A task inserted under an id that was absent is then found under that id.
pub proof fn lemma_insert_then_get(before: StoreState, t: Task)
    requires
        !before.tasks.contains_key(t.id),
    ensures
        before.tasks.insert(t.id, t).contains_key(t.id),
        before.tasks.insert(t.id, t)[t.id] == t,
{
}

/// Of two tasks inserted one after the other under the same id, the second
/// is the one found.
pub proof fn lemma_overwrite(before: StoreState, t1: Task, t2: Task)
    requires
        t1.id == t2.id,
    ensures
        before.tasks.insert(t1.id, t1).insert(t2.id, t2).contains_key(t2.id),
        before.tasks.insert(t1.id, t1).insert(t2.id, t2)[t2.id] == t2,
        before.tasks.insert(t1.id, t1).insert(t2.id, t2) == before.tasks.insert(t2.id, t2),
{
    assert(before.tasks.insert(t1.id, t1).insert(t2.id, t2) =~= before.tasks.insert(t2.id, t2));
}

/// Deleting an id that is absent leaves the tasks, and so their number,
/// unchanged.
pub proof fn lemma_delete_absent(before: StoreState, id: u64)
    requires
        !before.tasks.contains_key(id),
    ensures
        before.tasks.remove(id) == before.tasks,
        before.tasks.remove(id).len() == before.tasks.len(),
{
    assert(before.tasks.remove(id) =~= before.tasks);
}

proof fn lemma_insert_tasks_len(ts: Seq<Task>)
    requires
        distinct_ids(ts),
    ensures
        insert_tasks(Map::empty(), ts).dom().finite(),
        insert_tasks(Map::empty(), ts).len() == ts.len(),
        forall|k: u64|
            #[trigger] insert_tasks(Map::empty(), ts).contains_key(k) <==> exists|i: int|
                0 <= i < ts.len() && (#[trigger] ts[i]).id == k,
    decreases ts.len(),
{
    if ts.len() > 0 {
        let front = ts.drop_last();
        assert(distinct_ids(front)) by {
            assert forall|i: int, j: int| 0 <= i < j < front.len() implies (#[trigger] front[i]).id
                != (#[trigger] front[j]).id by {
                assert(front[i] == ts[i] && front[j] == ts[j]);
            }
        }
        lemma_insert_tasks_len(front);
        let m = insert_tasks(Map::empty(), front);
        let last = ts.last();
        assert(!m.contains_key(last.id)) by {
            if m.contains_key(last.id) {
                let i = choose|i: int| 0 <= i < front.len() && (#[trigger] front[i]).id == last.id;
                assert(ts[i].id == ts[ts.len() - 1].id);
            }
        }
        assert(m.insert(last.id, last).dom() == m.dom().insert(last.id));
        assert forall|k: u64| #[trigger] m.insert(last.id, last).contains_key(k) implies exists|i: int|
            0 <= i < ts.len() && (#[trigger] ts[i]).id == k by {
            if k == last.id {
                assert(ts[ts.len() - 1].id == k);
            } else {
                let i = choose|i: int| 0 <= i < front.len() && (#[trigger] front[i]).id == k;
                assert(ts[i].id == k);
            }
        }
        assert forall|k: u64| (exists|i: int| 0 <= i < ts.len() && (#[trigger] ts[i]).id == k)
            implies #[trigger] m.insert(last.id, last).contains_key(k) by {
            let i = choose|i: int| 0 <= i < ts.len() && (#[trigger] ts[i]).id == k;
            if i < ts.len() - 1 {
                assert(front[i].id == k);
            }
        }
    }
}

proof fn lemma_delete_ids_len(m: Map<u64, Task>, ids: Seq<u64>)
    requires
        m.dom().finite(),
        ids.no_duplicates(),
        forall|i: int| 0 <= i < ids.len() ==> m.contains_key(#[trigger] ids[i]),
    ensures
        delete_ids(m, ids).dom().finite(),
        delete_ids(m, ids).len() == m.len() - ids.len(),
        forall|k: u64|
            #[trigger] delete_ids(m, ids).contains_key(k) <==> m.contains_key(k) && !ids.contains(k),
    decreases ids.len(),
{
    if ids.len() > 0 {
        let front = ids.drop_last();
        let last = ids.last();
        assert forall|i: int| 0 <= i < front.len() implies m.contains_key(#[trigger] front[i]) by {
            assert(front[i] == ids[i]);
        }
        lemma_delete_ids_len(m, front);
        let d = delete_ids(m, front);
        assert(!front.contains(last)) by {
            if front.contains(last) {
                let i = choose|i: int| 0 <= i < front.len() && front[i] == last;
                assert(ids[i] == ids[ids.len() - 1]);
            }
        }
        assert(m.contains_key(ids[ids.len() - 1]));
        assert(d.contains_key(last));
        assert(d.remove(last).dom() == d.dom().remove(last));
        assert forall|k: u64| #[trigger] d.remove(last).contains_key(k) <==> m.contains_key(k)
            && !ids.contains(k) by {
            if ids.contains(k) && k != last {
                let i = choose|i: int| 0 <= i < ids.len() && ids[i] == k;
                assert(front[i] == k);
            }
            if front.contains(k) {
                let i = choose|i: int| 0 <= i < front.len() && front[i] == k;
                assert(ids[i] == k);
            }
        }
    }
}

/// Starting from an empty store, after inserting `n` tasks with distinct ids
/// and then deleting `m` distinct ids among them, `m` fewer than `n` tasks are
/// stored.
pub proof fn lemma_size_after_inserts_and_deletes(ts: Seq<Task>, ids: Seq<u64>)
    requires
        distinct_ids(ts),
        ids.no_duplicates(),
        forall|j: int| 0 <= j < ids.len() ==> exists|i: int| 0 <= i < ts.len() && (#[trigger] ts[i]).id == #[trigger] ids[j],
    ensures
        delete_ids(insert_tasks(Map::empty(), ts), ids).len() == ts.len() - ids.len(),
{
    lemma_insert_tasks_len(ts);
    let m = insert_tasks(Map::empty(), ts);
    assert forall|j: int| 0 <= j < ids.len() implies m.contains_key(#[trigger] ids[j]) by {
        let i = choose|i: int| 0 <= i < ts.len() && (#[trigger] ts[i]).id == ids[j];
    }
    lemma_delete_ids_len(m, ids);
}

/// A snapshot of a well-formed store is valid, and the only content it
/// describes is that store's: restoring what was saved gives back the same
/// tasks and users.
pub proof fn lemma_save_then_load(saved: StoreState, s: Snapshot, loaded: StoreState)
    requires
        tasks_keyed_by_id(saved.tasks),
        users_keyed_by_id(saved.users),
        s.describes(saved),
        s.describes(loaded),
    ensures
        loaded == saved,
{
    assert(loaded.tasks =~= saved.tasks) by {
        assert forall|k: u64| #[trigger] loaded.tasks.contains_key(k) implies saved.tasks.contains_key(k) by {
            let i = choose|i: int| 0 <= i < s.tasks@.len() && (#[trigger] s.tasks@[i]).0 == k;
        }
        assert forall|k: u64| #[trigger] saved.tasks.contains_key(k) implies loaded.tasks.contains_key(k)
            && loaded.tasks[k] == saved.tasks[k] by {
            let i = choose|i: int| 0 <= i < s.tasks@.len() && (#[trigger] s.tasks@[i]).0 == k;
        }
    }
    assert(loaded.users =~= saved.users) by {
        assert forall|k: u64| #[trigger] loaded.users.contains_key(k) implies saved.users.contains_key(k) by {
            let i = choose|i: int| 0 <= i < s.users@.len() && (#[trigger] s.users@[i]).0 == k;
        }
        assert forall|k: u64| #[trigger] saved.users.contains_key(k) implies loaded.users.contains_key(k)
            && loaded.users[k] == saved.users[k] by {
            let i = choose|i: int| 0 <= i < s.users@.len() && (#[trigger] s.users@[i]).0 == k;
        }
    }
}

} // verus!
