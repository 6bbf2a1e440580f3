//! The store: tasks and users, each kept in a map keyed by the entity's own id.

use std::collections::HashMap;
use vstd::prelude::*;
use vstd::std_specs::hash::group_hash_axioms;
use vstd::std_specs::iter::IteratorSpec;

use crate::record::{Task, User};
use crate::snapshot::{task_entries_list, task_entries_valid, user_entries_list, user_entries_valid, Snapshot};

verus! {

broadcast use group_hash_axioms;

/// Every key of the task map is the id of the task stored under it.
pub open spec fn tasks_keyed_by_id(m: Map<u64, Task>) -> bool {
    forall|k: u64| #[trigger] m.contains_key(k) ==> m[k].id == k
}

/// Every key of the user map is the id of the user stored under it.
pub open spec fn users_keyed_by_id(m: Map<u64, User>) -> bool {
    forall|k: u64| #[trigger] m.contains_key(k) ==> m[k].id == k
}

/// Some user in `m` has the given username.
pub open spec fn has_username(m: Map<u64, User>, name: Seq<char>) -> bool {
    exists|k: u64| #[trigger] m.contains_key(k) && m[k].username@ == name
}

/// At most one user in `m` has the given username.
pub open spec fn username_unique(m: Map<u64, User>, name: Seq<char>) -> bool {
    forall|a: u64, b: u64|
        #[trigger] m.contains_key(a) && #[trigger] m.contains_key(b) && m[a].username@ == name
            && m[b].username@ == name ==> a == b
}

/// Some user in `m` has exactly this username and this password.
pub open spec fn credentials_known(m: Map<u64, User>, name: Seq<char>, password: Seq<char>) -> bool {
    exists|k: u64| #[trigger] m.contains_key(k) && m[k].username@ == name && m[k].password@ == password
}

/// The tasks and users of the store, as maps from id to entity.
pub struct StoreState {
    pub tasks: Map<u64, Task>,
    pub users: Map<u64, User>,
}

/// The store of tasks and users.
#[derive(Debug)]
pub struct DB {
    tasks: HashMap<u64, Task>,
    users: HashMap<u64, User>,
}

impl View for DB {
    type V = StoreState;

    closed spec fn view(&self) -> StoreState {
        StoreState { tasks: self.tasks@, users: self.users@ }
    }
}

impl DB {
    /// Each map is finite and keyed by the ids of the entities it holds.
    pub open spec fn wf(&self) -> bool {
        &&& self@.tasks.dom().finite()
        &&& self@.users.dom().finite()
        &&& tasks_keyed_by_id(self@.tasks)
        &&& users_keyed_by_id(self@.users)
    }

    /// An empty store.
    pub fn new() -> (r: DB)
        ensures
            r.wf(),
            r@.tasks == Map::<u64, Task>::empty(),
            r@.users == Map::<u64, User>::empty(),
    {
        DB { tasks: HashMap::new(), users: HashMap::new() }
    }

    /// Stores the task under its own id, replacing any task with that id.
    pub fn insert(&mut self, task: Task)
        requires
            old(self).wf(),
        ensures
            final(self).wf(),
            final(self)@.tasks == old(self)@.tasks.insert(task.id, task),
            final(self)@.users == old(self)@.users,
    {
        let id = task.id;
        self.tasks.insert(id, task);
    }

    /// The task with this id, if there is one.
    pub fn get(&self, id: &u64) -> (r: Option<&Task>)
        requires
            self.wf(),
        ensures
            match r {
                Some(t) => self@.tasks.contains_key(*id) && *t == self@.tasks[*id],
                None => !self@.tasks.contains_key(*id),
            },
    {
        self.tasks.get(id)
    }

    /// Removes the task with this id; does nothing if there is none.
    pub fn delete(&mut self, id: &u64)
        requires
            old(self).wf(),
        ensures
            final(self).wf(),
            final(self)@.tasks == old(self)@.tasks.remove(*id),
            final(self)@.users == old(self)@.users,
    {
        self.tasks.remove(id);
    }

    /// Stores the task under its own id: the same as `insert`, so an id that
    /// was absent gains a task.
    pub fn update(&mut self, task: Task)
        requires
            old(self).wf(),
        ensures
            final(self).wf(),
            final(self)@.tasks == old(self)@.tasks.insert(task.id, task),
            final(self)@.users == old(self)@.users,
    {
        let id = task.id;
        self.tasks.insert(id, task);
    }

    /// Stores the user under its own id, replacing any user with that id.
    /// Usernames are not checked for uniqueness.
    pub fn insert_user(&mut self, user: User)
        requires
            old(self).wf(),
        ensures
            final(self).wf(),
            final(self)@.users == old(self)@.users.insert(user.id, user),
            final(self)@.tasks == old(self)@.tasks,
    {
        let id = user.id;
        self.users.insert(id, user);
    }

    /// Every task of the store, once each, in no particular order.
    pub fn get_all(&self) -> (r: Vec<&Task>)
        requires
            self.wf(),
        ensures
            r@.len() == self@.tasks.len(),
            forall|i: int|
                0 <= i < r@.len() ==> self@.tasks.contains_key(#[trigger] r@[i].id)
                    && self@.tasks[r@[i].id] == *r@[i],
            forall|k: u64| #[trigger]
                self@.tasks.contains_key(k) ==> exists|i: int|
                    0 <= i < r@.len() && #[trigger] r@[i].id == k,
    {
        let mut r: Vec<&Task> = Vec::new();
        let values = self.tasks.values();
        let ghost vals = values.remaining().unref();
        assert(vals.to_set() == self@.tasks.values());
        for t in it: values
            invariant
                self.wf(),
                it.seq().unref() == vals,
                vals.to_set() == self@.tasks.values(),
                vals.len() == self@.tasks.dom().len(),
                r@.len() == it.index(),
                forall|i: int| 0 <= i < r@.len() ==> *r@[i] == *it.seq()[i],
        {
            r.push(t);
        }
        proof {
            assert forall|i: int| 0 <= i < r@.len() implies self@.tasks.contains_key(
                #[trigger] r@[i].id,
            ) && self@.tasks[r@[i].id] == *r@[i] by {
                assert(vals[i] == *r@[i]);
                assert(vals.to_set().contains(vals[i]));
                assert(self@.tasks.values().contains(*r@[i]));
                let k = choose|k: u64| #[trigger]
                    self@.tasks.contains_key(k) && self@.tasks[k] == *r@[i];
                assert(self@.tasks[k].id == k);
            }
            assert forall|k: u64| #[trigger]
                self@.tasks.contains_key(k) implies exists|i: int|
                0 <= i < r@.len() && #[trigger] r@[i].id == k by {
                let v = self@.tasks[k];
                assert(self@.tasks.values().contains(v));
                assert(vals.to_set().contains(v));
                let i = choose|i: int| 0 <= i < vals.len() && vals[i] == v;
                assert(r@[i].id == k);
            }
        }
        r
    }

    /// A user with this username, if there is one. Where several users share
    /// the username, which of them is returned is left open.
    pub fn get_user_by_name(&self, username: &str) -> (r: Option<&User>)
        requires
            self.wf(),
        ensures
            match r {
                Some(u) => self@.users.contains_key(u.id) && self@.users[u.id] == *u
                    && u.username@ == username@,
                None => !has_username(self@.users, username@),
            },
    {
        let name = username.to_owned();
        let values = self.users.values();
        let ghost vals = values.remaining().unref();
        assert(vals.to_set() == self@.users.values());
        for u in it: values
            invariant
                self.wf(),
                name@ == username@,
                it.seq().unref() == vals,
                vals.to_set() == self@.users.values(),
                forall|i: int| 0 <= i < it.index() ==> (#[trigger] vals[i]).username@ != username@,
        {
            if u.username == name {
                proof {
                    assert(vals.to_set().contains(*u));
                    let k = choose|k: u64| #[trigger]
                        self@.users.contains_key(k) && self@.users[k] == *u;
                    assert(self@.users[k].id == k);
                }
                return Some(u);
            }
        }
        proof {
            if has_username(self@.users, username@) {
                let k = choose|k: u64| #[trigger]
                    self@.users.contains_key(k) && self@.users[k].username@ == username@;
                let v = self@.users[k];
                assert(self@.users.values().contains(v));
                assert(vals.to_set().contains(v));
                let i = choose|i: int| 0 <= i < vals.len() && vals[i] == v;
                assert(vals[i].username@ != username@);
            }
        }
        None
    }

    /// Whether `username` and `password` are the credentials of a stored user:
    /// true exactly when the user found by `get_user_by_name` has this
    /// password. Unknown usernames and wrong passwords give the same `false`.
    pub fn check_login(&self, username: &str, password: &str) -> (r: bool)
        requires
            self.wf(),
        ensures
            r ==> credentials_known(self@.users, username@, password@),
            !has_username(self@.users, username@) ==> !r,
            username_unique(self@.users, username@) ==> (r == credentials_known(
                self@.users,
                username@,
                password@,
            )),
    {
        match self.get_user_by_name(username) {
            Some(stored) => {
                let given = password.to_owned();
                stored.password == given
            },
            None => false,
        }
    }

    /// The tasks as (id, task) entries, one per stored task.
    fn task_entries(&self) -> (r: Vec<(u64, Task)>)
        requires
            self.wf(),
        ensures
            task_entries_valid(r@),
            task_entries_list(r@, self@.tasks),
    {
        let mut r: Vec<(u64, Task)> = Vec::new();
        let entries = self.tasks.iter();
        let ghost rem = entries.remaining();
        let ghost pairs = rem.unref();
        assert forall|k: u64| #[trigger] self@.tasks.contains_key(k) implies pairs.contains(
            (k, self@.tasks[k]),
        ) by {
            assert(rem.contains((&k, &self@.tasks[k])));
            let i = choose|i: int| 0 <= i < rem.len() && rem[i] == (&k, &self@.tasks[k]);
            assert(pairs[i] == (k, self@.tasks[k]));
        }
        for e in it: entries
            invariant
                self.wf(),
                it.seq().unref() == pairs,
                pairs.no_duplicates(),
                pairs.len() == self@.tasks.dom().len(),
                forall|i: int| 0 <= i < pairs.len() ==> self@.tasks.contains_key(#[trigger] pairs[i].0)
                    && self@.tasks[pairs[i].0] == pairs[i].1,
                forall|k: u64| #[trigger] self@.tasks.contains_key(k) ==> pairs.contains((k, self@.tasks[k])),
                r@.len() == it.index(),
                forall|i: int| 0 <= i < r@.len() ==> #[trigger] r@[i] == pairs[i],
        {
            let (k, t) = e;
            r.push((*k, t.clone()));
        }
        proof {
            assert forall|i: int, j: int| 0 <= i < j < r@.len() implies (#[trigger] r@[i]).0
                != (#[trigger] r@[j]).0 by {
                assert(r@[i] == pairs[i] && r@[j] == pairs[j]);
                if pairs[i].0 == pairs[j].0 {
                    assert(pairs[i] == pairs[j]);
                }
            }
            assert forall|k: u64| #[trigger] self@.tasks.contains_key(k) implies exists|i: int|
                0 <= i < r@.len() && (#[trigger] r@[i]).0 == k by {
                let i = choose|i: int| 0 <= i < pairs.len() && pairs[i] == (k, self@.tasks[k]);
                assert(r@[i].0 == k);
            }
        }
        r
    }

    /// The users as (id, user) entries, one per stored user.
    fn user_entries(&self) -> (r: Vec<(u64, User)>)
        requires
            self.wf(),
        ensures
            user_entries_valid(r@),
            user_entries_list(r@, self@.users),
    {
        let mut r: Vec<(u64, User)> = Vec::new();
        let entries = self.users.iter();
        let ghost rem = entries.remaining();
        let ghost pairs = rem.unref();
        assert forall|k: u64| #[trigger] self@.users.contains_key(k) implies pairs.contains(
            (k, self@.users[k]),
        ) by {
            assert(rem.contains((&k, &self@.users[k])));
            let i = choose|i: int| 0 <= i < rem.len() && rem[i] == (&k, &self@.users[k]);
            assert(pairs[i] == (k, self@.users[k]));
        }
        for e in it: entries
            invariant
                self.wf(),
                it.seq().unref() == pairs,
                pairs.no_duplicates(),
                pairs.len() == self@.users.dom().len(),
                forall|i: int| 0 <= i < pairs.len() ==> self@.users.contains_key(#[trigger] pairs[i].0)
                    && self@.users[pairs[i].0] == pairs[i].1,
                forall|k: u64| #[trigger] self@.users.contains_key(k) ==> pairs.contains((k, self@.users[k])),
                r@.len() == it.index(),
                forall|i: int| 0 <= i < r@.len() ==> #[trigger] r@[i] == pairs[i],
        {
            let (k, u) = e;
            r.push((*k, u.clone()));
        }
        proof {
            assert forall|i: int, j: int| 0 <= i < j < r@.len() implies (#[trigger] r@[i]).0
                != (#[trigger] r@[j]).0 by {
                assert(r@[i] == pairs[i] && r@[j] == pairs[j]);
                if pairs[i].0 == pairs[j].0 {
                    assert(pairs[i] == pairs[j]);
                }
            }
            assert forall|k: u64| #[trigger] self@.users.contains_key(k) implies exists|i: int|
                0 <= i < r@.len() && (#[trigger] r@[i]).0 == k by {
                let i = choose|i: int| 0 <= i < pairs.len() && pairs[i] == (k, self@.users[k]);
                assert(r@[i].0 == k);
            }
        }
        r
    }

    /// The store's content as a snapshot.
    pub fn to_snapshot(&self) -> (r: Snapshot)
        requires
            self.wf(),
        ensures
            r.valid(),
            r.describes(self@),
    {
        Snapshot { tasks: self.task_entries(), users: self.user_entries() }
    }

    /// The number of tasks.
    pub fn task_count(&self) -> (r: usize)
        requires
            self.wf(),
        ensures
            r == self@.tasks.len(),
    {
        self.tasks.len()
    }

    /// The number of users.
    pub fn user_count(&self) -> (r: usize)
        requires
            self.wf(),
        ensures
            r == self@.users.len(),
    {
        self.users.len()
    }
}

} // verus!
