//! The two kinds of entity that the store holds.

use vstd::prelude::*;

verus! {

/// A to-do item. Its `id` is chosen by the caller and is its key in the store.
#[derive(Debug)]
pub struct Task {
    pub id: u64,
    pub name: String,
    pub completed: bool,
}

/// A registered account. Its `id` is chosen by the caller and is its key in
/// the store; the password is kept and compared as given.
#[derive(Debug)]
pub struct User {
    pub id: u64,
    pub username: String,
    pub password: String,
}

impl Clone for Task {
    fn clone(&self) -> (r: Self)
        ensures
            r == *self,
    {
        Task { id: self.id, name: self.name.clone(), completed: self.completed }
    }
}

impl Clone for User {
    fn clone(&self) -> (r: Self)
        ensures
            r == *self,
    {
        User { id: self.id, username: self.username.clone(), password: self.password.clone() }
    }
}

} // verus!
