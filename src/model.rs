use vstd::prelude::*;

verus! {

/// A task record, keyed by its caller-chosen `id`.
pub struct Task {
    pub id: u64,
    pub name: String,
    pub completed: bool,
}

/// A registered user; the password is stored and compared as given.
pub struct User {
    pub id: u64,
    pub username: String,
    pub password: String,
}

impl Task {
    pub fn new(id: u64, name: String, completed: bool) -> (r: Task)
        ensures
            r.id == id,
            r.name == name,
            r.completed == completed,
    {
        Task { id, name, completed }
    }

    /// Another task with the same id, name and state.
    pub fn duplicate(&self) -> (r: Task)
        ensures
            r == *self,
    {
        Task { id: self.id, name: self.name.clone(), completed: self.completed }
    }
}

impl User {
    pub fn new(id: u64, username: String, password: String) -> (r: User)
        ensures
            r.id == id,
            r.username == username,
            r.password == password,
    {
        User { id, username, password }
    }

    /// Another user with the same id, name and password.
    pub fn duplicate(&self) -> (r: User)
        ensures
            r == *self,
    {
        User { id: self.id, username: self.username.clone(), password: self.password.clone() }
    }
}

} // verus!
