use std::collections::HashMap;
use vstd::prelude::*;
use crate::model::{Task, User};
use vstd::std_specs::hash::spec_hash_map_iter;
use vstd::std_specs::iter::IteratorSpec;

verus! {

broadcast use vstd::std_specs::hash::group_hash_axioms;

/// The in-memory store: one table of tasks and one of users, each keyed by id.
pub struct Database {
    pub tasks: HashMap<u64, Task>,
    pub users: HashMap<u64, User>,
}

/// Whether `u` is a user whose name is `name`.
pub open spec fn has_name(u: User, name: Seq<char>) -> bool {
    u.username@ == name
}

/// Whether some user of the table carries the name `name`.
pub open spec fn name_taken(users: Map<u64, User>, name: Seq<char>) -> bool {
    exists|k: u64| users.contains_key(k) && has_name(#[trigger] users[k], name)
}

/// Whether `r` lists the values of `m` once per key, in some order of the keys.
pub open spec fn lists_values<V>(m: Map<u64, V>, r: Seq<V>) -> bool {
    exists|ks: Seq<u64>|
        #![trigger ks.to_set()]
        ks.len() == r.len() && ks.no_duplicates() && ks.to_set() == m.dom()
            && forall|i: int| 0 <= i < ks.len() ==> m.contains_key(ks[i]) && r[i] == #[trigger] m[ks[i]]
}

impl Database {
    /// The task table as a map from id to task.
    pub open spec fn task_map(&self) -> Map<u64, Task> {
        self.tasks@
    }

    /// The user table as a map from id to user.
    pub open spec fn user_map(&self) -> Map<u64, User> {
        self.users@
    }

    /// An empty store.
    pub fn new() -> (r: Database)
        ensures
            r.task_map() == Map::<u64, Task>::empty(),
            r.user_map() == Map::<u64, User>::empty(),
    {
        Database { tasks: HashMap::new(), users: HashMap::new() }
    }

    /// Inserts `task` at `task.id`, replacing any task already there.
    pub fn insert_or_update_task(&mut self, task: Task)
        ensures
            final(self).task_map() == old(self).task_map().insert(task.id, task),
            final(self).user_map() == old(self).user_map(),
    {
        let id = task.id;
        self.tasks.insert(id, task);
    }

    /// The task stored at `id`, if any.
    pub fn get_task(&self, id: &u64) -> (r: Option<&Task>)
        ensures
            match r {
                Some(t) => self.task_map().contains_key(*id) && *t == self.task_map()[*id],
                None => !self.task_map().contains_key(*id),
            },
    {
        self.tasks.get(id)
    }

    /// Every stored task, in the table's own (unspecified) order.
    pub fn get_all_tasks(&self) -> (r: Vec<&Task>)
        ensures
            r@.len() == self.task_map().len(),
            lists_values(self.task_map(), r@.map_values(|x: &Task| *x)),
    {
        let mut out: Vec<&Task> = Vec::new();
        for (k, t) in it: self.tasks.iter()
            invariant
                out@.len() == it.index(),
                forall|i: int| 0 <= i < it.index() ==> *out@[i] == *it.seq()[i].1,
                it.seq() == spec_hash_map_iter(&self.tasks).remaining(),
                it.seq().no_duplicates(),
        {
            out.push(t);
        }
        proof {
            let m = self.task_map();
            let v = spec_hash_map_iter(&self.tasks).remaining();
            let ks = v.map_values(|p: (&u64, &Task)| *p.0);
            let r = out@.map_values(|x: &Task| *x);
            assert forall|i: int| 0 <= i < ks.len() implies m.contains_key(ks[i]) && r[i] == #[trigger] m[ks[i]] by {
                assert(m.contains_key(*v[i].0) && m[*v[i].0] == *v[i].1);
            }
            assert forall|i: int, j: int| 0 <= i < ks.len() && 0 <= j < ks.len() && i != j
                implies ks[i] != ks[j] by {
                if ks[i] == ks[j] {
                    assert(m[*v[i].0] == *v[i].1 && m[*v[j].0] == *v[j].1);
                    assert(v[i] == v[j]);
                }
            }
            assert forall|k: u64| ks.to_set().contains(k) <==> m.dom().contains(k) by {
                if m.contains_key(k) {
                    assert(v.contains((&k, &m[k])));
                    let i = choose|i: int| 0 <= i < v.len() && v[i] == (&k, &m[k]);
                    assert(ks[i] == k);
                }
                if ks.to_set().contains(k) {
                    let i = choose|i: int| 0 <= i < ks.len() && ks[i] == k;
                    assert(m.contains_key(*v[i].0));
                }
            }
            assert(ks.to_set() =~= m.dom());
            assert(ks.len() == r.len() && ks.no_duplicates());
            ks.unique_seq_to_set();
        }
        out
    }

    /// Removes the task at `id` and hands it back; `None` where there was none.
    pub fn delete_task(&mut self, id: &u64) -> (r: Option<Task>)
        ensures
            final(self).task_map() == old(self).task_map().remove(*id),
            final(self).user_map() == old(self).user_map(),
            match r {
                Some(t) => old(self).task_map().contains_key(*id) && t == old(self).task_map()[*id],
                None => !old(self).task_map().contains_key(*id),
            },
    {
        self.tasks.remove(id)
    }

    /// Inserts `user` at `user.id`, replacing any user already there.
    pub fn insert_or_update_user(&mut self, user: User)
        ensures
            final(self).user_map() == old(self).user_map().insert(user.id, user),
            final(self).task_map() == old(self).task_map(),
    {
        let id = user.id;
        self.users.insert(id, user);
    }

    /// The user stored at `id`, if any.
    pub fn get_user(&self, id: &u64) -> (r: Option<&User>)
        ensures
            match r {
                Some(u) => self.user_map().contains_key(*id) && *u == self.user_map()[*id],
                None => !self.user_map().contains_key(*id),
            },
    {
        self.users.get(id)
    }

    /// Every stored user, in the table's own (unspecified) order.
    pub fn get_all_users(&self) -> (r: Vec<&User>)
        ensures
            r@.len() == self.user_map().len(),
            lists_values(self.user_map(), r@.map_values(|x: &User| *x)),
    {
        let mut out: Vec<&User> = Vec::new();
        for (k, u) in it: self.users.iter()
            invariant
                out@.len() == it.index(),
                forall|i: int| 0 <= i < it.index() ==> *out@[i] == *it.seq()[i].1,
                it.seq() == spec_hash_map_iter(&self.users).remaining(),
                it.seq().no_duplicates(),
        {
            out.push(u);
        }
        proof {
            let m = self.user_map();
            let v = spec_hash_map_iter(&self.users).remaining();
            let ks = v.map_values(|p: (&u64, &User)| *p.0);
            let r = out@.map_values(|x: &User| *x);
            assert forall|i: int| 0 <= i < ks.len() implies m.contains_key(ks[i]) && r[i] == #[trigger] m[ks[i]] by {
                assert(m.contains_key(*v[i].0) && m[*v[i].0] == *v[i].1);
            }
            assert forall|i: int, j: int| 0 <= i < ks.len() && 0 <= j < ks.len() && i != j
                implies ks[i] != ks[j] by {
                if ks[i] == ks[j] {
                    assert(m[*v[i].0] == *v[i].1 && m[*v[j].0] == *v[j].1);
                    assert(v[i] == v[j]);
                }
            }
            assert forall|k: u64| ks.to_set().contains(k) <==> m.dom().contains(k) by {
                if m.contains_key(k) {
                    assert(v.contains((&k, &m[k])));
                    let i = choose|i: int| 0 <= i < v.len() && v[i] == (&k, &m[k]);
                    assert(ks[i] == k);
                }
                if ks.to_set().contains(k) {
                    let i = choose|i: int| 0 <= i < ks.len() && ks[i] == k;
                    assert(m.contains_key(*v[i].0));
                }
            }
            assert(ks.to_set() =~= m.dom());
            assert(ks.len() == r.len() && ks.no_duplicates());
            ks.unique_seq_to_set();
        }
        out
    }

    /// Some user whose name is `username`, or `None` where no user has it.
    /// With several such users, which one comes back is left open.
    pub fn get_user_by_name(&self, username: &str) -> (r: Option<&User>)
        ensures
            match r {
                Some(u) => has_name(*u, username@) && exists|k: u64|
                    self.user_map().contains_key(k) && #[trigger] self.user_map()[k] == *u,
                None => !name_taken(self.user_map(), username@),
            },
    {
        let target = username.to_owned();
        for (k, u) in it: self.users.iter()
            invariant
                target@ == username@,
                it.seq() == spec_hash_map_iter(&self.users).remaining(),
                forall|i: int| 0 <= i < it.index() ==> !has_name(*it.seq()[i].1, username@),
        {
            if u.username == target {
                proof {
                    let v = spec_hash_map_iter(&self.users).remaining();
                    assert(self.user_map().contains_key(*v[it.index()].0));
                }
                return Some(u);
            }
        }
        proof {
            let v = spec_hash_map_iter(&self.users).remaining();
            assert forall|k: u64| self.user_map().contains_key(k)
                implies !has_name(#[trigger] self.user_map()[k], username@) by {
                assert(v.contains((&k, &self.user_map()[k])));
            }
        }
        None
    }

    /// Removes the user at `id` and hands it back; `None` where there was none.
    pub fn delete_user(&mut self, id: &u64) -> (r: Option<User>)
        ensures
            final(self).user_map() == old(self).user_map().remove(*id),
            final(self).task_map() == old(self).task_map(),
            match r {
                Some(u) => old(self).user_map().contains_key(*id) && u == old(self).user_map()[*id],
                None => !old(self).user_map().contains_key(*id),
            },
    {
        self.users.remove(id)
    }
}

} // verus!
