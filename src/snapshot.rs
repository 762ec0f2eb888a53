use std::collections::HashMap;
use vstd::prelude::*;
use crate::model::{Task, User};
use crate::store::Database;
use vstd::std_specs::hash::spec_hash_map_iter;
use vstd::std_specs::iter::IteratorSpec;

verus! {

broadcast use vstd::std_specs::hash::group_hash_axioms;

/// The table that a list of `(id, value)` entries describes: each entry is
/// put in turn, so a later entry replaces an earlier one with the same id.
pub open spec fn map_of<V>(s: Seq<(u64, V)>) -> Map<u64, V>
    decreases s.len(),
{
    if s.len() == 0 {
        Map::empty()
    } else {
        map_of(s.drop_last()).insert(s.last().0, s.last().1)
    }
}

/// A flat image of a whole store, as it is written to and read back from
/// persistent storage.
pub struct Snapshot {
    pub tasks: Vec<(u64, Task)>,
    pub users: Vec<(u64, User)>,
}

impl Snapshot {
    /// The task table that this image describes.
    pub open spec fn task_map(&self) -> Map<u64, Task> {
        map_of(self.tasks@)
    }

    /// The user table that this image describes.
    pub open spec fn user_map(&self) -> Map<u64, User> {
        map_of(self.users@)
    }
}

proof fn lemma_map_of_push<V>(s: Seq<(u64, V)>, e: (u64, V))
    ensures
        map_of(s.push(e)) == map_of(s).insert(e.0, e.1),
{
    assert(s.push(e).drop_last() == s);
}

/// Lists the entries of a task table, in its iteration order.
fn task_entries(m: &HashMap<u64, Task>) -> (r: Vec<(u64, Task)>)
    ensures
        map_of(r@) == m@,
{
    let mut out: Vec<(u64, Task)> = Vec::new();
    for (k, t) in it: m.iter()
        invariant
            out@.len() == it.index(),
            it.seq() == spec_hash_map_iter(m).remaining(),
            forall|i: int| 0 <= i < it.index() ==> out@[i] == (*it.seq()[i].0, *it.seq()[i].1),
            forall|key: u64| #[trigger] map_of(out@).contains_key(key)
                <==> exists|i: int| 0 <= i < it.index() && *it.seq()[i].0 == key,
            forall|key: u64| #[trigger] map_of(out@).contains_key(key) ==> map_of(out@)[key] == m@[key],
    {
        proof {
            lemma_map_of_push(out@, (*k, *t));
            let v = it.seq();
            let j = it.index();
            assert(m@.contains_key(*v[j].0) && m@[*v[j].0] == *v[j].1);
            assert forall|key: u64| #[trigger] map_of(out@.push((*k, *t))).contains_key(key)
                <==> exists|i: int| 0 <= i < j + 1 && *v[i].0 == key by {
                if map_of(out@.push((*k, *t))).contains_key(key) && key != *k {
                    assert(map_of(out@).contains_key(key));
                    let i = choose|i: int| 0 <= i < j && *v[i].0 == key;
                    assert(0 <= i < j + 1 && *v[i].0 == key);
                }
                if key == *k {
                    assert(*v[j].0 == key);
                }
                if exists|i: int| 0 <= i < j + 1 && *v[i].0 == key {
                    let i = choose|i: int| 0 <= i < j + 1 && *v[i].0 == key;
                    if i < j {
                        assert(map_of(out@).contains_key(key));
                    }
                }
            }
        }
        out.push((*k, t.duplicate()));
    }
    proof {
        let v = spec_hash_map_iter(m).remaining();
        assert forall|key: u64| map_of(out@).contains_key(key) <==> m@.contains_key(key) by {
            if m@.contains_key(key) {
                assert(v.contains((&key, &m@[key])));
                let i = choose|i: int| 0 <= i < v.len() && v[i] == (&key, &m@[key]);
                assert(*v[i].0 == key);
            }
            if map_of(out@).contains_key(key) {
                let i = choose|i: int| 0 <= i < v.len() && *v[i].0 == key;
                assert(m@.contains_key(*v[i].0));
            }
        }
        assert(map_of(out@) =~= m@);
    }
    out
}

/// Lists the entries of a user table, in its iteration order.
fn user_entries(m: &HashMap<u64, User>) -> (r: Vec<(u64, User)>)
    ensures
        map_of(r@) == m@,
{
    let mut out: Vec<(u64, User)> = Vec::new();
    for (k, t) in it: m.iter()
        invariant
            out@.len() == it.index(),
            it.seq() == spec_hash_map_iter(m).remaining(),
            forall|i: int| 0 <= i < it.index() ==> out@[i] == (*it.seq()[i].0, *it.seq()[i].1),
            forall|key: u64| #[trigger] map_of(out@).contains_key(key)
                <==> exists|i: int| 0 <= i < it.index() && *it.seq()[i].0 == key,
            forall|key: u64| #[trigger] map_of(out@).contains_key(key) ==> map_of(out@)[key] == m@[key],
    {
        proof {
            lemma_map_of_push(out@, (*k, *t));
            let v = it.seq();
            let j = it.index();
            assert(m@.contains_key(*v[j].0) && m@[*v[j].0] == *v[j].1);
            assert forall|key: u64| #[trigger] map_of(out@.push((*k, *t))).contains_key(key)
                <==> exists|i: int| 0 <= i < j + 1 && *v[i].0 == key by {
                if map_of(out@.push((*k, *t))).contains_key(key) && key != *k {
                    assert(map_of(out@).contains_key(key));
                    let i = choose|i: int| 0 <= i < j && *v[i].0 == key;
                    assert(0 <= i < j + 1 && *v[i].0 == key);
                }
                if key == *k {
                    assert(*v[j].0 == key);
                }
                if exists|i: int| 0 <= i < j + 1 && *v[i].0 == key {
                    let i = choose|i: int| 0 <= i < j + 1 && *v[i].0 == key;
                    if i < j {
                        assert(map_of(out@).contains_key(key));
                    }
                }
            }
        }
        out.push((*k, t.duplicate()));
    }
    proof {
        let v = spec_hash_map_iter(m).remaining();
        assert forall|key: u64| map_of(out@).contains_key(key) <==> m@.contains_key(key) by {
            if m@.contains_key(key) {
                assert(v.contains((&key, &m@[key])));
                let i = choose|i: int| 0 <= i < v.len() && v[i] == (&key, &m@[key]);
                assert(*v[i].0 == key);
            }
            if map_of(out@).contains_key(key) {
                let i = choose|i: int| 0 <= i < v.len() && *v[i].0 == key;
                assert(m@.contains_key(*v[i].0));
            }
        }
        assert(map_of(out@) =~= m@);
    }
    out
}

/// Builds a task table from `(id, task)` entries, later entries replacing earlier ones.
fn task_table(entries: Vec<(u64, Task)>) -> (r: HashMap<u64, Task>)
    ensures
        r@ == map_of(entries@),
{
    let mut m: HashMap<u64, Task> = HashMap::new();
    let ghost all = entries@;
    for e in it: entries.into_iter()
        invariant
            it.seq() == all,
            m@ == map_of(all.take(it.index())),
    {
        proof {
            assert(all.take(it.index()).push(e) == all.take(it.index() + 1));
            lemma_map_of_push(all.take(it.index()), e);
        }
        m.insert(e.0, e.1);
    }
    assert(all.take(all.len() as int) == all);
    m
}

/// Builds a user table from `(id, user)` entries, later entries replacing earlier ones.
fn user_table(entries: Vec<(u64, User)>) -> (r: HashMap<u64, User>)
    ensures
        r@ == map_of(entries@),
{
    let mut m: HashMap<u64, User> = HashMap::new();
    let ghost all = entries@;
    for e in it: entries.into_iter()
        invariant
            it.seq() == all,
            m@ == map_of(all.take(it.index())),
    {
        proof {
            assert(all.take(it.index()).push(e) == all.take(it.index() + 1));
            lemma_map_of_push(all.take(it.index()), e);
        }
        m.insert(e.0, e.1);
    }
    assert(all.take(all.len() as int) == all);
    m
}

impl Database {
    /// A flat image of this store: one entry per stored task and per stored user.
    pub fn to_snapshot(&self) -> (r: Snapshot)
        ensures
            r.task_map() == self.task_map(),
            r.user_map() == self.user_map(),
    {
        Snapshot { tasks: task_entries(&self.tasks), users: user_entries(&self.users) }
    }

    /// The store that a flat image describes.
    pub fn from_snapshot(s: Snapshot) -> (r: Database)
        ensures
            r.task_map() == s.task_map(),
            r.user_map() == s.user_map(),
    {
        let Snapshot { tasks, users } = s;
        Database { tasks: task_table(tasks), users: user_table(users) }
    }

    /// The store to start from: the one the loaded image describes, or an
    /// empty one where no image could be loaded.
    pub fn restore(loaded: Option<Snapshot>) -> (r: Database)
        ensures
            match loaded {
                Some(s) => r.task_map() == s.task_map() && r.user_map() == s.user_map(),
                None => r.task_map() == Map::<u64, Task>::empty() && r.user_map() == Map::<u64, User>::empty(),
            },
    {
        match loaded {
            Some(s) => Database::from_snapshot(s),
            None => Database::new(),
        }
    }
}

} // verus!
