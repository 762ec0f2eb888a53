use vstd::prelude::*;
use crate::model::Task;
use crate::snapshot::Snapshot;
use crate::store::Database;

verus! {

/// The task table after upserting each task of `s` in turn, starting from `m`.
pub open spec fn upsert_all(m: Map<u64, Task>, s: Seq<Task>) -> Map<u64, Task>
    decreases s.len(),
{
    if s.len() == 0 {
        m
    } else {
        upsert_all(m, s.drop_last()).insert(s.last().id, s.last())
    }
}

/// Whether no two tasks of `s` share an id.
pub open spec fn distinct_ids(s: Seq<Task>) -> bool {
    forall|i: int, j: int| 0 <= i < s.len() && 0 <= j < s.len() && i != j ==> #[trigger] s[i].id != #[trigger] s[j].id
}

/// Upserting the same task twice leaves the table as one upsert does, with
/// the same number of tasks.
pub proof fn lemma_upsert_task_idempotent(m: Map<u64, Task>, t: Task)
    requires
        m.dom().finite(),
    ensures
        m.insert(t.id, t).insert(t.id, t) == m.insert(t.id, t),
        m.insert(t.id, t).insert(t.id, t).len() == m.insert(t.id, t).len(),
{
    assert(m.insert(t.id, t).insert(t.id, t) =~= m.insert(t.id, t));
}

/// Upserting `b` after `a` with the same id leaves `b` alone under that id,
/// as if `a` had never been upserted.
pub proof fn lemma_upsert_task_overwrites(m: Map<u64, Task>, a: Task, b: Task)
    requires
        a.id == b.id,
    ensures
        m.insert(a.id, a).insert(b.id, b) == m.insert(b.id, b),
        m.insert(a.id, a).insert(b.id, b)[b.id] == b,
{
    assert(m.insert(a.id, a).insert(b.id, b) =~= m.insert(b.id, b));
}

/// Deleting an id that is absent changes nothing, and after a delete the id
/// is absent, so a second delete of it reports absence.
pub proof fn lemma_delete_task_idempotent(m: Map<u64, Task>, id: u64)
    ensures
        !m.remove(id).contains_key(id),
        m.remove(id).remove(id) == m.remove(id),
        !m.contains_key(id) ==> m.remove(id) == m,
{
    assert(m.remove(id).remove(id) =~= m.remove(id));
    if !m.contains_key(id) {
        assert(m.remove(id) =~= m);
    }
}

/// A store rebuilt from the image of another holds the same tasks and users,
/// whatever order the image lists them in.
pub proof fn lemma_snapshot_round_trip(db: Database, image: Snapshot, rebuilt: Database)
    requires
        image.task_map() == db.task_map(),
        image.user_map() == db.user_map(),
        rebuilt.task_map() == image.task_map(),
        rebuilt.user_map() == image.user_map(),
    ensures
        rebuilt.task_map() == db.task_map(),
        rebuilt.user_map() == db.user_map(),
{
}

/// Upserts of tasks with distinct ids, applied one at a time in any order,
/// lose none of them: the table ends with exactly those ids, each holding
/// its task.
pub proof fn lemma_distinct_upserts_all_kept(s: Seq<Task>)
    requires
        distinct_ids(s),
    ensures
        upsert_all(Map::empty(), s).len() == s.len(),
        forall|i: int| 0 <= i < s.len() ==> #[trigger] upsert_all(Map::empty(), s)[s[i].id] == s[i],
        forall|k: u64| #[trigger] upsert_all(Map::empty(), s).contains_key(k)
            <==> exists|i: int| 0 <= i < s.len() && s[i].id == k,
    decreases s.len(),
{
    if s.len() > 0 {
        let p = s.drop_last();
        assert(distinct_ids(p));
        lemma_distinct_upserts_all_kept(p);
        lemma_upsert_all_finite(Map::empty(), p);
        let m = upsert_all(Map::empty(), p);
        let last = s.last();
        assert(!m.contains_key(last.id)) by {
            if m.contains_key(last.id) {
                let i = choose|i: int| 0 <= i < p.len() && p[i].id == last.id;
                assert(s[i].id == s[s.len() - 1].id);
            }
        }
        assert forall|i: int| 0 <= i < s.len() implies #[trigger] upsert_all(Map::empty(), s)[s[i].id] == s[i] by {
            if i < s.len() - 1 {
                assert(p[i] == s[i]);
                assert(s[i].id != s[s.len() - 1].id);
            }
        }
        assert forall|k: u64| #[trigger] upsert_all(Map::empty(), s).contains_key(k)
            <==> exists|i: int| 0 <= i < s.len() && s[i].id == k by {
            if upsert_all(Map::empty(), s).contains_key(k) && k != last.id {
                let i = choose|i: int| 0 <= i < p.len() && p[i].id == k;
                assert(s[i].id == k);
            }
            if exists|i: int| 0 <= i < s.len() && s[i].id == k {
                let i = choose|i: int| 0 <= i < s.len() && s[i].id == k;
                if i < s.len() - 1 {
                    assert(p[i].id == k);
                }
            }
        }
    }
}

proof fn lemma_upsert_all_finite(m: Map<u64, Task>, s: Seq<Task>)
    requires
        m.dom().finite(),
    ensures
        upsert_all(m, s).dom().finite(),
    decreases s.len(),
{
    if s.len() > 0 {
        lemma_upsert_all_finite(m, s.drop_last());
    }
}

} // verus!
