//! The state-merge layer: reconciling an incoming collection with the one
//! on disk, removing an entry and renumbering the rest, and deriving the
//! next id.

use vstd::prelude::*;

use crate::task::{TaskEntry, TaskView, Tasks};

verus! {

/// The first position at or after `k` whose entry has the given id.
pub open spec fn find_id_from(s: Seq<TaskView>, id: int, k: int) -> Option<int>
    decreases s.len() - k,
{
    if 0 <= k < s.len() {
        if s[k].id == id {
            Some(k)
        } else {
            find_id_from(s, id, k + 1)
        }
    } else {
        None
    }
}

/// The first position whose entry has the given id.
pub open spec fn find_id(s: Seq<TaskView>, id: int) -> Option<int> {
    find_id_from(s, id, 0)
}

/// One merge step: an entry with a known id replaces the first entry that
/// carries that id, in place; an entry with a new id is appended.
pub open spec fn merge_step(cur: Seq<TaskView>, e: TaskView) -> Seq<TaskView> {
    match find_id(cur, e.id) {
        Some(k) => cur.update(k, e),
        None => cur.push(e),
    }
}

/// The merge of the incoming entries from position `k` on into `cur`.
pub open spec fn merge_from(cur: Seq<TaskView>, inc: Seq<TaskView>, k: int) -> Seq<TaskView>
    decreases inc.len() - k,
{
    if 0 <= k < inc.len() {
        merge_from(merge_step(cur, inc[k]), inc, k + 1)
    } else {
        cur
    }
}

/// The merge of an incoming collection into the current one: entries whose
/// id already occurs replace the first holder of that id in place, new
/// entries are appended in incoming order, and current entries the incoming
/// collection does not mention are kept untouched.
pub open spec fn spec_merge(cur: Seq<TaskView>, inc: Seq<TaskView>) -> Seq<TaskView> {
    merge_from(cur, inc, 0)
}

/// The entries that do not carry the given id, from position `k` on, in
/// order.
pub open spec fn remove_id_from(s: Seq<TaskView>, id: int, k: int) -> Seq<TaskView>
    decreases s.len() - k,
{
    if 0 <= k < s.len() {
        (if s[k].id != id {
            seq![s[k]]
        } else {
            Seq::empty()
        }) + remove_id_from(s, id, k + 1)
    } else {
        Seq::empty()
    }
}

/// The collection without the entries that carry the given id.
pub open spec fn remove_id(s: Seq<TaskView>, id: int) -> Seq<TaskView> {
    remove_id_from(s, id, 0)
}

/// Every entry's id reassigned to its zero-based position.
pub open spec fn renumber(s: Seq<TaskView>) -> Seq<TaskView> {
    Seq::new(s.len(), |i: int| TaskView { id: i, ..s[i] })
}

/// The id the next submitted task gets: zero on an empty collection, one
/// past the last entry's id otherwise.
pub open spec fn spec_next_id(s: Seq<TaskView>) -> int {
    if s.len() == 0 {
        0
    } else {
        s.last().id + 1
    }
}

/// Finds the first entry with the given id.
pub fn find_entry(tasks: &Vec<TaskEntry>, id: i32) -> (r: Option<usize>)
    ensures
        ({
            let v = Seq::new(tasks@.len(), |m: int| tasks@[m]@);
            match r {
                Some(k) => k < tasks@.len() && find_id(v, id as int) == Some(k as int),
                None => find_id(v, id as int) is None,
            }
        }),
{
    let ghost v = Seq::new(tasks@.len(), |m: int| tasks@[m]@);
    let mut i: usize = 0;
    while i < tasks.len()
        invariant
            i <= tasks@.len(),
            v == Seq::new(tasks@.len(), |m: int| tasks@[m]@),
            find_id(v, id as int) == find_id_from(v, id as int, i as int),
        decreases tasks@.len() - i,
    {
        if tasks[i].id == id {
            return Some(i);
        }
        i += 1;
    }
    None
}

/// Merges the incoming entries into `cur`.
pub fn merge_into(cur: &mut Tasks, inc: &Tasks)
    ensures
        final(cur)@ == spec_merge(old(cur)@, inc@),
{
    let mut k: usize = 0;
    while k < inc.tasks.len()
        invariant
            k <= inc.tasks@.len(),
            spec_merge(old(cur)@, inc@) == merge_from(cur@, inc@, k as int),
        decreases inc.tasks@.len() - k,
    {
        let e = inc.tasks[k].clone();
        let ghost before = cur@;
        match find_entry(&cur.tasks, e.id) {
            Some(idx) => {
                cur.tasks.set(idx, e);
                proof {
                    assert(cur@ =~= merge_step(before, inc@[k as int]));
                }
            },
            None => {
                cur.tasks.push(e);
                proof {
                    assert(cur@ =~= merge_step(before, inc@[k as int]));
                }
            },
        }
        k += 1;
    }
}

/// Removes every entry with the given id, then renumbers the remaining
/// entries to their zero-based positions.
pub fn delete_and_renumber(cur: &mut Tasks, id: i32)
    requires
        old(cur)@.len() <= i32::MAX,
    ensures
        final(cur)@ == renumber(remove_id(old(cur)@, id as int)),
{
    let ghost v = cur@;
    let mut out: Vec<TaskEntry> = Vec::new();
    let mut k: usize = 0;
    while k < cur.tasks.len()
        invariant
            k <= cur.tasks@.len(),
            v == cur@,
            v.len() <= i32::MAX,
            cur@ == Seq::new(cur.tasks@.len(), |m: int| cur.tasks@[m]@),
            remove_id(v, id as int) == Seq::new(out@.len(), |m: int| out@[m]@) + remove_id_from(
                v,
                id as int,
                k as int,
            ),
            out@.len() <= k,
        decreases cur.tasks@.len() - k,
    {
        let ghost outv = Seq::new(out@.len(), |m: int| out@[m]@);
        if cur.tasks[k].id != id {
            out.push(cur.tasks[k].clone());
            proof {
                assert(Seq::new(out@.len(), |m: int| out@[m]@) =~= outv.push(v[k as int]));
                assert(outv.push(v[k as int]) + remove_id_from(v, id as int, k + 1) =~= outv + (
                seq![v[k as int]] + remove_id_from(v, id as int, k + 1)));
            }
        } else {
            proof {
                assert(Seq::empty() + remove_id_from(v, id as int, k + 1) =~= remove_id_from(
                    v,
                    id as int,
                    k + 1,
                ));
            }
        }
        k += 1;
    }
    proof {
        assert(remove_id_from(v, id as int, v.len() as int) =~= Seq::<TaskView>::empty());
        assert(remove_id(v, id as int) =~= Seq::new(out@.len(), |m: int| out@[m]@));
    }
    let mut i: usize = 0;
    while i < out.len()
        invariant
            i <= out@.len(),
            out@.len() == remove_id(v, id as int).len(),
            out@.len() <= i32::MAX,
            forall|m: int| 0 <= m < out@.len() ==> i <= m ==> out@[m]@ == remove_id(
                v,
                id as int,
            )[m],
            forall|m: int| 0 <= m < i ==> out@[m]@ == (TaskView {
                id: m,
                ..remove_id(v, id as int)[m]
            }),
        decreases out@.len() - i,
    {
        let mut e = out[i].clone();
        e.id = i as i32;
        out.set(i, e);
        i += 1;
    }
    cur.tasks = out;
    proof {
        assert(cur@ =~= renumber(remove_id(v, id as int)));
    }
}

/// The id to assign to the next task submitted for this collection.
pub fn next_id(cur: &Tasks) -> (r: i32)
    requires
        cur@.len() > 0 ==> cur@.last().id < i32::MAX,
    ensures
        r == spec_next_id(cur@),
{
    if cur.tasks.len() == 0 {
        0
    } else {
        let last = cur.tasks.len() - 1;
        cur.tasks[last].id + 1
    }
}

} // verus!
