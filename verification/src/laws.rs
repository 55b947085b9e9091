//! Laws of the merge and renumbering operations, stated over the same spec
//! functions the store's contracts use.

use vstd::prelude::*;

use crate::merge::{find_id, find_id_from, merge_from, merge_step, remove_id, remove_id_from,
    renumber, spec_merge};
use crate::store::{disk_tasks, FileView};
use crate::task::{TaskView, Tasks};

verus! {

/// What `find_id` finds is the first holder of the id.
pub proof fn lemma_find_id_props(s: Seq<TaskView>, id: int, k0: int)
    requires
        0 <= k0,
    ensures
        match find_id_from(s, id, k0) {
            Some(k) => k0 <= k < s.len() && s[k].id == id && forall|m: int|
                k0 <= m < k ==> s[m].id != id,
            None => forall|m: int| k0 <= m < s.len() ==> s[m].id != id,
        },
    decreases s.len() - k0,
{
    if k0 < s.len() && s[k0].id != id {
        lemma_find_id_props(s, id, k0 + 1);
    }
}

/// Finding an id looks only at ids.
pub proof fn lemma_find_id_same_ids(a: Seq<TaskView>, b: Seq<TaskView>, id: int, k0: int)
    requires
        0 <= k0,
        a.len() == b.len(),
        forall|m: int| 0 <= m < a.len() ==> a[m].id == b[m].id,
    ensures
        find_id_from(a, id, k0) == find_id_from(b, id, k0),
    decreases a.len() - k0,
{
    if k0 < a.len() && a[k0].id != id {
        lemma_find_id_same_ids(a, b, id, k0 + 1);
    }
}

/// Finding an id in a collection with one entry appended.
pub proof fn lemma_find_id_push(s: Seq<TaskView>, e: TaskView, id: int, k0: int)
    requires
        0 <= k0 <= s.len(),
    ensures
        find_id_from(s.push(e), id, k0) == (match find_id_from(s, id, k0) {
            Some(k) => Some(k),
            None => if e.id == id {
                Some(s.len() as int)
            } else {
                None
            },
        }),
    decreases s.len() - k0,
{
    if k0 < s.len() {
        assert(s.push(e)[k0] == s[k0]);
        if s[k0].id == id {
            assert(find_id_from(s.push(e), id, k0) == Some(k0));
        } else {
            lemma_find_id_push(s, e, id, k0 + 1);
        }
    } else {
        assert(s.push(e)[k0] == e);
        if e.id != id {
            assert(find_id_from(s.push(e), id, k0 + 1) is None);
        }
    }
}

/// A merge step neither changes any entry's id in place nor loses one:
/// the ids at existing positions stay, and the step's entry's id is
/// present afterwards.
pub proof fn lemma_merge_step_ids(c: Seq<TaskView>, e: TaskView)
    ensures
        merge_step(c, e).len() >= c.len(),
        forall|m: int| 0 <= m < c.len() ==> merge_step(c, e)[m].id == c[m].id,
        forall|m: int| c.len() <= m < merge_step(c, e).len() ==> merge_step(c, e)[m] == e,
        find_id(merge_step(c, e), e.id) is Some,
{
    lemma_find_id_props(c, e.id, 0);
    match find_id(c, e.id) {
        Some(k) => {
            lemma_find_id_same_ids(c, merge_step(c, e), e.id, 0);
        },
        None => {
            lemma_find_id_push(c, e, e.id, 0);
        },
    }
}

/// Merging preserves the presence of an id.
pub proof fn lemma_merge_keeps_id(c: Seq<TaskView>, inc: Seq<TaskView>, j: int, id: int)
    requires
        find_id(c, id) is Some,
    ensures
        find_id(merge_from(c, inc, j), id) is Some,
    decreases inc.len() - j,
{
    if 0 <= j < inc.len() {
        let c2 = merge_step(c, inc[j]);
        lemma_merge_step_ids(c, inc[j]);
        lemma_find_id_props(c, id, 0);
        let k = find_id(c, id)->Some_0;
        assert(c2[k].id == id);
        lemma_find_id_props(c2, id, 0);
        if find_id(c2, id) is None {
            assert(false);
        }
        lemma_merge_keeps_id(c2, inc, j + 1, id);
    }
}

/// Merging entries whose ids all differ from `id` changes neither where
/// the first holder of `id` stands nor what it holds.
pub proof fn lemma_merge_absent_id(c: Seq<TaskView>, inc: Seq<TaskView>, j: int, id: int)
    requires
        forall|m: int| j <= m < inc.len() ==> inc[m].id != id,
    ensures
        find_id(merge_from(c, inc, j), id) == find_id(c, id),
        match find_id(c, id) {
            Some(k) => merge_from(c, inc, j)[k] == c[k],
            None => true,
        },
    decreases inc.len() - j,
{
    if 0 <= j < inc.len() {
        let e = inc[j];
        let c2 = merge_step(c, e);
        lemma_merge_step_ids(c, e);
        lemma_find_id_props(c, e.id, 0);
        assert(find_id_from(c2, id, 0) == find_id_from(c, id, 0)) by {
            match find_id(c, e.id) {
                Some(p) => {
                    lemma_find_id_same_ids(c, c2, id, 0);
                },
                None => {
                    lemma_find_id_push(c, e, id, 0);
                },
            }
        }
        lemma_find_id_props(c, id, 0);
        match find_id(c, id) {
            Some(k) => {
                assert(c2[k] == c[k]) by {
                    match find_id(c, e.id) {
                        Some(p) => {
                            assert(c[p].id == e.id);
                            assert(p != k);
                        },
                        None => {},
                    }
                }
            },
            None => {},
        }
        lemma_merge_absent_id(c2, inc, j + 1, id);
    }
}

/// Two collections with the same ids everywhere, differing at most at one
/// position that is the first holder of its id, merge to the same result
/// when the remaining incoming entries mention that id again.
proof fn lemma_merge_overwrites_diff(
    a: Seq<TaskView>,
    b: Seq<TaskView>,
    inc: Seq<TaskView>,
    j: int,
    k: int,
)
    requires
        0 <= k < a.len(),
        a.len() == b.len(),
        forall|m: int| 0 <= m < a.len() && m != k ==> a[m] == b[m],
        a[k].id == b[k].id,
        forall|m: int| 0 <= m < k ==> a[m].id != a[k].id,
        0 <= j,
        exists|m: int| j <= m < inc.len() && inc[m].id == a[k].id,
    ensures
        merge_from(a, inc, j) == merge_from(b, inc, j),
    decreases inc.len() - j,
{
    assert(forall|m: int| 0 <= m < a.len() ==> a[m].id == b[m].id);
    let id0 = a[k].id;
    let e = inc[j];
    lemma_find_id_props(a, e.id, 0);
    lemma_find_id_same_ids(a, b, e.id, 0);
    if e.id == id0 {
        assert(find_id(a, e.id) == Some(k)) by {
            lemma_find_id_props(a, e.id, 0);
            match find_id(a, e.id) {
                Some(p) => {
                    if p < k {
                        assert(false);
                    }
                    if p > k {
                        assert(a[k].id == e.id);
                        assert(false);
                    }
                },
                None => {
                    assert(a[k].id == e.id);
                    assert(false);
                },
            }
        }
        assert(merge_step(a, e) =~= merge_step(b, e));
    } else {
        match find_id(a, e.id) {
            Some(p) => {
                assert(a[p].id == e.id);
                assert(p != k);
                let a2 = a.update(p, e);
                let b2 = b.update(p, e);
                assert(a2[k] == a[k] && b2[k] == b[k]);
                assert(forall|m: int| 0 <= m < a2.len() && m != k ==> a2[m] == b2[m]);
                assert(forall|m: int| 0 <= m < k ==> a2[m].id == a[m].id);
                assert(exists|m: int| j + 1 <= m < inc.len() && inc[m].id == a2[k].id) by {
                    let w = choose|m: int| j <= m < inc.len() && inc[m].id == id0;
                    assert(w != j);
                    assert(j + 1 <= w < inc.len() && inc[w].id == a2[k].id);
                }
                lemma_merge_overwrites_diff(a2, b2, inc, j + 1, k);
            },
            None => {
                let a2 = a.push(e);
                let b2 = b.push(e);
                assert(a2[k] == a[k] && b2[k] == b[k]);
                assert(forall|m: int| 0 <= m < a2.len() && m != k ==> a2[m] == b2[m]);
                assert(forall|m: int| 0 <= m < k ==> a2[m].id == a[m].id);
                assert(exists|m: int| j + 1 <= m < inc.len() && inc[m].id == a2[k].id) by {
                    let w = choose|m: int| j <= m < inc.len() && inc[m].id == id0;
                    assert(w != j);
                    assert(j + 1 <= w < inc.len() && inc[w].id == a2[k].id);
                }
                lemma_merge_overwrites_diff(a2, b2, inc, j + 1, k);
            },
        }
    }
}

/// Merge is idempotent from any position on.
proof fn lemma_merge_idempotent_from(c: Seq<TaskView>, inc: Seq<TaskView>, j: int)
    ensures
        merge_from(merge_from(c, inc, j), inc, j) == merge_from(c, inc, j),
    decreases inc.len() - j,
{
    if 0 <= j < inc.len() {
        let e = inc[j];
        let c1 = merge_step(c, e);
        let d = merge_from(c1, inc, j + 1);
        lemma_merge_idempotent_from(c1, inc, j + 1);
        lemma_merge_step_ids(c, e);
        lemma_merge_keeps_id(c1, inc, j + 1, e.id);
        lemma_find_id_props(d, e.id, 0);
        let k = find_id(d, e.id)->Some_0;
        if exists|m: int| j + 1 <= m < inc.len() && inc[m].id == e.id {
            let d2 = d.update(k, e);
            assert(d2[k].id == d[k].id);
            assert(forall|m: int| 0 <= m < k ==> d2[m].id != d2[k].id) by {
                assert(forall|m: int| 0 <= m < k ==> d[m].id != e.id);
            }
            lemma_merge_overwrites_diff(d2, d, inc, j + 1, k);
        } else {
            assert(forall|m: int| j + 1 <= m < inc.len() ==> inc[m].id != e.id);
            lemma_find_id_props(c1, e.id, 0);
            let k1 = find_id(c1, e.id)->Some_0;
            assert(c1[k1] == e) by {
                lemma_find_id_props(c, e.id, 0);
                match find_id(c, e.id) {
                    Some(p) => {
                        assert(c1 == c.update(p, e));
                        assert(find_id_from(c1, e.id, 0) == find_id_from(c, e.id, 0)) by {
                            lemma_find_id_same_ids(c, c1, e.id, 0);
                        }
                        assert(k1 == p);
                    },
                    None => {
                        lemma_find_id_push(c, e, e.id, 0);
                        assert(k1 == c.len());
                        assert(c1[k1] == e);
                    },
                }
            }
            lemma_merge_absent_id(c1, inc, j + 1, e.id);
            assert(find_id(d, e.id) == find_id(c1, e.id));
            assert(d[k] == c1[k1]);
            assert(d[k] == e);
            assert(merge_step(d, e) =~= d);
        }
    }
}

/// Writing the same collection twice in a row leaves the same state as
/// writing it once: merging a collection into an already-merged result
/// changes nothing.
pub proof fn lemma_merge_idempotent(c: Seq<TaskView>, inc: Seq<TaskView>)
    ensures
        spec_merge(spec_merge(c, inc), inc) == spec_merge(c, inc),
{
    lemma_merge_idempotent_from(c, inc, 0);
}

/// A merge-write to a previously empty list followed by a read yields
/// exactly the written collection, order preserved: the write's contract
/// leaves `spec_merge` of the old state on disk, the read's contract hands
/// it back, and on an empty list that merge is the incoming collection
/// itself, provided its ids are pairwise distinct.
pub proof fn lemma_write_then_read(
    fs_old: Seq<FileView>,
    fs_new: Seq<FileView>,
    list_name: Seq<char>,
    inc: Seq<TaskView>,
)
    requires
        disk_tasks(fs_old, list_name) == Seq::<TaskView>::empty(),
        Tasks::ids_distinct(inc),
        disk_tasks(fs_new, list_name) == spec_merge(disk_tasks(fs_old, list_name), inc),
    ensures
        disk_tasks(fs_new, list_name) == inc,
{
    lemma_merge_into_empty(inc);
}

/// Merging a collection with pairwise distinct ids into the empty
/// collection yields exactly that collection, order preserved.
pub proof fn lemma_merge_into_empty(inc: Seq<TaskView>)
    requires
        Tasks::ids_distinct(inc),
    ensures
        spec_merge(Seq::empty(), inc) == inc,
{
    lemma_merge_prefix(inc, 0);
    assert(inc.take(0) =~= Seq::<TaskView>::empty());
}

/// Merging the tail of a distinct-id collection into its own prefix
/// appends each entry in turn.
proof fn lemma_merge_prefix(inc: Seq<TaskView>, j: int)
    requires
        Tasks::ids_distinct(inc),
        0 <= j <= inc.len(),
    ensures
        merge_from(inc.take(j), inc, j) == inc,
    decreases inc.len() - j,
{
    if j < inc.len() {
        let c = inc.take(j);
        let e = inc[j];
        assert(find_id(c, e.id) is None) by {
            lemma_find_id_props(c, e.id, 0);
            match find_id(c, e.id) {
                Some(p) => {
                    assert(c[p] == inc[p]);
                    assert(false);
                },
                None => {},
            }
        }
        assert(merge_step(c, e) =~= inc.take(j + 1));
        lemma_merge_prefix(inc, j + 1);
    } else {
        assert(inc.take(j) =~= inc);
    }
}

/// Merging an updated entry and a new entry into a two-entry collection
/// replaces the matching entry in place, keeps the untouched entry, and
/// appends the new one.
pub proof fn lemma_merge_update_and_append(a: TaskView, b: TaskView, a2: TaskView, c: TaskView)
    requires
        a2.id == a.id,
        b.id != a.id,
        c.id != a.id,
        c.id != b.id,
    ensures
        spec_merge(seq![a, b], seq![a2, c]) == seq![a2, b, c],
{
    let cur = seq![a, b];
    assert(find_id(cur, a2.id) == Some(0int));
    let cur1 = cur.update(0, a2);
    assert(merge_step(cur, a2) == cur1);
    assert(cur1[0] == a2 && cur1[1] == b);
    assert(find_id_from(cur1, c.id, 0) == find_id_from(cur1, c.id, 1));
    assert(find_id_from(cur1, c.id, 1) == find_id_from(cur1, c.id, 2));
    assert(find_id(cur1, c.id) is None);
    assert(merge_step(cur1, c) == cur1.push(c));
    assert(seq![a2, c][0] == a2 && seq![a2, c][1] == c);
    assert(merge_from(cur, seq![a2, c], 0) == merge_from(merge_step(cur, a2), seq![a2, c], 1));
    assert(merge_from(cur1, seq![a2, c], 1) == merge_from(merge_step(cur1, c), seq![a2, c], 2));
    assert(merge_from(cur1.push(c), seq![a2, c], 2) == cur1.push(c));
    assert(spec_merge(seq![a, b], seq![a2, c]) == cur1.push(c));
    assert(cur1.push(c) =~= seq![a2, b, c]);
}

/// Deleting an id that a distinct-id collection holds removes exactly one
/// entry, and the renumbering gives every remaining entry its zero-based
/// position as its id.
pub proof fn lemma_delete_renumbers(s: Seq<TaskView>, id: int)
    requires
        Tasks::ids_distinct(s),
        find_id(s, id) is Some,
    ensures
        remove_id(s, id).len() == s.len() - 1,
        forall|m: int| 0 <= m < renumber(remove_id(s, id)).len()
            ==> #[trigger] renumber(remove_id(s, id))[m].id == m,
        Tasks::ids_distinct(renumber(remove_id(s, id))),
{
    lemma_find_id_props(s, id, 0);
    lemma_remove_len(s, id, 0);
}

/// The length of a removal: one less than the suffix when the suffix holds
/// the id of a distinct-id collection, unchanged otherwise.
proof fn lemma_remove_len(s: Seq<TaskView>, id: int, k: int)
    requires
        Tasks::ids_distinct(s),
        0 <= k <= s.len(),
    ensures
        remove_id_from(s, id, k).len() == s.len() - k - (match find_id_from(s, id, k) {
            Some(p) => 1int,
            None => 0int,
        }),
    decreases s.len() - k,
{
    if k < s.len() {
        lemma_remove_len(s, id, k + 1);
        if s[k].id == id {
            assert(find_id_from(s, id, k) == Some(k));
            assert(find_id_from(s, id, k + 1) is None) by {
                lemma_find_id_props(s, id, k + 1);
                match find_id_from(s, id, k + 1) {
                    Some(p) => {
                        assert(s[k].id == s[p].id);
                        assert(false);
                    },
                    None => {},
                }
            }
        }
    }
}

/// A merge-write keeps ids unique: merging any incoming collection into a
/// distinct-id collection yields a distinct-id collection, so the id
/// uniqueness of a list at rest is an invariant of the store.
pub proof fn lemma_merge_keeps_distinct(c: Seq<TaskView>, inc: Seq<TaskView>)
    requires
        Tasks::ids_distinct(c),
    ensures
        Tasks::ids_distinct(spec_merge(c, inc)),
{
    lemma_merge_distinct_from(c, inc, 0);
}

/// Each merge step keeps ids unique.
proof fn lemma_merge_distinct_from(c: Seq<TaskView>, inc: Seq<TaskView>, j: int)
    requires
        Tasks::ids_distinct(c),
    ensures
        Tasks::ids_distinct(merge_from(c, inc, j)),
    decreases inc.len() - j,
{
    if 0 <= j < inc.len() {
        let e = inc[j];
        lemma_find_id_props(c, e.id, 0);
        let c2 = merge_step(c, e);
        assert(Tasks::ids_distinct(c2)) by {
            match find_id(c, e.id) {
                Some(p) => {
                    assert(forall|m: int| 0 <= m < c.len() ==> c2[m].id == c[m].id);
                },
                None => {
                    assert(forall|m: int| 0 <= m < c.len() ==> c2[m] == c[m] && c[m].id != e.id);
                    assert(c2[c.len() as int] == e);
                },
            }
        }
        lemma_merge_distinct_from(c2, inc, j + 1);
    }
}

} // verus!
