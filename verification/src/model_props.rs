//! Facts about the scan model: how far a scan reads in its cancellation
//! record, what a scan that was never cancelled reports, and how the
//! children of a directory are ordered.
use vstd::prelude::*;
use crate::model::{
    children_bytes, deep_model, expand_model, expands, insert_by_size, next_limit, node_bytes,
    observed_cancel, scan_model, sort_by_size, EntryKind, EntryModel, FsModel,
};

verus! {

broadcast use vstd::seq_lib::group_seq_properties;

// ---------------------------------------------------------------------------
// Positions only move forward.
// ---------------------------------------------------------------------------

/// A scan asks at least once, and only moves forward in the record.
pub proof fn lemma_scan_pos(n: FsModel, limit: nat, depth: nat, obs: Seq<bool>, k: int)
    ensures
        scan_model(n, limit, depth, obs, k).1 >= k + 1,
    decreases n,
{
    if !observed_cancel(obs, k) && n.kind == EntryKind::Dir {
        if expands(limit, depth) {
            lemma_expand_pos(n.children, next_limit(limit), depth + 1, obs, k + 1);
        } else {
            lemma_deep_pos(n.children, obs, k + 1);
        }
    }
}

/// Listing entries only moves forward in the record.
pub proof fn lemma_expand_pos(cs: Seq<FsModel>, limit: nat, depth: nat, obs: Seq<bool>, k: int)
    ensures
        expand_model(cs, limit, depth, obs, k).pos >= k,
        cs.len() > 0 ==> expand_model(cs, limit, depth, obs, k).pos >= expand_model(
            cs.drop_last(),
            limit,
            depth,
            obs,
            k,
        ).pos,
    decreases cs,
{
    if cs.len() > 0 {
        lemma_expand_pos(cs.drop_last(), limit, depth, obs, k);
        let prev = expand_model(cs.drop_last(), limit, depth, obs, k);
        if !prev.stopped && !observed_cancel(obs, prev.pos) && cs.last().kind == EntryKind::Dir {
            lemma_scan_pos(cs.last(), limit, depth, obs, prev.pos + 1);
        }
    }
}

/// Walking a subtree only moves forward in the record.
pub proof fn lemma_deep_pos(cs: Seq<FsModel>, obs: Seq<bool>, k: int)
    ensures
        deep_model(cs, obs, k).pos >= k,
        cs.len() > 0 ==> deep_model(cs, obs, k).pos >= deep_model(cs.drop_last(), obs, k).pos,
    decreases cs,
{
    if cs.len() > 0 {
        lemma_deep_pos(cs.drop_last(), obs, k);
        let prev = deep_model(cs.drop_last(), obs, k);
        if !prev.stopped && !observed_cancel(obs, prev.pos) && cs.last().kind == EntryKind::Dir {
            lemma_deep_pos(cs.last().children, obs, prev.pos + 1);
        }
    }
}

// ---------------------------------------------------------------------------
// A scan depends only on the answers it has read.
// ---------------------------------------------------------------------------

/// Two records give the same answers to the first `n` checks.
pub open spec fn same_answers(obs: Seq<bool>, obs2: Seq<bool>, n: int) -> bool {
    forall|p: int| 0 <= p < n ==> #[trigger] observed_cancel(obs, p) == observed_cancel(obs2, p)
}

/// A record agrees with any extension of it on its own length.
pub proof fn lemma_prefix_same_answers(obs: Seq<bool>, obs2: Seq<bool>)
    requires
        obs.is_prefix_of(obs2),
    ensures
        same_answers(obs, obs2, obs.len() as int),
{
    assert forall|p: int| 0 <= p < obs.len() implies #[trigger] observed_cancel(obs, p)
        == observed_cancel(obs2, p) by {
        assert(obs2.subrange(0, obs.len() as int)[p] == obs2[p]);
    }
}

/// A record and an extension of it give the same answer where the record
/// has one.
pub proof fn lemma_obs_agree(obs: Seq<bool>, obs2: Seq<bool>, p: int)
    requires
        obs.is_prefix_of(obs2),
        p < obs.len(),
    ensures
        observed_cancel(obs2, p) == observed_cancel(obs, p),
{
    if 0 <= p {
        assert(obs2.subrange(0, obs.len() as int)[p] == obs2[p]);
    }
}

/// A scan depends only on the answers to the checks it makes.
pub proof fn lemma_scan_stable(
    n: FsModel,
    limit: nat,
    depth: nat,
    obs: Seq<bool>,
    obs2: Seq<bool>,
    k: int,
    m: int,
)
    requires
        same_answers(obs, obs2, m),
        scan_model(n, limit, depth, obs, k).1 <= m,
    ensures
        scan_model(n, limit, depth, obs2, k) == scan_model(n, limit, depth, obs, k),
    decreases n,
{
    lemma_scan_pos(n, limit, depth, obs, k);
    if 0 <= k {
        assert(observed_cancel(obs, k) == observed_cancel(obs2, k));
    }
    if !observed_cancel(obs, k) && n.kind == EntryKind::Dir {
        if expands(limit, depth) {
            lemma_expand_stable(n.children, next_limit(limit), depth + 1, obs, obs2, k + 1, m);
        } else {
            lemma_deep_stable(n.children, obs, obs2, k + 1, m);
        }
    }
}

/// A listing depends only on the answers to the checks it makes.
pub proof fn lemma_expand_stable(
    cs: Seq<FsModel>,
    limit: nat,
    depth: nat,
    obs: Seq<bool>,
    obs2: Seq<bool>,
    k: int,
    m: int,
)
    requires
        same_answers(obs, obs2, m),
        expand_model(cs, limit, depth, obs, k).pos <= m,
    ensures
        expand_model(cs, limit, depth, obs2, k) == expand_model(cs, limit, depth, obs, k),
    decreases cs,
{
    if cs.len() > 0 {
        lemma_expand_pos(cs, limit, depth, obs, k);
        lemma_expand_stable(cs.drop_last(), limit, depth, obs, obs2, k, m);
        let prev = expand_model(cs.drop_last(), limit, depth, obs, k);
        if !prev.stopped {
            let c = cs.last();
            if !observed_cancel(obs, prev.pos) && c.kind == EntryKind::Dir {
                lemma_scan_pos(c, limit, depth, obs, prev.pos + 1);
                lemma_scan_stable(c, limit, depth, obs, obs2, prev.pos + 1, m);
            }
            if 0 <= prev.pos {
                assert(observed_cancel(obs, prev.pos) == observed_cancel(obs2, prev.pos));
            }
        }
    }
}

/// A walk depends only on the answers to the checks it makes.
pub proof fn lemma_deep_stable(cs: Seq<FsModel>, obs: Seq<bool>, obs2: Seq<bool>, k: int, m: int)
    requires
        same_answers(obs, obs2, m),
        deep_model(cs, obs, k).pos <= m,
    ensures
        deep_model(cs, obs2, k) == deep_model(cs, obs, k),
    decreases cs,
{
    if cs.len() > 0 {
        lemma_deep_pos(cs, obs, k);
        lemma_deep_stable(cs.drop_last(), obs, obs2, k, m);
        let prev = deep_model(cs.drop_last(), obs, k);
        if !prev.stopped {
            let c = cs.last();
            if !observed_cancel(obs, prev.pos) && c.kind == EntryKind::Dir {
                lemma_deep_pos(c.children, obs, prev.pos + 1);
                lemma_deep_stable(c.children, obs, obs2, prev.pos + 1, m);
            }
            if 0 <= prev.pos {
                assert(observed_cancel(obs, prev.pos) == observed_cancel(obs2, prev.pos));
            }
        }
    }
}

// ---------------------------------------------------------------------------
// Once stopped, a listing or a walk stays stopped.
// ---------------------------------------------------------------------------

/// A listing that stopped at entry `i` ignores the entries after it.
pub proof fn lemma_expand_stopped(cs: Seq<FsModel>, i: int, limit: nat, depth: nat, obs: Seq<bool>, k: int)
    requires
        0 <= i <= cs.len(),
        expand_model(cs.take(i), limit, depth, obs, k).stopped,
    ensures
        expand_model(cs, limit, depth, obs, k) == expand_model(cs.take(i), limit, depth, obs, k),
    decreases cs.len() - i,
{
    if i < cs.len() {
        assert(cs.take(i + 1).drop_last() =~= cs.take(i));
        lemma_expand_stopped(cs, i + 1, limit, depth, obs, k);
    } else {
        assert(cs.take(i) =~= cs);
    }
}

/// A walk that stopped at entry `i` ignores the entries after it.
pub proof fn lemma_deep_stopped(cs: Seq<FsModel>, i: int, obs: Seq<bool>, k: int)
    requires
        0 <= i <= cs.len(),
        deep_model(cs.take(i), obs, k).stopped,
    ensures
        deep_model(cs, obs, k) == deep_model(cs.take(i), obs, k),
    decreases cs.len() - i,
{
    if i < cs.len() {
        assert(cs.take(i + 1).drop_last() =~= cs.take(i));
        lemma_deep_stopped(cs, i + 1, obs, k);
    } else {
        assert(cs.take(i) =~= cs);
    }
}

// ---------------------------------------------------------------------------
// Depth no longer matters once the limit is 0.
// ---------------------------------------------------------------------------

/// With limit 0 every directory is listed, whatever its depth.
pub proof fn lemma_scan_depth_free(n: FsModel, a: nat, b: nat, obs: Seq<bool>, k: int)
    ensures
        scan_model(n, 0, a, obs, k) == scan_model(n, 0, b, obs, k),
    decreases n,
{
    if !observed_cancel(obs, k) && n.kind == EntryKind::Dir {
        lemma_expand_depth_free(n.children, a + 1, b + 1, obs, k + 1);
    }
}

/// With limit 0 a listing does not depend on the depth.
pub proof fn lemma_expand_depth_free(cs: Seq<FsModel>, a: nat, b: nat, obs: Seq<bool>, k: int)
    ensures
        expand_model(cs, 0, a, obs, k) == expand_model(cs, 0, b, obs, k),
    decreases cs,
{
    if cs.len() > 0 {
        lemma_expand_depth_free(cs.drop_last(), a, b, obs, k);
        let prev = expand_model(cs.drop_last(), 0, a, obs, k);
        if !prev.stopped && !observed_cancel(obs, prev.pos) && cs.last().kind == EntryKind::Dir {
            lemma_scan_depth_free(cs.last(), a, b, obs, prev.pos + 1);
        }
    }
}

// ---------------------------------------------------------------------------
// Sizes.
// ---------------------------------------------------------------------------

/// A prefix of a list of entries holds no more bytes than the whole list.
pub proof fn lemma_children_bytes_prefix(cs: Seq<FsModel>, i: int)
    requires
        0 <= i <= cs.len(),
    ensures
        children_bytes(cs.take(i)) <= children_bytes(cs),
    decreases cs.len(),
{
    if i < cs.len() {
        assert(cs.drop_last().take(i) =~= cs.take(i));
        lemma_children_bytes_prefix(cs.drop_last(), i);
    } else {
        assert(cs.take(i) =~= cs);
    }
}

/// Whatever the answers to its cancellation checks, a scan reports at most
/// the total size of the regular files under the node.
pub proof fn lemma_scan_bounded(n: FsModel, limit: nat, depth: nat, obs: Seq<bool>, k: int)
    ensures
        scan_model(n, limit, depth, obs, k).0.size <= node_bytes(n),
    decreases n,
{
    if !observed_cancel(obs, k) && n.kind == EntryKind::Dir {
        if expands(limit, depth) {
            lemma_expand_bounded(n.children, next_limit(limit), depth + 1, obs, k + 1);
        } else {
            lemma_deep_bounded(n.children, obs, k + 1);
        }
    }
}

/// A listing sums at most the bytes of the entries it lists.
pub proof fn lemma_expand_bounded(cs: Seq<FsModel>, limit: nat, depth: nat, obs: Seq<bool>, k: int)
    ensures
        expand_model(cs, limit, depth, obs, k).size <= children_bytes(cs),
    decreases cs,
{
    if cs.len() > 0 {
        lemma_expand_bounded(cs.drop_last(), limit, depth, obs, k);
        let prev = expand_model(cs.drop_last(), limit, depth, obs, k);
        if !prev.stopped && !observed_cancel(obs, prev.pos) && cs.last().kind == EntryKind::Dir {
            lemma_scan_bounded(cs.last(), limit, depth, obs, prev.pos + 1);
        }
    }
}

/// A walk sums at most the bytes below the entries it walks.
pub proof fn lemma_deep_bounded(cs: Seq<FsModel>, obs: Seq<bool>, k: int)
    ensures
        deep_model(cs, obs, k).size <= children_bytes(cs),
    decreases cs,
{
    if cs.len() > 0 {
        lemma_deep_bounded(cs.drop_last(), obs, k);
        let prev = deep_model(cs.drop_last(), obs, k);
        if !prev.stopped && !observed_cancel(obs, prev.pos) && cs.last().kind == EntryKind::Dir {
            lemma_deep_bounded(cs.last().children, obs, prev.pos + 1);
            assert(node_bytes(cs.last()) == children_bytes(cs.last().children));
        }
    }
}

/// A scan that is never cancelled reports, for a directory, the total size of
/// the regular files below it, however deep the listing goes; for anything
/// else, its own length.
pub proof fn lemma_scan_uncancelled_size(n: FsModel, limit: nat, depth: nat, k: int)
    ensures
        scan_model(n, limit, depth, Seq::empty(), k).0.size == node_bytes(n),
    decreases n,
{
    if n.kind == EntryKind::Dir {
        if expands(limit, depth) {
            lemma_expand_uncancelled_size(n.children, next_limit(limit), depth + 1, k + 1);
        } else {
            lemma_deep_uncancelled_size(n.children, k + 1);
        }
    }
}

/// An uncancelled listing sums all bytes of its entries and never stops.
pub proof fn lemma_expand_uncancelled_size(cs: Seq<FsModel>, limit: nat, depth: nat, k: int)
    ensures
        expand_model(cs, limit, depth, Seq::empty(), k).size == children_bytes(cs),
        !expand_model(cs, limit, depth, Seq::empty(), k).stopped,
    decreases cs,
{
    if cs.len() > 0 {
        lemma_expand_uncancelled_size(cs.drop_last(), limit, depth, k);
        let prev = expand_model(cs.drop_last(), limit, depth, Seq::empty(), k);
        if cs.last().kind == EntryKind::Dir {
            lemma_scan_uncancelled_size(cs.last(), limit, depth, prev.pos + 1);
        }
    }
}

/// An uncancelled walk sums all bytes below its entries and never stops.
pub proof fn lemma_deep_uncancelled_size(cs: Seq<FsModel>, k: int)
    ensures
        deep_model(cs, Seq::empty(), k).size == children_bytes(cs),
        !deep_model(cs, Seq::empty(), k).stopped,
    decreases cs,
{
    if cs.len() > 0 {
        lemma_deep_uncancelled_size(cs.drop_last(), k);
        let prev = deep_model(cs.drop_last(), Seq::empty(), k);
        if cs.last().kind == EntryKind::Dir {
            lemma_deep_uncancelled_size(cs.last().children, prev.pos + 1);
            assert(node_bytes(cs.last()) == children_bytes(cs.last().children));
        }
    }
}

// ---------------------------------------------------------------------------
// Ordering of children.
// ---------------------------------------------------------------------------

/// Sizes never increase along the sequence.
pub open spec fn sorted_by_size(s: Seq<EntryModel>) -> bool {
    forall|i: int, j: int| 0 <= i < j < s.len() ==> s[i].size >= s[j].size
}

/// Where `insert_by_size` puts the new element: after the last element that is
/// at least as large.
pub proof fn lemma_insert_at(s: Seq<EntryModel>, e: EntryModel, j: int)
    requires
        0 <= j <= s.len(),
        j == 0 || s[j - 1].size >= e.size,
        forall|t: int| j <= t < s.len() ==> s[t].size < e.size,
    ensures
        insert_by_size(s, e) == s.insert(j, e),
    decreases s.len(),
{
    if s.len() == 0 {
        assert(s.insert(j, e) =~= seq![e]);
    } else if s.last().size >= e.size {
        assert(j == s.len());
        assert(s.insert(j, e) =~= s.push(e));
    } else {
        lemma_insert_at(s.drop_last(), e, j);
        assert(s.insert(j, e) =~= s.drop_last().insert(j, e).push(s.last()));
    }
}

/// Inserting into a sequence ordered by size keeps it ordered.
pub proof fn lemma_insert_sorted(s: Seq<EntryModel>, e: EntryModel)
    requires
        sorted_by_size(s),
    ensures
        sorted_by_size(insert_by_size(s, e)),
        insert_by_size(s, e).to_multiset() == s.to_multiset().insert(e),
    decreases s.len(),
{
    broadcast use vstd::seq_lib::group_to_multiset_ensures;
    if s.len() == 0 {
        assert(seq![e] =~= Seq::<EntryModel>::empty().push(e));
    } else if s.last().size >= e.size {
    } else {
        let r = insert_by_size(s.drop_last(), e);
        lemma_insert_sorted(s.drop_last(), e);
        assert(s =~= s.drop_last().push(s.last()));
        // every element of `r` is `e` or comes from `s.drop_last()`, so it is at least `s.last()`
        assert forall|i: int| 0 <= i < r.len() implies r[i].size >= s.last().size by {
            assert(r.to_multiset().count(r[i]) > 0);
            assert(s.drop_last().to_multiset().insert(e).count(r[i]) > 0);
            if r[i] != e {
                assert(s.drop_last().to_multiset().count(r[i]) > 0);
                assert(s.drop_last().contains(r[i]));
                let t = choose|t: int| 0 <= t < s.drop_last().len() && s.drop_last()[t] == r[i];
                assert(s[t] == r[i]);
            }
        }
    }
}

/// The children order: largest first, and a permutation of what was collected.
pub proof fn lemma_sort_by_size(s: Seq<EntryModel>)
    ensures
        sorted_by_size(sort_by_size(s)),
        sort_by_size(s).to_multiset() == s.to_multiset(),
    decreases s.len(),
{
    broadcast use vstd::seq_lib::group_to_multiset_ensures;
    if s.len() > 0 {
        lemma_sort_by_size(s.drop_last());
        lemma_insert_sorted(sort_by_size(s.drop_last()), s.last());
        assert(s =~= s.drop_last().push(s.last()));
    }
}

} // verus!

verus! {

// ---------------------------------------------------------------------------
// What every scan produces, whatever its cancellation checks answered.
// ---------------------------------------------------------------------------

/// Every entry a listing collects is a directory, and it has no children of
/// its own when directories at that depth are not listed.
pub proof fn lemma_expand_kids(cs: Seq<FsModel>, limit: nat, depth: nat, obs: Seq<bool>, k: int)
    ensures
        forall|j: int|
            0 <= j < expand_model(cs, limit, depth, obs, k).kids.len() ==> {
                let kid = #[trigger] expand_model(cs, limit, depth, obs, k).kids[j];
                &&& kid.is_dir
                &&& !expands(limit, depth) ==> kid.children.len() == 0
            },
    decreases cs,
{
    if cs.len() > 0 {
        lemma_expand_kids(cs.drop_last(), limit, depth, obs, k);
        let prev = expand_model(cs.drop_last(), limit, depth, obs, k);
        let c = cs.last();
        if !prev.stopped && !observed_cancel(obs, prev.pos) && c.kind == EntryKind::Dir {
            let r = scan_model(c, limit, depth, obs, prev.pos + 1);
            assert(r.0.is_dir);
            assert(!expands(limit, depth) ==> r.0.children.len() == 0);
            let st = expand_model(cs, limit, depth, obs, k);
            assert(st.kids == prev.kids.push(r.0));
            assert forall|j: int| 0 <= j < st.kids.len() implies st.kids[j].is_dir && (!expands(
                limit,
                depth,
            ) ==> st.kids[j].children.len() == 0) by {
                if j < prev.kids.len() {
                    assert(st.kids[j] == prev.kids[j]);
                }
            }
        }
    }
}

/// The children of a scanned directory are directories, ordered largest
/// first, and, for a listed directory, they are exactly the subdirectories
/// the listing collected. A child lists no children of its own when its
/// depth is past the limit.
pub proof fn law_scan_children(n: FsModel, limit: nat, depth: nat, obs: Seq<bool>, k: int)
    ensures
        sorted_by_size(scan_model(n, limit, depth, obs, k).0.children),
        !observed_cancel(obs, k) && n.kind == EntryKind::Dir && expands(limit, depth)
            ==> scan_model(n, limit, depth, obs, k).0.children.to_multiset() == expand_model(
            n.children,
            next_limit(limit),
            depth + 1,
            obs,
            k + 1,
        ).kids.to_multiset(),
        forall|j: int|
            0 <= j < scan_model(n, limit, depth, obs, k).0.children.len() ==> {
                let child = #[trigger] scan_model(n, limit, depth, obs, k).0.children[j];
                &&& child.is_dir
                &&& !expands(next_limit(limit), depth + 1) ==> child.children.len() == 0
            },
{
    broadcast use vstd::seq_lib::group_to_multiset_ensures;
    let e = scan_model(n, limit, depth, obs, k).0;
    if !observed_cancel(obs, k) && n.kind == EntryKind::Dir && expands(limit, depth) {
        let st = expand_model(n.children, next_limit(limit), depth + 1, obs, k + 1);
        lemma_sort_by_size(st.kids);
        lemma_expand_kids(n.children, next_limit(limit), depth + 1, obs, k + 1);
        assert forall|j: int| 0 <= j < e.children.len() implies e.children[j].is_dir && (!expands(
            next_limit(limit),
            depth + 1,
        ) ==> e.children[j].children.len() == 0) by {
            assert(e.children.to_multiset().count(e.children[j]) > 0);
            assert(st.kids.contains(e.children[j]));
        }
    }
}

/// A scan never reports more than the total size of the regular files under
/// the node.
pub proof fn law_scan_size_bounded(n: FsModel, limit: nat, depth: nat, obs: Seq<bool>, k: int)
    ensures
        scan_model(n, limit, depth, obs, k).0.size <= node_bytes(n),
{
    lemma_scan_bounded(n, limit, depth, obs, k);
}

/// A scan whose checks never find it cancelled reports the total size of the
/// regular files under the node, whatever the depth limit.
pub proof fn law_uncancelled_scan_size(n: FsModel, limit: nat)
    ensures
        scan_model(n, limit, 0, Seq::empty(), 0).0.size == node_bytes(n),
{
    lemma_scan_uncancelled_size(n, limit, 0, 0);
}

/// A scan reports the node's own path, and says it is a directory unless it
/// was a non-directory read to the end.
pub proof fn law_scan_root(n: FsModel, limit: nat, depth: nat, obs: Seq<bool>, k: int)
    ensures
        scan_model(n, limit, depth, obs, k).0.path == n.path,
        scan_model(n, limit, depth, obs, k).0.is_dir == (observed_cancel(obs, k) || n.kind
            == EntryKind::Dir),
{
}

} // verus!

verus! {

/// The entries of a given size, in order.
pub open spec fn of_size(s: Seq<EntryModel>, v: nat) -> Seq<EntryModel>
    decreases s.len(),
{
    if s.len() == 0 {
        s
    } else if s.last().size == v {
        of_size(s.drop_last(), v).push(s.last())
    } else {
        of_size(s.drop_last(), v)
    }
}

proof fn lemma_insert_of_size(s: Seq<EntryModel>, e: EntryModel, v: nat)
    ensures
        of_size(insert_by_size(s, e), v) == if e.size == v {
            of_size(s, v).push(e)
        } else {
            of_size(s, v)
        },
    decreases s.len(),
{
    if s.len() > 0 && s.last().size < e.size {
        let r = insert_by_size(s.drop_last(), e);
        lemma_insert_of_size(s.drop_last(), e, v);
        assert(r.push(s.last()).drop_last() =~= r);
    } else if s.len() > 0 {
        assert(s.push(e).drop_last() =~= s);
    } else {
        assert(seq![e].drop_last() =~= s);
    }
}

/// Ordering the children by size is stable: the entries of any one size
/// come out in the order they were collected.
pub proof fn law_sort_stable(s: Seq<EntryModel>, v: nat)
    ensures
        of_size(sort_by_size(s), v) == of_size(s, v),
    decreases s.len(),
{
    if s.len() > 0 {
        law_sort_stable(s.drop_last(), v);
        lemma_insert_of_size(sort_by_size(s.drop_last()), s.last(), v);
    }
}

// ---------------------------------------------------------------------------
// What the listing of a directory holds.
// ---------------------------------------------------------------------------

/// The subdirectories among a list of entries, in order.
pub open spec fn subdirs(cs: Seq<FsModel>) -> Seq<FsModel>
    decreases cs.len(),
{
    if cs.len() == 0 {
        cs
    } else if cs.last().kind == EntryKind::Dir {
        subdirs(cs.drop_last()).push(cs.last())
    } else {
        subdirs(cs.drop_last())
    }
}

/// What a listing shows of a reported entry: its path and its size.
pub open spec fn shown(e: EntryModel) -> (Seq<char>, nat) {
    (e.path, e.size)
}

/// What a listing should show of a subdirectory: its path and the total size
/// of the regular files below it.
pub open spec fn dir_total(c: FsModel) -> (Seq<char>, nat) {
    (c.path, node_bytes(c))
}

/// Without cancellation, where a scan starts counting its checks changes
/// only where it ends, not what it reports.
proof fn lemma_scan_shift(n: FsModel, limit: nat, depth: nat, k: int, j: int)
    ensures
        scan_model(n, limit, depth, Seq::empty(), k).0 == scan_model(n, limit, depth, Seq::empty(), j).0,
        scan_model(n, limit, depth, Seq::empty(), k).1 - k == scan_model(n, limit, depth, Seq::empty(), j).1
            - j,
    decreases n,
{
    if n.kind == EntryKind::Dir {
        if expands(limit, depth) {
            lemma_expand_shift(n.children, next_limit(limit), depth + 1, k + 1, j + 1);
        } else {
            lemma_deep_shift(n.children, k + 1, j + 1);
        }
    }
}

proof fn lemma_expand_shift(cs: Seq<FsModel>, limit: nat, depth: nat, k: int, j: int)
    ensures
        expand_model(cs, limit, depth, Seq::empty(), k).size == expand_model(cs, limit, depth, Seq::empty(), j).size,
        expand_model(cs, limit, depth, Seq::empty(), k).kids == expand_model(cs, limit, depth, Seq::empty(), j).kids,
        expand_model(cs, limit, depth, Seq::empty(), k).stopped == expand_model(cs, limit, depth, Seq::empty(), j).stopped,
        expand_model(cs, limit, depth, Seq::empty(), k).pos - k == expand_model(cs, limit, depth, Seq::empty(), j).pos
            - j,
    decreases cs,
{
    if cs.len() > 0 {
        lemma_expand_shift(cs.drop_last(), limit, depth, k, j);
        let a = expand_model(cs.drop_last(), limit, depth, Seq::empty(), k);
        let b = expand_model(cs.drop_last(), limit, depth, Seq::empty(), j);
        if cs.last().kind == EntryKind::Dir {
            lemma_scan_shift(cs.last(), limit, depth, a.pos + 1, b.pos + 1);
        }
    }
}

proof fn lemma_deep_shift(cs: Seq<FsModel>, k: int, j: int)
    ensures
        deep_model(cs, Seq::empty(), k).size == deep_model(cs, Seq::empty(), j).size,
        deep_model(cs, Seq::empty(), k).stopped == deep_model(cs, Seq::empty(), j).stopped,
        deep_model(cs, Seq::empty(), k).pos - k == deep_model(cs, Seq::empty(), j).pos - j,
    decreases cs,
{
    if cs.len() > 0 {
        lemma_deep_shift(cs.drop_last(), k, j);
        let a = deep_model(cs.drop_last(), Seq::empty(), k);
        let b = deep_model(cs.drop_last(), Seq::empty(), j);
        if cs.last().kind == EntryKind::Dir {
            lemma_deep_shift(cs.last().children, a.pos + 1, b.pos + 1);
        }
    }
}

/// An uncancelled listing collects, in order, the scan of each subdirectory.
proof fn lemma_expand_uncancelled_kids(cs: Seq<FsModel>, limit: nat, depth: nat, k: int)
    ensures
        expand_model(cs, limit, depth, Seq::empty(), k).kids == subdirs(cs).map_values(
            |c: FsModel| scan_model(c, limit, depth, Seq::empty(), 0).0,
        ),
    decreases cs,
{
    if cs.len() > 0 {
        let dl = cs.drop_last();
        lemma_expand_uncancelled_kids(dl, limit, depth, k);
        lemma_expand_uncancelled_size(dl, limit, depth, k);
        let prev = expand_model(dl, limit, depth, Seq::empty(), k);
        let c = cs.last();
        if c.kind == EntryKind::Dir {
            lemma_scan_shift(c, limit, depth, prev.pos + 1, 0);
            assert(subdirs(dl).push(c).map_values(
                |x: FsModel| scan_model(x, limit, depth, Seq::empty(), 0).0,
            ) =~= subdirs(dl).map_values(|x: FsModel| scan_model(x, limit, depth, Seq::empty(), 0).0).push(
                scan_model(c, limit, depth, Seq::empty(), 0).0,
            ));
        }
    }
}

/// `insert_by_size` puts the new element at some position.
proof fn lemma_insert_by_size_inserts(s: Seq<EntryModel>, e: EntryModel) -> (j: int)
    ensures
        0 <= j <= s.len(),
        insert_by_size(s, e) == s.insert(j, e),
    decreases s.len(),
{
    if s.len() == 0 {
        assert(s.insert(0, e) =~= seq![e]);
        0
    } else if s.last().size >= e.size {
        assert(s.insert(s.len() as int, e) =~= s.push(e));
        s.len() as int
    } else {
        let j = lemma_insert_by_size_inserts(s.drop_last(), e);
        assert(s.insert(j, e) =~= s.drop_last().insert(j, e).push(s.last()));
        j
    }
}

/// Ordering by size shows the same entries: what a listing shows of them is
/// only reordered.
proof fn lemma_sort_shows_same(s: Seq<EntryModel>)
    ensures
        sort_by_size(s).map_values(|e: EntryModel| shown(e)).to_multiset() == s.map_values(
            |e: EntryModel| shown(e),
        ).to_multiset(),
        sort_by_size(s).len() == s.len(),
    decreases s.len(),
{
    broadcast use vstd::seq_lib::group_to_multiset_ensures;
    if s.len() > 0 {
        let dl = s.drop_last();
        lemma_sort_shows_same(dl);
        let sd = sort_by_size(dl);
        let j = lemma_insert_by_size_inserts(sd, s.last());
        assert(sd.insert(j, s.last()).map_values(|e: EntryModel| shown(e)) =~= sd.map_values(
            |e: EntryModel| shown(e),
        ).insert(j, shown(s.last())));
        vstd::seq_lib::to_multiset_insert(
            sd.map_values(|e: EntryModel| shown(e)),
            j,
            shown(s.last()),
        );
        assert(s.map_values(|e: EntryModel| shown(e)) =~= dl.map_values(|e: EntryModel| shown(e)).push(
            shown(s.last()),
        ));
    }
}

/// A listed directory that is never cancelled has exactly one child per
/// subdirectory, whatever that subdirectory holds (an empty one included):
/// the children are the scans of its subdirectories, one level deeper, only
/// reordered; so they show the same paths and sizes as the subdirectories,
/// each size the total of the regular files below that subdirectory.
pub proof fn law_listing_has_every_subdir(n: FsModel, limit: nat, depth: nat, k: int)
    requires
        n.kind == EntryKind::Dir,
        expands(limit, depth),
    ensures
        scan_model(n, limit, depth, Seq::empty(), k).0.children.len() == subdirs(n.children).len(),
        scan_model(n, limit, depth, Seq::empty(), k).0.children.to_multiset() == subdirs(
            n.children,
        ).map_values(|c: FsModel| scan_model(c, next_limit(limit), depth + 1, Seq::empty(), 0).0).to_multiset(),
        scan_model(n, limit, depth, Seq::empty(), k).0.children.map_values(|e: EntryModel| shown(e)).to_multiset()
            == subdirs(n.children).map_values(|c: FsModel| dir_total(c)).to_multiset(),
{
    let l2 = next_limit(limit);
    let kids = expand_model(n.children, l2, depth + 1, Seq::empty(), k + 1).kids;
    let sd = subdirs(n.children);
    lemma_expand_uncancelled_kids(n.children, l2, depth + 1, k + 1);
    lemma_sort_shows_same(kids);
    lemma_sort_by_size(kids);
    assert forall|i: int| 0 <= i < kids.len() implies shown(#[trigger] kids[i]) == dir_total(sd[i]) by {
        lemma_scan_uncancelled_size(sd[i], l2, depth + 1, 0);
    }
    assert(kids.map_values(|e: EntryModel| shown(e)) =~= sd.map_values(|c: FsModel| dir_total(c)));
}

/// Checks that all find the scan not cancelled are as good as no checks at
/// all: the scan is the uncancelled one.
pub proof fn law_no_cancel_is_uncancelled(n: FsModel, limit: nat, depth: nat, obs: Seq<bool>, k: int)
    requires
        forall|j: int| 0 <= j < obs.len() ==> !#[trigger] obs[j],
    ensures
        scan_model(n, limit, depth, obs, k) == scan_model(n, limit, depth, Seq::empty(), k),
{
    lemma_scan_pos(n, limit, depth, Seq::empty(), k);
    assert forall|p: int| 0 <= p < scan_model(n, limit, depth, Seq::empty(), k).1 implies
        #[trigger] observed_cancel(Seq::empty(), p) == observed_cancel(obs, p) by {
        if 0 <= p < obs.len() {
            assert(!obs[p]);
        }
    }
    lemma_scan_stable(
        n,
        limit,
        depth,
        Seq::empty(),
        obs,
        k,
        scan_model(n, limit, depth, Seq::empty(), k).1,
    );
}

} // verus!
