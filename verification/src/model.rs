//! Mathematical model of a directory scan.
//!
//! A scan reads a snapshot of the file system (`FsModel`) and produces an
//! `EntryModel` tree. While it runs, the scan asks at fixed points whether it
//! has been cancelled; the answers it got are recorded, in order, in a
//! sequence of booleans (`obs`). Position `k` of that sequence is the answer
//! to the `k`-th question; a position past its end counts as "not cancelled".
use vstd::prelude::*;

verus! {

/// What a directory entry is, as seen without following symbolic links.
/// `Unreadable` is an entry whose metadata could not be read.
#[derive(Clone, Copy, Debug, PartialEq, Eq, Structural)]
pub enum EntryKind {
    Dir,
    File,
    Symlink,
    Other,
    Unreadable,
}

/// A node of a file-system snapshot.
pub struct FsModel {
    pub path: Seq<char>,
    pub kind: EntryKind,
    pub len: nat,
    pub children: Seq<FsModel>,
}

/// A node of the size tree that a scan produces.
pub struct EntryModel {
    pub path: Seq<char>,
    pub size: nat,
    pub is_dir: bool,
    pub children: Seq<EntryModel>,
}

/// Where a scan of a list of directory entries stands.
pub struct ExpandState {
    pub size: nat,
    pub kids: Seq<EntryModel>,
    pub pos: int,
    pub stopped: bool,
}

/// Where a recursive summation of file sizes stands.
pub struct DeepState {
    pub size: nat,
    pub pos: int,
    pub stopped: bool,
}

/// The answer that the `k`-th cancellation check received.
pub open spec fn observed_cancel(obs: Seq<bool>, k: int) -> bool {
    0 <= k < obs.len() && obs[k]
}

/// Whether a directory at depth `depth`, scanned with limit `limit`, lists its
/// subdirectories (otherwise it only sums the sizes of the files below it).
pub open spec fn expands(limit: nat, depth: nat) -> bool {
    depth < limit || limit == 0
}

/// The limit handed to the scans of subdirectories.
pub open spec fn next_limit(limit: nat) -> nat {
    if limit == 0 {
        0
    } else {
        (limit - 1) as nat
    }
}

/// Total size of the regular files under a node (the node's own length when it
/// is not a directory). Symbolic links are never followed.
pub open spec fn node_bytes(n: FsModel) -> nat
    decreases n,
{
    if n.kind == EntryKind::Dir {
        children_bytes(n.children)
    } else {
        n.len
    }
}

/// Total size of the regular files in and under a list of directory entries.
pub open spec fn children_bytes(cs: Seq<FsModel>) -> nat
    decreases cs,
{
    if cs.len() == 0 {
        0
    } else {
        let c = cs.last();
        children_bytes(cs.drop_last()) + if c.kind == EntryKind::File {
            c.len
        } else if c.kind == EntryKind::Dir {
            node_bytes(c)
        } else {
            0
        }
    }
}

/// The entry reported for a scan that found itself cancelled.
pub open spec fn cancelled_entry(n: FsModel) -> EntryModel {
    EntryModel { path: n.path, size: 0, is_dir: true, children: seq![] }
}

/// Scans `n` at depth `depth` with limit `limit`, starting at check `k`.
/// Returns the entry and the number of the next check.
pub open spec fn scan_model(n: FsModel, limit: nat, depth: nat, obs: Seq<bool>, k: int) -> (
    EntryModel,
    int,
)
    decreases n,
{
    if observed_cancel(obs, k) {
        (cancelled_entry(n), k + 1)
    } else if n.kind != EntryKind::Dir {
        (EntryModel { path: n.path, size: n.len, is_dir: false, children: seq![] }, k + 1)
    } else if expands(limit, depth) {
        let st = expand_model(n.children, next_limit(limit), depth + 1, obs, k + 1);
        (
            EntryModel {
                path: n.path,
                size: st.size,
                is_dir: true,
                children: sort_by_size(st.kids),
            },
            st.pos,
        )
    } else {
        let st = deep_model(n.children, obs, k + 1);
        (EntryModel { path: n.path, size: st.size, is_dir: true, children: seq![] }, st.pos)
    }
}

/// Goes through the entries of a listed directory in order: before each
/// entry a cancellation check; subdirectories are scanned, regular files add
/// their length, everything else is passed over.
pub open spec fn expand_model(cs: Seq<FsModel>, limit: nat, depth: nat, obs: Seq<bool>, k: int) -> ExpandState
    decreases cs,
{
    if cs.len() == 0 {
        ExpandState { size: 0, kids: seq![], pos: k, stopped: false }
    } else {
        let prev = expand_model(cs.drop_last(), limit, depth, obs, k);
        if prev.stopped {
            prev
        } else if observed_cancel(obs, prev.pos) {
            ExpandState { pos: prev.pos + 1, stopped: true, ..prev }
        } else {
            let c = cs.last();
            let p = prev.pos + 1;
            if c.kind == EntryKind::Dir {
                let r = scan_model(c, limit, depth, obs, p);
                ExpandState {
                    size: prev.size + r.0.size,
                    kids: prev.kids.push(r.0),
                    pos: r.1,
                    stopped: false,
                }
            } else if c.kind == EntryKind::File {
                ExpandState { size: prev.size + c.len, pos: p, ..prev }
            } else {
                ExpandState { pos: p, ..prev }
            }
        }
    }
}

/// Walks everything below a list of entries in pre-order (each entry, then,
/// for a directory, what lies below it), with a cancellation check before
/// each entry, and sums the lengths of the regular files.
pub open spec fn deep_model(cs: Seq<FsModel>, obs: Seq<bool>, k: int) -> DeepState
    decreases cs,
{
    if cs.len() == 0 {
        DeepState { size: 0, pos: k, stopped: false }
    } else {
        let prev = deep_model(cs.drop_last(), obs, k);
        if prev.stopped {
            prev
        } else if observed_cancel(obs, prev.pos) {
            DeepState { pos: prev.pos + 1, stopped: true, ..prev }
        } else {
            let c = cs.last();
            let p = prev.pos + 1;
            let s = prev.size + if c.kind == EntryKind::File {
                c.len
            } else {
                0
            };
            if c.kind == EntryKind::Dir {
                let sub = deep_model(c.children, obs, p);
                DeepState { size: s + sub.size, pos: sub.pos, stopped: sub.stopped }
            } else {
                DeepState { size: s, pos: p, stopped: false }
            }
        }
    }
}

/// Inserts `e` after every element whose size is at least `e`'s.
pub open spec fn insert_by_size(s: Seq<EntryModel>, e: EntryModel) -> Seq<EntryModel>
    decreases s.len(),
{
    if s.len() == 0 {
        seq![e]
    } else if s.last().size >= e.size {
        s.push(e)
    } else {
        insert_by_size(s.drop_last(), e).push(s.last())
    }
}

/// Orders entries by size, largest first; entries of equal size keep their order.
pub open spec fn sort_by_size(s: Seq<EntryModel>) -> Seq<EntryModel>
    decreases s.len(),
{
    if s.len() == 0 {
        s
    } else {
        insert_by_size(sort_by_size(s.drop_last()), s.last())
    }
}

} // verus!
