//! Directory scanning: from a snapshot of a directory tree to the tree of
//! sizes that the disk view shows.
use std::sync::atomic::{AtomicBool, AtomicU64, Ordering};
use std::sync::Arc;
use vstd::prelude::*;
use crate::model::{
    children_bytes, deep_model, expand_model, insert_by_size, node_bytes, observed_cancel,
    scan_model, sort_by_size, DeepState, EntryKind, EntryModel, ExpandState, FsModel,
};
use crate::model_props::{
    lemma_children_bytes_prefix, lemma_deep_bounded, lemma_deep_stable, lemma_deep_stopped,
    lemma_expand_bounded, lemma_expand_depth_free, lemma_expand_stable, lemma_expand_stopped,
    lemma_insert_at, lemma_obs_agree,
    lemma_prefix_same_answers, lemma_scan_stable, law_no_cancel_is_uncancelled,
    law_uncancelled_scan_size, same_answers,
};

verus! {

/// One node of a snapshot of a directory tree, as read from the disk.
///
/// The root node's `kind` is `Dir` when its path is a directory once links
/// are followed; its `len` is the length its metadata reports (0 when it could
/// not be read). Every other node describes an entry of its parent directory
/// as seen without following links, in the order the listing gave it; a
/// directory node lists its own entries in `children`.
#[derive(Debug)]
pub struct FsNode {
    pub path: String,
    pub kind: EntryKind,
    pub len: u64,
    pub children: Vec<FsNode>,
}

/// The model of a snapshot node.
pub open spec fn fs_model(n: FsNode) -> FsModel
    decreases n,
{
    FsModel {
        path: n.path@,
        kind: n.kind,
        len: n.len as nat,
        children: Seq::new(
            n.children.len() as nat,
            |i: int|
                {
                    if 0 <= i < n.children.len() {
                        proof {
                            assert(decreases_to!(n => n.children[i]));
                        }
                        fs_model(n.children[i])
                    } else {
                        arbitrary()
                    }
                },
        ),
    }
}

impl View for FsNode {
    type V = FsModel;

    open spec fn view(&self) -> FsModel {
        fs_model(*self)
    }
}

/// The models of a list of snapshot nodes.
pub open spec fn fs_views(v: Seq<FsNode>) -> Seq<FsModel> {
    Seq::new(v.len(), |i: int| v[i]@)
}

/// A scanned directory (or file) with its size in bytes and, for a listed
/// directory, its subdirectories, largest first.
#[derive(Debug)]
pub struct DirEntry {
    pub path: String,
    pub size: u64,
    pub is_dir: bool,
    pub children: Vec<DirEntry>,
}

/// The model of a scanned entry.
pub open spec fn entry_model(e: DirEntry) -> EntryModel
    decreases e,
{
    EntryModel {
        path: e.path@,
        size: e.size as nat,
        is_dir: e.is_dir,
        children: Seq::new(
            e.children.len() as nat,
            |i: int|
                {
                    if 0 <= i < e.children.len() {
                        proof {
                            assert(decreases_to!(e => e.children[i]));
                        }
                        entry_model(e.children[i])
                    } else {
                        arbitrary()
                    }
                },
        ),
    }
}

impl View for DirEntry {
    type V = EntryModel;

    open spec fn view(&self) -> EntryModel {
        entry_model(*self)
    }
}

impl Clone for DirEntry {
    fn clone(&self) -> (r: Self)
        ensures
            r@ == self@,
        decreases self,
    {
        let mut children: Vec<DirEntry> = Vec::new();
        let mut i: usize = 0;
        while i < self.children.len()
            invariant
                i <= self.children.len(),
                children@.len() == i,
                forall|j: int| 0 <= j < i ==> children@[j]@ == self.children@[j]@,
            decreases self.children.len() - i,
        {
            proof {
                assert(decreases_to!(self => self.children[i as int]));
            }
            let c = self.children[i].clone();
            children.push(c);
            i = i + 1;
        }
        let r = DirEntry { path: self.path.clone(), size: self.size, is_dir: self.is_dir, children };
        assert(r@.children =~= self@.children);
        r
    }
}

/// The models of a list of scanned entries.
pub open spec fn entry_views(v: Seq<DirEntry>) -> Seq<EntryModel> {
    Seq::new(v.len(), |i: int| v[i]@)
}

proof fn lemma_prefix_trans(a: Seq<bool>, b: Seq<bool>, c: Seq<bool>)
    requires
        a.is_prefix_of(b),
        b.is_prefix_of(c),
    ensures
        a.is_prefix_of(c),
{
    assert forall|i: int| 0 <= i < a.len() implies a[i] == c[i] by {
        assert(b.subrange(0, a.len() as int)[i] == b[i]);
        assert(c.subrange(0, b.len() as int)[i] == c[i]);
    }
    assert(a =~= c.subrange(0, a.len() as int));
}

proof fn lemma_prefix_push(a: Seq<bool>, x: bool)
    ensures
        a.is_prefix_of(a.push(x)),
{
    assert(a =~= a.push(x).subrange(0, a.len() as int));
}

impl FsNode {
    /// The total size of the regular files under this node (its own length
    /// when it is not a directory), or `None` when that does not fit in a `u64`.
    pub fn file_bytes(&self) -> (r: Option<u64>)
        ensures
            r == (if node_bytes(self@) <= u64::MAX {
                Some(node_bytes(self@) as u64)
            } else {
                None::<u64>
            }),
        decreases self,
    {
        match self.kind {
            EntryKind::Dir => {},
            _ => return Some(self.len),
        }
        let ghost cs = fs_views(self.children@);
        assert(self@.children =~= cs);
        assert(node_bytes(self@) == children_bytes(cs));
        let mut acc: u64 = 0;
        let mut i: usize = 0;
        while i < self.children.len()
            invariant
                i <= self.children.len(),
                cs == fs_views(self.children@),
                node_bytes(self@) == children_bytes(cs),
                acc == children_bytes(cs.take(i as int)),
            decreases self.children.len() - i,
        {
            let child = &self.children[i];
            assert(cs.take(i + 1).drop_last() =~= cs.take(i as int));
            assert(cs.take(i + 1).last() == child@);
            let add: Option<u64> = match child.kind {
                EntryKind::File => Some(child.len),
                EntryKind::Dir => {
                    proof {
                        assert(decreases_to!(self => self.children));
                    }
                    child.file_bytes()
                },
                _ => Some(0),
            };
            let next = match add {
                Some(a) => acc.checked_add(a),
                None => None,
            };
            match next {
                Some(n) => {
                    acc = n;
                },
                None => {
                    proof {
                        lemma_children_bytes_prefix(cs, i + 1);
                        assert(children_bytes(cs.take(i + 1)) > u64::MAX);
                        assert(node_bytes(self@) == children_bytes(cs));
                    }
                    return None;
                },
            }
            i = i + 1;
        }
        assert(cs.take(i as int) =~= cs);
        Some(acc)
    }
}

/// What a walk of the whole tree counts: the length of every regular file in
/// it, the root included (links are not followed, so they count nothing).
pub open spec fn walk_bytes(n: FsModel) -> nat {
    if n.kind == EntryKind::Dir {
        children_bytes(n.children)
    } else if n.kind == EntryKind::File {
        n.len
    } else {
        0
    }
}

/// The total length of the regular files in the tree `tree`.
pub fn calculate_dir_size(tree: &FsNode) -> (size: u64)
    requires
        walk_bytes(tree@) <= u64::MAX,
    ensures
        size == walk_bytes(tree@),
{
    match tree.kind {
        EntryKind::Dir => {
            let total = tree.file_bytes();
            match total {
                Some(n) => n,
                None => 0,
            }
        },
        EntryKind::File => tree.len,
        _ => 0,
    }
}

/// A scan that is never cancelled reports, for a directory or a regular file,
/// the total that `calculate_dir_size` counts, whatever the depth limit: the
/// limit changes the shape of the tree of sizes, never the root's size.
pub proof fn law_scan_size_is_dir_size(n: FsModel, limit: nat)
    requires
        n.kind == EntryKind::Dir || n.kind == EntryKind::File,
    ensures
        scan_model(n, limit, 0, Seq::empty(), 0).0.size == walk_bytes(n),
{
    law_uncancelled_scan_size(n, limit);
}

/// Inserts `e` after every entry at least as large; `kids` stays ordered
/// largest first, and entries of equal size keep the order they came in.
fn place_by_size(kids: &mut Vec<DirEntry>, e: DirEntry)
    ensures
        entry_views(final(kids)@) == insert_by_size(entry_views(old(kids)@), e@),
{
    let mut j: usize = kids.len();
    while j > 0 && kids[j - 1].size < e.size
        invariant
            j <= kids.len(),
            forall|t: int| j <= t < kids.len() ==> kids[t].size < e.size,
        decreases j,
    {
        j = j - 1;
    }
    let ghost before = entry_views(kids@);
    proof {
        lemma_insert_at(before, e@, j as int);
    }
    kids.insert(j, e);
    assert(entry_views(kids@) =~= before.insert(j as int, e@));
}

/// Where the answers to a scan's cancellation checks come from: the cancel
/// flag, or a given list (answer `i` to check `i`, "not cancelled" past its end).
enum Answers<'a> {
    Flag(&'a Arc<AtomicBool>),
    Given(&'a Vec<bool>),
}

/// Asks the cancellation checks of one scan, counting the given answers used.
struct Asker<'a> {
    answers: Answers<'a>,
    asked: usize,
}

impl<'a> Asker<'a> {
    /// `log` holds the answers received so far; given answers are replayed in order.
    spec fn tracks(&self, log: Seq<bool>) -> bool {
        match self.answers {
            Answers::Given(v) => {
                &&& self.asked == (if log.len() < v@.len() {
                    log.len()
                } else {
                    v@.len()
                })
                &&& same_answers(log, v@, log.len() as int)
            },
            Answers::Flag(_) => true,
        }
    }

    spec fn source(&self) -> Answers<'a> {
        self.answers
    }

    fn ask(&mut self, Ghost(log): Ghost<Seq<bool>>) -> (r: bool)
        requires
            old(self).tracks(log),
        ensures
            final(self).tracks(log.push(r)),
            final(self).source() == old(self).source(),
    {
        match &self.answers {
            Answers::Flag(flag) => read_flag(flag),
            Answers::Given(v) => {
                let ghost n = log.len() as int;
                let r = if self.asked < v.len() {
                    let r = v[self.asked];
                    self.asked = self.asked + 1;
                    r
                } else {
                    false
                };
                assert forall|p: int| 0 <= p < n + 1 implies #[trigger] observed_cancel(
                    log.push(r),
                    p,
                ) == observed_cancel(v@, p) by {
                    if p < n {
                        assert(observed_cancel(log, p) == observed_cancel(v@, p));
                    }
                }
                r
            },
        }
    }
}

/// The cancel flag as it stands.
fn read_flag(flag: &Arc<AtomicBool>) -> bool {
    flag.load(Ordering::SeqCst)
}

/// Scans snapshots of directory trees, keeping a running total of the sizes
/// it has found, and can be asked, from another thread, to stop.
pub struct Scanner {
    total_size: Arc<AtomicU64>,
    cancel_flag: Arc<AtomicBool>,
}

impl Scanner {
    /// A scanner with a running total of 0 that has not been asked to stop.
    pub fn new() -> Scanner {
        Scanner {
            total_size: Arc::new(AtomicU64::new(0)),
            cancel_flag: Arc::new(AtomicBool::new(false)),
        }
    }

    /// Asks a scan that is running to stop as soon as it next checks.
    pub fn cancel(&self) {
        self.cancel_flag.store(true, Ordering::SeqCst);
    }

    /// The running total: the sum of the sizes of all directories that the
    /// scans since the last reset have finished (wrapping on overflow).
    pub fn get_total_size(&self) -> u64 {
        self.total_size.load(Ordering::SeqCst)
    }

    fn reset(&self) {
        self.cancel_flag.store(false, Ordering::SeqCst);
        self.total_size.store(0, Ordering::SeqCst);
    }

    fn add_to_total(&self, amount: u64) {
        self.total_size.fetch_add(amount, Ordering::SeqCst);
    }

    /// Scans the tree `root` with depth limit `max_depth`, first clearing the
    /// cancel flag and the running total.
    ///
    /// Directories are listed (their subdirectories become children, ordered
    /// largest first) down to the limit; below it only the total size of the
    /// files is computed. A limit of 0 lists every level. Symbolic links are
    /// not followed. Before each entry, and on entering each directory, the
    /// scan checks the cancel flag and stops when it is set. The result is the
    /// scan model of `root` for the answers those checks received.
    pub fn scan_dir(&self, root: &FsNode, max_depth: usize) -> (entry: DirEntry)
        requires
            node_bytes(root@) <= u64::MAX,
        ensures
            exists|obs: Seq<bool>| entry@ == #[trigger] scan_model(root@, max_depth as nat, 0, obs, 0).0,
    {
        self.reset();
        let mut asker = Asker { answers: Answers::Flag(&self.cancel_flag), asked: 0 };
        let (entry, Ghost(obs)) = self.scan_recursive(
            &mut asker,
            root,
            max_depth,
            0,
            Ghost(Seq::empty()),
        );
        assert(entry@ == scan_model(root@, max_depth as nat, 0, obs, 0).0);
        entry
    }

    /// Scans like `scan_dir`, but answers check `i` with `answers[i]` (and
    /// "not cancelled" once the list runs out) instead of reading the flag.
    pub fn scan_dir_answering(&self, root: &FsNode, max_depth: usize, answers: &Vec<bool>) -> (entry:
        DirEntry)
        requires
            node_bytes(root@) <= u64::MAX,
        ensures
            entry@ == scan_model(root@, max_depth as nat, 0, answers@, 0).0,
            (forall|j: int| 0 <= j < answers@.len() ==> !#[trigger] answers@[j]) ==> entry@
                == scan_model(root@, max_depth as nat, 0, Seq::empty(), 0).0 && entry.size
                == node_bytes(root@),
    {
        self.reset();
        let mut asker = Asker { answers: Answers::Given(answers), asked: 0 };
        let (entry, Ghost(obs)) = self.scan_recursive(
            &mut asker,
            root,
            max_depth,
            0,
            Ghost(Seq::empty()),
        );
        proof {
            lemma_scan_stable(root@, max_depth as nat, 0, obs, answers@, 0, obs.len() as int);
            if forall|j: int| 0 <= j < answers@.len() ==> !#[trigger] answers@[j] {
                law_no_cancel_is_uncancelled(root@, max_depth as nat, 0, answers@, 0);
                law_uncancelled_scan_size(root@, max_depth as nat);
            }
        }
        entry
    }

    fn scan_recursive(
        &self,
        asker: &mut Asker,
        node: &FsNode,
        max_depth: usize,
        current_depth: usize,
        Ghost(log): Ghost<Seq<bool>>,
    ) -> (res: (DirEntry, Ghost<Seq<bool>>))
        requires
            node_bytes(node@) <= u64::MAX,
            old(asker).tracks(log),
        ensures
            final(asker).tracks(res.1@),
            final(asker).source() == old(asker).source(),
            log.is_prefix_of(res.1@),
            scan_model(node@, max_depth as nat, current_depth as nat, res.1@, log.len() as int)
                == (res.0@, res.1@.len() as int),
        decreases node, 1nat,
    {
        let cancelled = asker.ask(Ghost(log));
        let ghost obs = log.push(cancelled);
        proof {
            lemma_prefix_push(log, cancelled);
        }
        if cancelled {
            let entry = DirEntry {
                path: node.path.clone(),
                size: 0,
                is_dir: true,
                children: Vec::new(),
            };
            assert(entry@.children =~= Seq::<EntryModel>::empty());
            return (entry, Ghost(obs));
        }
        match node.kind {
            EntryKind::Dir => {},
            _ => {
                let entry = DirEntry {
                    path: node.path.clone(),
                    size: node.len,
                    is_dir: false,
                    children: Vec::new(),
                };
                assert(entry@.children =~= Seq::<EntryModel>::empty());
                return (entry, Ghost(obs));
            },
        }
        let ghost cs = fs_views(node.children@);
        assert(node@.children =~= cs);
        let next_max: usize = if max_depth == 0 {
            0
        } else {
            max_depth - 1
        };
        let next_depth = current_depth.saturating_add(1);
        if current_depth < max_depth || max_depth == 0 {
            let (total, children, Ghost(obs2)) = self.list_children(
                asker,
                &node.children,
                next_max,
                next_depth,
                Ghost(obs),
            );
            self.add_to_total(total);
            let entry = DirEntry { path: node.path.clone(), size: total, is_dir: true, children };
            proof {
                lemma_prefix_trans(log, obs, obs2);
                lemma_obs_agree(obs, obs2, log.len() as int);
                if max_depth == 0 {
                    lemma_expand_depth_free(
                        cs,
                        next_depth as nat,
                        current_depth as nat + 1,
                        obs2,
                        obs.len() as int,
                    );
                }
                assert(entry@.children =~= entry_views(entry.children@));
            }
            (entry, Ghost(obs2))
        } else {
            let (total, stopped, Ghost(obs2)) = self.sum_files_below(
                asker,
                &node.children,
                Ghost(obs),
            );
            self.add_to_total(total);
            let entry = DirEntry {
                path: node.path.clone(),
                size: total,
                is_dir: true,
                children: Vec::new(),
            };
            proof {
                lemma_prefix_trans(log, obs, obs2);
                lemma_obs_agree(obs, obs2, log.len() as int);
                assert(entry@.children =~= Seq::<EntryModel>::empty());
            }
            (entry, Ghost(obs2))
        }
    }

    /// Goes through the entries of a listed directory: scans each
    /// subdirectory, adds the length of each regular file, and stops at the
    /// first check that finds the scan cancelled.
    fn list_children(
        &self,
        asker: &mut Asker,
        entries: &Vec<FsNode>,
        max_depth: usize,
        current_depth: usize,
        Ghost(log): Ghost<Seq<bool>>,
    ) -> (res: (u64, Vec<DirEntry>, Ghost<Seq<bool>>))
        requires
            children_bytes(fs_views(entries@)) <= u64::MAX,
            old(asker).tracks(log),
        ensures
            final(asker).tracks(res.2@),
            final(asker).source() == old(asker).source(),
            log.is_prefix_of(res.2@),
            expand_model(
                fs_views(entries@),
                max_depth as nat,
                current_depth as nat,
                res.2@,
                log.len() as int,
            ).pos == res.2@.len(),
            expand_model(
                fs_views(entries@),
                max_depth as nat,
                current_depth as nat,
                res.2@,
                log.len() as int,
            ).size == res.0,
            sort_by_size(
                expand_model(
                    fs_views(entries@),
                    max_depth as nat,
                    current_depth as nat,
                    res.2@,
                    log.len() as int,
                ).kids,
            ) == entry_views(res.1@),
        decreases entries, 0nat,
    {
        let ghost cs = fs_views(entries@);
        let ghost k = log.len() as int;
        let ghost lim = max_depth as nat;
        let ghost dep = current_depth as nat;
        let ghost source = asker.source();
        let mut total: u64 = 0;
        let mut children: Vec<DirEntry> = Vec::new();
        let ghost mut obs = log;
        let ghost mut gathered: Seq<EntryModel> = seq![];
        let mut i: usize = 0;
        assert(cs.take(0) =~= Seq::<FsModel>::empty());
        assert(cs.take(entries.len() as int) =~= cs);
        assert(entry_views(children@) =~= Seq::<EntryModel>::empty());
        while i < entries.len()
            invariant_except_break
                expand_model(cs.take(i as int), lim, dep, obs, k) == (ExpandState {
                    size: total as nat,
                    kids: gathered,
                    pos: obs.len() as int,
                    stopped: false,
                }),
                entry_views(children@) == sort_by_size(gathered),
            invariant
                i <= entries.len(),
                cs == fs_views(entries@),
                k == log.len(),
                lim == max_depth,
                dep == current_depth,
                children_bytes(cs) <= u64::MAX,
                log.is_prefix_of(obs),
                cs.take(entries.len() as int) == cs,
                asker.tracks(obs),
                asker.source() == source,
            ensures
                log.is_prefix_of(obs),
                asker.tracks(obs),
                asker.source() == source,
                expand_model(cs, lim, dep, obs, k).pos == obs.len(),
                expand_model(cs, lim, dep, obs, k).size == total,
                expand_model(cs, lim, dep, obs, k).kids == gathered,
                entry_views(children@) == sort_by_size(gathered),
            decreases entries.len() - i,
        {
            let ghost prev_obs = obs;
            let ghost prefix = cs.take(i as int);
            assert(cs.take(i + 1).drop_last() =~= prefix);
            assert(cs.take(i + 1).last() == entries[i as int]@);
            let cancelled = asker.ask(Ghost(obs));
            proof {
                obs = obs.push(cancelled);
                lemma_prefix_push(prev_obs, cancelled);
                lemma_prefix_trans(log, prev_obs, obs);
                lemma_prefix_same_answers(prev_obs, obs);
                lemma_expand_stable(prefix, lim, dep, prev_obs, obs, k, prev_obs.len() as int);
            }
            if cancelled {
                proof {
                    lemma_expand_stopped(cs, i + 1, lim, dep, obs, k);
                }
                break;
            }
            let entry = &entries[i];
            match entry.kind {
                EntryKind::Dir => {
                    proof {
                        lemma_children_bytes_prefix(cs, i + 1);
                    }
                    let (child, Ghost(obs2)) = self.scan_recursive(
                        asker,
                        entry,
                        max_depth,
                        current_depth,
                        Ghost(obs),
                    );
                    proof {
                        lemma_prefix_trans(prev_obs, obs, obs2);
                        lemma_prefix_trans(log, obs, obs2);
                        lemma_prefix_same_answers(prev_obs, obs2);
                        lemma_expand_stable(prefix, lim, dep, prev_obs, obs2, k, prev_obs.len() as int);
                        lemma_obs_agree(obs, obs2, prev_obs.len() as int);
                        lemma_expand_bounded(cs.take(i + 1), lim, dep, obs2, k);
                        lemma_children_bytes_prefix(cs, i + 1);
                        assert(gathered.push(child@).drop_last() =~= gathered);
                        obs = obs2;
                        gathered = gathered.push(child@);
                    }
                    total = total + child.size;
                    place_by_size(&mut children, child);
                },
                EntryKind::File => {
                    proof {
                        lemma_children_bytes_prefix(cs, i + 1);
                        lemma_expand_bounded(cs.take(i + 1), lim, dep, obs, k);
                    }
                    total = total + entry.len;
                },
                _ => {},
            }
            i = i + 1;
        }
        (total, children, Ghost(obs))
    }

    /// Walks everything below `entries` in pre-order and sums the lengths of
    /// the regular files, stopping at the first check that finds the scan
    /// cancelled. Also says whether it stopped.
    fn sum_files_below(
        &self,
        asker: &mut Asker,
        entries: &Vec<FsNode>,
        Ghost(log): Ghost<Seq<bool>>,
    ) -> (res: (u64, bool, Ghost<Seq<bool>>))
        requires
            children_bytes(fs_views(entries@)) <= u64::MAX,
            old(asker).tracks(log),
        ensures
            final(asker).tracks(res.2@),
            final(asker).source() == old(asker).source(),
            log.is_prefix_of(res.2@),
            deep_model(fs_views(entries@), res.2@, log.len() as int) == (DeepState {
                size: res.0 as nat,
                pos: res.2@.len() as int,
                stopped: res.1,
            }),
        decreases entries,
    {
        let ghost cs = fs_views(entries@);
        let ghost k = log.len() as int;
        let ghost source = asker.source();
        let mut total: u64 = 0;
        let mut stopped = false;
        let ghost mut obs = log;
        let mut i: usize = 0;
        assert(cs.take(0) =~= Seq::<FsModel>::empty());
        assert(cs.take(entries.len() as int) =~= cs);
        while i < entries.len()
            invariant_except_break
                !stopped,
                deep_model(cs.take(i as int), obs, k) == (DeepState {
                    size: total as nat,
                    pos: obs.len() as int,
                    stopped: false,
                }),
            invariant
                i <= entries.len(),
                cs == fs_views(entries@),
                k == log.len(),
                children_bytes(cs) <= u64::MAX,
                log.is_prefix_of(obs),
                cs.take(entries.len() as int) == cs,
                asker.tracks(obs),
                asker.source() == source,
            ensures
                log.is_prefix_of(obs),
                asker.tracks(obs),
                asker.source() == source,
                deep_model(cs, obs, k) == (DeepState {
                    size: total as nat,
                    pos: obs.len() as int,
                    stopped: stopped,
                }),
            decreases entries.len() - i,
        {
            let ghost prev_obs = obs;
            let ghost prefix = cs.take(i as int);
            assert(cs.take(i + 1).drop_last() =~= prefix);
            assert(cs.take(i + 1).last() == entries[i as int]@);
            let cancelled = asker.ask(Ghost(obs));
            proof {
                obs = obs.push(cancelled);
                lemma_prefix_push(prev_obs, cancelled);
                lemma_prefix_trans(log, prev_obs, obs);
                lemma_prefix_same_answers(prev_obs, obs);
                lemma_deep_stable(prefix, prev_obs, obs, k, prev_obs.len() as int);
            }
            if cancelled {
                stopped = true;
                proof {
                    lemma_deep_stopped(cs, i + 1, obs, k);
                }
                break;
            }
            let entry = &entries[i];
            proof {
                lemma_children_bytes_prefix(cs, i + 1);
            }
            match entry.kind {
                EntryKind::File => {
                    proof {
                        lemma_deep_bounded(cs.take(i + 1), obs, k);
                    }
                    total = total + entry.len;
                },
                EntryKind::Dir => {
                    proof {
                        assert(fs_views(entry.children@) =~= entry@.children);
                        assert(node_bytes(entry@) == children_bytes(entry@.children));
                        assert(decreases_to!(entries => entries[i as int]));
                    }
                    let (below, sub_stopped, Ghost(obs2)) = self.sum_files_below(
                        asker,
                        &entry.children,
                        Ghost(obs),
                    );
                    proof {
                        lemma_prefix_trans(prev_obs, obs, obs2);
                        lemma_prefix_trans(log, obs, obs2);
                        lemma_prefix_same_answers(prev_obs, obs2);
                        lemma_deep_stable(prefix, prev_obs, obs2, k, prev_obs.len() as int);
                        lemma_obs_agree(obs, obs2, prev_obs.len() as int);
                        lemma_deep_bounded(cs.take(i + 1), obs2, k);
                        obs = obs2;
                    }
                    total = total + below;
                    if sub_stopped {
                        stopped = true;
                        proof {
                            lemma_deep_stopped(cs, i + 1, obs, k);
                        }
                        break;
                    }
                },
                _ => {},
            }
            i = i + 1;
        }
        (total, stopped, Ghost(obs))
    }
}

} // verus!
