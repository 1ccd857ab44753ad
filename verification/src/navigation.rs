//! What the browser does with a key press: the next state, and whether a
//! directory has to be read and scanned (which the caller does, then hands
//! the snapshot back to `complete_scan`).
use vstd::prelude::*;
use crate::model::{node_bytes, scan_model, EntryModel};
use crate::paths::{parent_of, path_parent};
use crate::scanner::FsNode;
use crate::state::{initial_model, select_model, AppModel, AppState, DiskModel};

verus! {

/// How many rows of the directory listing fit on screen.
pub const VISIBLE_ROWS: usize = 18;

/// The depth limit of the scans the browser asks for.
pub const SCAN_DEPTH: usize = 2;

/// A key the browser reacts to.
#[derive(Clone, Copy, Debug, PartialEq, Eq, Structural)]
pub enum Key {
    Char(char),
    Up,
    Down,
    Enter,
    Backspace,
    Other,
}

/// What the caller has to do after a key press.
#[derive(Debug)]
pub enum Command {
    /// Nothing; wait for the next key.
    Continue,
    /// Leave the browser.
    Quit,
    /// Read the directory tree at this path and hand it to `complete_scan`.
    Scan(String),
}

pub enum CommandModel {
    Continue,
    Quit,
    Scan(Seq<char>),
}

impl View for Command {
    type V = CommandModel;

    open spec fn view(&self) -> CommandModel {
        match self {
            Command::Continue => CommandModel::Continue,
            Command::Quit => CommandModel::Quit,
            Command::Scan(p) => CommandModel::Scan(p@),
        }
    }
}

pub open spec fn sat_sub(a: nat, b: nat) -> nat {
    if a >= b {
        (a - b) as nat
    } else {
        0
    }
}

/// Up: in a listing, the selection moves up one row and the view follows it;
/// without a listing, the previous mount is selected.
pub open spec fn up_model(s: AppModel) -> AppModel {
    match s.current_entry {
        Some(_) => if s.selected_index > 0 {
            let sel = (s.selected_index - 1) as nat;
            AppModel {
                selected_index: sel,
                scroll_offset: if sel < s.scroll_offset {
                    sel
                } else {
                    s.scroll_offset
                },
                ..s
            }
        } else {
            s
        },
        None => if s.selected_mount > 0 {
            select_model(s, (s.selected_mount - 1) as nat)
        } else {
            s
        },
    }
}

/// Down: in a listing, the selection moves down one row while there is one,
/// and the view scrolls so that it stays among the visible rows; without a
/// listing, the next mount is selected.
pub open spec fn down_model(s: AppModel) -> AppModel {
    match s.current_entry {
        Some(e) => if s.selected_index < sat_sub(e.children.len(), 1) {
            let sel = s.selected_index + 1;
            AppModel {
                selected_index: sel,
                scroll_offset: if sel >= s.scroll_offset + VISIBLE_ROWS {
                    sat_sub(sel, VISIBLE_ROWS as nat) + 1
                } else {
                    s.scroll_offset
                },
                ..s
            }
        } else {
            s
        },
        None => if s.selected_mount < s.mounts.len() - 1 {
            select_model(s, s.selected_mount + 1)
        } else {
            s
        },
    }
}

/// Enter: in a listing, the selected subdirectory becomes the current path
/// and is scanned; without a listing, the selected mount is selected again
/// and its root is scanned.
pub open spec fn enter_model(s: AppModel) -> (AppModel, CommandModel) {
    match s.current_entry {
        Some(e) => if s.selected_index < e.children.len() {
            let p = e.children[s.selected_index as int].path;
            (
                AppModel {
                    current_path: p,
                    selected_index: 0,
                    scroll_offset: 0,
                    is_scanning: true,
                    ..s
                },
                CommandModel::Scan(p),
            )
        } else {
            (AppModel { is_scanning: false, ..s }, CommandModel::Continue)
        },
        None => {
            let t = select_model(s, s.selected_mount);
            (AppModel { is_scanning: true, ..t }, CommandModel::Scan(t.root_path))
        },
    }
}

/// Going up from the listing, given the parent of the listed path: a
/// non-empty parent becomes the current path and is scanned; an empty one
/// (the listed path was a single relative name) closes the listing and the
/// root becomes the current path; a path without a parent stays listed.
pub open spec fn back_model(s: AppModel, parent: Option<Seq<char>>) -> (AppModel, CommandModel) {
    match parent {
        Some(p) => if p.len() != 0 {
            (
                AppModel {
                    current_path: p,
                    selected_index: 0,
                    scroll_offset: 0,
                    is_scanning: true,
                    ..s
                },
                CommandModel::Scan(p),
            )
        } else {
            (AppModel { current_entry: None, current_path: s.root_path, ..s }, CommandModel::Continue)
        },
        None => (s, CommandModel::Continue),
    }
}

/// The effect of a key press.
pub open spec fn key_model(s: AppModel, key: Key) -> (AppModel, CommandModel) {
    match key {
        Key::Char(c) => if c == 'q' {
            (s, CommandModel::Quit)
        } else if c == 'r' {
            (AppModel { is_scanning: true, ..s }, CommandModel::Scan(s.current_path))
        } else {
            (s, CommandModel::Continue)
        },
        Key::Up => (up_model(s), CommandModel::Continue),
        Key::Down => (down_model(s), CommandModel::Continue),
        Key::Enter => enter_model(s),
        Key::Backspace => match s.current_entry {
            Some(e) => back_model(s, path_parent(e.path)),
            None => (s, CommandModel::Continue),
        },
        Key::Other => (s, CommandModel::Continue),
    }
}

/// The key presses whose handling stays within machine integers: moving
/// down needs a mount to move to, or room to scroll.
pub open spec fn key_defined(s: AppModel, key: Key) -> bool {
    key == Key::Down ==> match s.current_entry {
        Some(e) => s.selected_index < sat_sub(e.children.len(), 1) ==> s.scroll_offset
            + VISIBLE_ROWS <= usize::MAX,
        None => s.mounts.len() >= 1,
    }
}

/// The selected row is among the visible ones.
pub open spec fn window_ok(s: AppModel) -> bool {
    s.scroll_offset <= s.selected_index < s.scroll_offset + VISIBLE_ROWS
}

/// The state once the scan `e` that a command asked for is the listing.
pub open spec fn scan_installed(s: AppModel, e: EntryModel) -> AppModel {
    AppModel { current_entry: Some(e), is_scanning: false, ..s }
}

/// The state is fit to be drawn: the selected row is visible and no scan is
/// under way.
pub open spec fn ready(s: AppModel) -> bool {
    window_ok(s) && !s.is_scanning
}

/// One event of the browser's loop: the key press, then, when it asked for a
/// scan, the scan `e` installed.
pub open spec fn after_key(s: AppModel, key: Key, e: EntryModel) -> AppModel {
    let (t, cmd) = key_model(s, key);
    match cmd {
        CommandModel::Scan(_) => scan_installed(t, e),
        _ => t,
    }
}

/// The state after the key presses `keys`, the i-th scan asked for by
/// the i-th key being `scans[i]`.
pub open spec fn after_keys(s: AppModel, keys: Seq<Key>, scans: Seq<EntryModel>) -> AppModel
    decreases keys.len(),
{
    if keys.len() == 0 {
        s
    } else {
        after_keys(after_key(s, keys[0], scans[0]), keys.drop_first(), scans.drop_first())
    }
}

/// Every key press of `keys`, in the state it meets, is one whose handling
/// stays within machine integers.
pub open spec fn keys_defined(s: AppModel, keys: Seq<Key>, scans: Seq<EntryModel>) -> bool
    decreases keys.len(),
{
    keys.len() == 0 || (key_defined(s, keys[0]) && keys_defined(
        after_key(s, keys[0], scans[0]),
        keys.drop_first(),
        scans.drop_first(),
    ))
}

impl AppState {
    /// Reacts to a key press.
    pub fn handle_key(&mut self, key: Key) -> (cmd: Command)
        requires
            key_defined(old(self)@, key),
        ensures
            (final(self)@, cmd@) == key_model(old(self)@, key),
            final(self).scanner == old(self).scanner,
    {
        match key {
            Key::Char(c) => {
                if c == 'q' {
                    Command::Quit
                } else if c == 'r' {
                    self.is_scanning = true;
                    Command::Scan(self.current_path.clone())
                } else {
                    Command::Continue
                }
            },
            Key::Up => {
                self.move_up();
                Command::Continue
            },
            Key::Down => {
                self.move_down();
                Command::Continue
            },
            Key::Enter => self.enter(),
            Key::Backspace => {
                let parent = match &self.current_entry {
                    Some(entry) => Some(parent_of(&entry.path)),
                    None => None,
                };
                match parent {
                    Some(parent) => self.go_to_parent(parent),
                    None => Command::Continue,
                }
            },
            Key::Other => Command::Continue,
        }
    }

    fn move_up(&mut self)
        ensures
            final(self)@ == up_model(old(self)@),
            final(self).scanner == old(self).scanner,
    {
        if self.current_entry.is_some() {
            if self.selected_index > 0 {
                self.selected_index = self.selected_index - 1;
                if self.selected_index < self.scroll_offset {
                    self.scroll_offset = self.selected_index;
                }
            }
        } else if self.selected_mount > 0 {
            self.select_mount(self.selected_mount - 1);
        }
    }

    fn move_down(&mut self)
        requires
            key_defined(old(self)@, Key::Down),
        ensures
            final(self)@ == down_model(old(self)@),
            final(self).scanner == old(self).scanner,
    {
        let count = match &self.current_entry {
            Some(entry) => Some(entry.children.len()),
            None => None,
        };
        match count {
            Some(n) => {
                if self.selected_index < n.saturating_sub(1) {
                    self.selected_index = self.selected_index + 1;
                    if self.selected_index >= self.scroll_offset + VISIBLE_ROWS {
                        self.scroll_offset = self.selected_index.saturating_sub(VISIBLE_ROWS) + 1;
                    }
                }
            },
            None => {
                if self.selected_mount < self.mounts.len() - 1 {
                    self.select_mount(self.selected_mount + 1);
                }
            },
        }
    }

    fn enter(&mut self) -> (cmd: Command)
        ensures
            (final(self)@, cmd@) == enter_model(old(self)@),
            final(self).scanner == old(self).scanner,
    {
        self.is_scanning = true;
        let target = match &self.current_entry {
            Some(entry) => {
                if self.selected_index < entry.children.len() {
                    assert(entry@.children[self.selected_index as int] == entry.children[self.selected_index as int]@);
                    Some(entry.children[self.selected_index].path.clone())
                } else {
                    None
                }
            },
            None => {
                self.select_mount(self.selected_mount);
                return Command::Scan(self.root_path.clone());
            },
        };
        match target {
            Some(path) => {
                self.current_path = path.clone();
                self.selected_index = 0;
                self.scroll_offset = 0;
                Command::Scan(path)
            },
            None => {
                self.is_scanning = false;
                Command::Continue
            },
        }
    }

    /// Goes up from the listing, given the parent of the listed path (as
    /// `std::path::Path::parent` gives it).
    pub fn go_to_parent(&mut self, parent: Option<String>) -> (cmd: Command)
        ensures
            (final(self)@, cmd@) == back_model(
                old(self)@,
                match parent {
                    Some(p) => Some(p@),
                    None => None,
                },
            ),
            final(self).scanner == old(self).scanner,
    {
        match parent {
            Some(p) => {
                if p.unicode_len() != 0 {
                    self.current_path = p.clone();
                    self.selected_index = 0;
                    self.scroll_offset = 0;
                    self.is_scanning = true;
                    Command::Scan(p)
                } else {
                    self.current_entry = None;
                    self.current_path = self.root_path.clone();
                    Command::Continue
                }
            },
            None => Command::Continue,
        }
    }

    /// Installs the scan of the snapshot `tree` that the last command asked
    /// for as the current listing.
    pub fn complete_scan(&mut self, tree: &FsNode)
        requires
            node_bytes(tree@) <= u64::MAX,
        ensures
            exists|obs: Seq<bool>|
                final(self)@ == scan_installed(
                    old(self)@,
                    #[trigger] scan_model(tree@, SCAN_DEPTH as nat, 0, obs, 0).0,
                ),
            final(self).scanner == old(self).scanner,
    {
        let scanned = self.scanner.scan_dir(tree, SCAN_DEPTH);
        let ghost m: EntryModel = scanned@;
        self.current_entry = Some(scanned);
        self.is_scanning = false;
        let ghost obs = choose|obs: Seq<bool>| m == #[trigger] scan_model(tree@, SCAN_DEPTH as nat, 0, obs, 0).0;
        assert(self@ == scan_installed(old(self)@, scan_model(tree@, SCAN_DEPTH as nat, 0, obs, 0).0));
    }
}

/// Selecting a mount keeps the selected row visible.
pub proof fn law_select_keeps_window(s: AppModel, index: nat)
    requires
        window_ok(s),
    ensures
        window_ok(select_model(s, index)),
{
}

/// Every key press keeps the selected row of the listing among the visible
/// rows.
pub proof fn law_keys_keep_window(s: AppModel, key: Key)
    requires
        window_ok(s),
        key_defined(s, key),
    ensures
        window_ok(key_model(s, key).0),
{
}

/// The browser starts fit to be drawn.
pub proof fn law_start_ready(ds: Seq<DiskModel>)
    ensures
        ready(initial_model(ds)),
{
}

/// A key press, with the scan it asks for installed, leaves the browser fit
/// to be drawn: the selected row visible and no scan under way.
pub proof fn law_key_keeps_ready(s: AppModel, key: Key, e: EntryModel)
    requires
        ready(s),
        key_defined(s, key),
    ensures
        ready(after_key(s, key, e)),
{
    law_keys_keep_window(s, key);
}

/// However many keys are pressed, the browser stays fit to be drawn after
/// each of them.
pub proof fn law_keys_keep_ready(s: AppModel, keys: Seq<Key>, scans: Seq<EntryModel>)
    requires
        ready(s),
        keys_defined(s, keys, scans),
    ensures
        ready(after_keys(s, keys, scans)),
    decreases keys.len(),
{
    if keys.len() > 0 {
        law_key_keeps_ready(s, keys[0], scans[0]);
        law_keys_keep_ready(after_key(s, keys[0], scans[0]), keys.drop_first(), scans.drop_first());
    }
}

/// Backspace goes to the parent directory of the listing, whatever that
/// parent is, the root of the mount included: it becomes the current path,
/// the selection goes back to the top, and it is scanned.
pub proof fn law_backspace_goes_to_parent(s: AppModel, e: EntryModel, q: Seq<char>)
    requires
        s.current_entry == Some(e),
        path_parent(e.path) == Some(q),
        q.len() != 0,
    ensures
        key_model(s, Key::Backspace) == (
            AppModel {
                current_path: q,
                selected_index: 0,
                scroll_offset: 0,
                is_scanning: true,
                ..s
            },
            CommandModel::Scan(q),
        ),
{
}

/// Up in a listing moves the selection one row up, when there is a row
/// above; the view stays where it is as long as the new row is still shown,
/// and otherwise starts at that row. Nothing else changes.
pub proof fn law_up_in_listing(s: AppModel)
    requires
        s.current_entry is Some,
    ensures
        s.selected_index == 0 ==> key_model(s, Key::Up).0 == s,
        s.selected_index > 0 ==> {
            let t = key_model(s, Key::Up).0;
            &&& t.selected_index + 1 == s.selected_index
            &&& t.selected_index >= s.scroll_offset ==> t.scroll_offset == s.scroll_offset
            &&& t.selected_index < s.scroll_offset ==> t.scroll_offset == t.selected_index
            &&& t == AppModel { selected_index: t.selected_index, scroll_offset: t.scroll_offset, ..s }
        },
        key_model(s, Key::Up).1 == CommandModel::Continue,
{
}

/// Down in a listing moves the selection one row down, when there is a row
/// below; the view stays where it is as long as the new row is still shown,
/// and otherwise scrolls just enough to show it as the last visible row.
/// Nothing else changes.
pub proof fn law_down_in_listing(s: AppModel, e: EntryModel)
    requires
        s.current_entry == Some(e),
    ensures
        s.selected_index + 1 >= e.children.len() ==> key_model(s, Key::Down).0 == s,
        s.selected_index + 1 < e.children.len() ==> {
            let t = key_model(s, Key::Down).0;
            &&& t.selected_index == s.selected_index + 1
            &&& t.selected_index < s.scroll_offset + VISIBLE_ROWS ==> t.scroll_offset
                == s.scroll_offset
            &&& t.selected_index >= s.scroll_offset + VISIBLE_ROWS ==> t.scroll_offset
                + VISIBLE_ROWS == t.selected_index + 1
            &&& t == AppModel { selected_index: t.selected_index, scroll_offset: t.scroll_offset, ..s }
        },
        key_model(s, Key::Down).1 == CommandModel::Continue,
{
}

/// Without a listing, Up and Down select the previous and the next mount,
/// when there is one.
pub proof fn law_arrows_between_mounts(s: AppModel)
    requires
        s.current_entry is None,
    ensures
        s.selected_mount > 0 ==> key_model(s, Key::Up).0 == select_model(
            s,
            (s.selected_mount - 1) as nat,
        ),
        s.selected_mount == 0 ==> key_model(s, Key::Up).0 == s,
        s.selected_mount + 1 < s.mounts.len() ==> key_model(s, Key::Down).0 == select_model(
            s,
            s.selected_mount + 1,
        ),
        s.mounts.len() >= 1 && s.selected_mount + 1 >= s.mounts.len() ==> key_model(
            s,
            Key::Down,
        ).0 == s,
{
}

/// Enter in a listing opens the selected subdirectory: its path becomes the
/// current path and is scanned, and the selection goes back to the top.
/// With nothing selected, nothing changes. Without a listing, Enter opens
/// the selected mount: its mount point is scanned.
pub proof fn law_enter(s: AppModel)
    ensures
        s.current_entry is Some && s.selected_index < s.current_entry->0.children.len() ==> {
            let p = s.current_entry->0.children[s.selected_index as int].path;
            key_model(s, Key::Enter) == (
                AppModel {
                    current_path: p,
                    selected_index: 0,
                    scroll_offset: 0,
                    is_scanning: true,
                    ..s
                },
                CommandModel::Scan(p),
            )
        },
        s.current_entry is Some && s.selected_index >= s.current_entry->0.children.len() ==> key_model(
            s,
            Key::Enter,
        ) == ((AppModel { is_scanning: false, ..s }), CommandModel::Continue),
        s.current_entry is None && s.selected_mount < s.mounts.len() ==> {
            let p = s.mounts[s.selected_mount as int].mount_point;
            &&& key_model(s, Key::Enter).1 == CommandModel::Scan(p)
            &&& key_model(s, Key::Enter).0.root_path == p
            &&& key_model(s, Key::Enter).0.current_path == p
            &&& key_model(s, Key::Enter).0.is_scanning
        },
{
}

/// `r` rescans the current path and changes nothing else but that a scan is
/// under way.
pub proof fn law_refresh_key(s: AppModel)
    ensures
        key_model(s, Key::Char('r')) == ((AppModel { is_scanning: true, ..s }), CommandModel::Scan(
            s.current_path,
        )),
{
}

/// The browser starts on the first mount with the root directory as root
/// and current path, no listing, the selection at the top and no scan.
pub proof fn law_start_state(ds: Seq<DiskModel>)
    ensures
        initial_model(ds).selected_mount == 0,
        initial_model(ds).root_path == "/"@,
        initial_model(ds).current_path == "/"@,
        initial_model(ds).current_entry is None,
        initial_model(ds).selected_index == 0,
        initial_model(ds).scroll_offset == 0,
        !initial_model(ds).is_scanning,
        initial_model(ds).mounts.len() == ds.len(),
{
}

/// Keys the browser does not use change nothing.
pub proof fn law_other_keys_do_nothing(s: AppModel, c: char)
    requires
        c != 'q',
        c != 'r',
    ensures
        key_model(s, Key::Char(c)) == (s, CommandModel::Continue),
        key_model(s, Key::Other) == (s, CommandModel::Continue),
{
}

/// Backspace without a listing, or on a listed path that has no parent,
/// changes nothing; on a single relative name (an empty parent) it closes
/// the listing and goes back to the root path.
pub proof fn law_backspace_edges(s: AppModel)
    ensures
        s.current_entry is None ==> key_model(s, Key::Backspace) == (s, CommandModel::Continue),
        s.current_entry is Some && path_parent(s.current_entry->0.path) is None ==> key_model(
            s,
            Key::Backspace,
        ) == (s, CommandModel::Continue),
        s.current_entry is Some && path_parent(s.current_entry->0.path) == Some(Seq::<char>::empty())
            ==> key_model(s, Key::Backspace) == ((AppModel {
            current_entry: None,
            current_path: s.root_path,
            ..s
        }), CommandModel::Continue),
{
}

/// Quitting changes nothing.
pub proof fn law_quit_keeps_state(s: AppModel)
    ensures
        key_model(s, Key::Char('q')) == (s, CommandModel::Quit),
{
}

} // verus!
