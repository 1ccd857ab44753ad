//! The state of the disk browser: the mounted file systems, the one that is
//! selected, and where in it the user is.
use vstd::prelude::*;
use crate::model::EntryModel;
use crate::scanner::{DirEntry, Scanner};

verus! {

/// A mounted file system as the browser shows it.
#[derive(Clone, Debug)]
pub struct MountInfo {
    pub mount_point: String,
    pub total_space: u64,
    pub used_space: u64,
    pub available_space: u64,
    pub fs_type: String,
    pub is_removable: bool,
}

/// A disk as the system reports it.
#[derive(Clone, Debug)]
pub struct DiskRecord {
    pub mount_point: String,
    pub total_space: u64,
    pub available_space: u64,
    pub file_system: String,
    pub is_removable: bool,
}

pub struct MountModel {
    pub mount_point: Seq<char>,
    pub total_space: u64,
    pub used_space: u64,
    pub available_space: u64,
    pub fs_type: Seq<char>,
    pub is_removable: bool,
}

pub struct DiskModel {
    pub mount_point: Seq<char>,
    pub total_space: u64,
    pub available_space: u64,
    pub file_system: Seq<char>,
    pub is_removable: bool,
}

impl View for MountInfo {
    type V = MountModel;

    open spec fn view(&self) -> MountModel {
        MountModel {
            mount_point: self.mount_point@,
            total_space: self.total_space,
            used_space: self.used_space,
            available_space: self.available_space,
            fs_type: self.fs_type@,
            is_removable: self.is_removable,
        }
    }
}

impl View for DiskRecord {
    type V = DiskModel;

    open spec fn view(&self) -> DiskModel {
        DiskModel {
            mount_point: self.mount_point@,
            total_space: self.total_space,
            available_space: self.available_space,
            file_system: self.file_system@,
            is_removable: self.is_removable,
        }
    }
}

pub open spec fn mount_views(v: Seq<MountInfo>) -> Seq<MountModel> {
    Seq::new(v.len(), |i: int| v[i]@)
}

pub open spec fn disk_views(v: Seq<DiskRecord>) -> Seq<DiskModel> {
    Seq::new(v.len(), |i: int| v[i]@)
}

/// Every disk reports no more available space than it has.
pub open spec fn disks_consistent(ds: Seq<DiskModel>) -> bool {
    forall|i: int| 0 <= i < ds.len() ==> #[trigger] ds[i].available_space <= ds[i].total_space
}

/// How a disk is shown: what is not available counts as used.
pub open spec fn mount_of(d: DiskModel) -> MountModel {
    MountModel {
        mount_point: d.mount_point,
        total_space: d.total_space,
        used_space: (d.total_space - d.available_space) as u64,
        available_space: d.available_space,
        fs_type: d.file_system,
        is_removable: d.is_removable,
    }
}

/// One mount per disk, in the order the system reported them.
pub open spec fn mounts_of(ds: Seq<DiskModel>) -> Seq<MountModel> {
    Seq::new(ds.len(), |i: int| mount_of(ds[i]))
}

/// The browser's state.
pub struct AppState {
    pub mounts: Vec<MountInfo>,
    pub selected_mount: usize,
    pub current_path: String,
    pub root_path: String,
    pub current_entry: Option<DirEntry>,
    pub selected_index: usize,
    pub scroll_offset: usize,
    pub is_scanning: bool,
    pub scanner: Scanner,
}

pub struct AppModel {
    pub mounts: Seq<MountModel>,
    pub selected_mount: nat,
    pub current_path: Seq<char>,
    pub root_path: Seq<char>,
    pub current_entry: Option<EntryModel>,
    pub selected_index: nat,
    pub scroll_offset: nat,
    pub is_scanning: bool,
}

impl View for AppState {
    type V = AppModel;

    open spec fn view(&self) -> AppModel {
        AppModel {
            mounts: mount_views(self.mounts@),
            selected_mount: self.selected_mount as nat,
            current_path: self.current_path@,
            root_path: self.root_path@,
            current_entry: match self.current_entry {
                Some(e) => Some(e@),
                None => None,
            },
            selected_index: self.selected_index as nat,
            scroll_offset: self.scroll_offset as nat,
            is_scanning: self.is_scanning,
        }
    }
}

/// The state right after start-up, showing the given disks.
pub open spec fn initial_model(ds: Seq<DiskModel>) -> AppModel {
    AppModel {
        mounts: mounts_of(ds),
        selected_mount: 0,
        current_path: "/"@,
        root_path: "/"@,
        current_entry: None,
        selected_index: 0,
        scroll_offset: 0,
        is_scanning: false,
    }
}

/// Refreshing with the disks `ds`: the mounts become one per disk, in order,
/// and nothing else changes.
pub open spec fn refresh_model(s: AppModel, ds: Seq<DiskModel>) -> AppModel {
    AppModel { mounts: mounts_of(ds), ..s }
}

/// Selecting mount `index`: when it exists, its mount point becomes the root
/// and the current path, nothing is scanned yet, and the selection in the
/// listing goes back to the top; otherwise nothing changes.
pub open spec fn select_model(s: AppModel, index: nat) -> AppModel {
    if index < s.mounts.len() {
        AppModel {
            selected_mount: index,
            root_path: s.mounts[index as int].mount_point,
            current_path: s.mounts[index as int].mount_point,
            current_entry: None,
            selected_index: 0,
            scroll_offset: 0,
            ..s
        }
    } else {
        s
    }
}

impl MountInfo {
    /// How a disk is shown.
    fn from_disk(d: &DiskRecord) -> (m: MountInfo)
        requires
            d.available_space <= d.total_space,
        ensures
            m@ == mount_of(d@),
    {
        MountInfo {
            mount_point: d.mount_point.clone(),
            total_space: d.total_space,
            used_space: d.total_space - d.available_space,
            available_space: d.available_space,
            fs_type: d.file_system.clone(),
            is_removable: d.is_removable,
        }
    }
}

impl AppState {
    /// The state at start-up, showing `disks`.
    pub fn new(disks: Vec<DiskRecord>) -> (state: AppState)
        requires
            disks_consistent(disk_views(disks@)),
        ensures
            state@ == initial_model(disk_views(disks@)),
    {
        let mut state = AppState {
            mounts: Vec::new(),
            selected_mount: 0,
            current_path: "/".to_owned(),
            root_path: "/".to_owned(),
            current_entry: None,
            selected_index: 0,
            scroll_offset: 0,
            is_scanning: false,
            scanner: Scanner::new(),
        };
        state.refresh_mounts(disks);
        state
    }

    /// Replaces the mounts by one mount per disk, in the order given.
    pub fn refresh_mounts(&mut self, disks: Vec<DiskRecord>)
        requires
            disks_consistent(disk_views(disks@)),
        ensures
            final(self)@ == refresh_model(old(self)@, disk_views(disks@)),
            final(self).scanner == old(self).scanner,
    {
        let ghost ds = disk_views(disks@);
        let mut mounts: Vec<MountInfo> = Vec::new();
        let mut i: usize = 0;
        assert(mount_views(mounts@) =~= mounts_of(ds.take(0)));
        while i < disks.len()
            invariant
                i <= disks.len(),
                ds == disk_views(disks@),
                disks_consistent(ds),
                mount_views(mounts@) == mounts_of(ds.take(i as int)),
            decreases disks.len() - i,
        {
            let d = &disks[i];
            assert(ds[i as int] == d@);
            assert(ds[i as int].available_space <= ds[i as int].total_space);
            let m = MountInfo::from_disk(d);
            let ghost before = mounts@;
            assert(mount_views(before).len() == mounts_of(ds.take(i as int)).len());
            assert(before.len() == i);
            mounts.push(m);
            assert forall|j: int| 0 <= j <= i implies #[trigger] mount_views(mounts@)[j]
                == mounts_of(ds.take(i + 1))[j] by {
                if j < i {
                    assert(mounts@[j] == before[j]);
                    assert(mount_views(before)[j] == mounts_of(ds.take(i as int))[j]);
                }
            }
            assert(mount_views(mounts@) =~= mounts_of(ds.take(i + 1)));
            i = i + 1;
        }
        assert(ds.take(i as int) =~= ds);
        self.mounts = mounts;
    }

    /// Selects mount `index` if there is one.
    pub fn select_mount(&mut self, index: usize)
        ensures
            final(self)@ == select_model(old(self)@, index as nat),
            final(self).scanner == old(self).scanner,
    {
        if index < self.mounts.len() {
            self.selected_mount = index;
            self.root_path = self.mounts[index].mount_point.clone();
            self.current_path = self.root_path.clone();
            self.current_entry = None;
            self.selected_index = 0;
            self.scroll_offset = 0;
        }
    }

    /// The selected mount, if the selection points at one.
    pub fn get_selected_mount(&self) -> (m: Option<&MountInfo>)
        ensures
            m == (if self.selected_mount < self.mounts.len() {
                Some(&self.mounts[self.selected_mount as int])
            } else {
                None::<&MountInfo>
            }),
    {
        if self.selected_mount < self.mounts.len() {
            Some(&self.mounts[self.selected_mount])
        } else {
            None
        }
    }
}

/// Refreshing twice with the same disks is refreshing once: the mounts are
/// replaced, never appended to.
pub proof fn law_refresh_idempotent(s: AppModel, ds: Seq<DiskModel>)
    ensures
        refresh_model(refresh_model(s, ds), ds) == refresh_model(s, ds),
{
}

/// Each disk the system reports is shown by exactly one mount, at its own
/// position, with the same mount point.
pub proof fn law_every_disk_shown(s: AppModel, ds: Seq<DiskModel>)
    ensures
        refresh_model(s, ds).mounts.len() == ds.len(),
        forall|i: int|
            0 <= i < ds.len() ==> #[trigger] refresh_model(s, ds).mounts[i].mount_point
                == ds[i].mount_point,
{
}

/// Each mount shows the disk at its position as it was reported: the same
/// mount point, total and available space, file system and removability,
/// and as used space what is not available.
pub proof fn law_mounts_show_their_disks(s: AppModel, ds: Seq<DiskModel>, i: int)
    requires
        disks_consistent(ds),
        0 <= i < ds.len(),
    ensures
        refresh_model(s, ds).mounts[i].mount_point == ds[i].mount_point,
        refresh_model(s, ds).mounts[i].total_space == ds[i].total_space,
        refresh_model(s, ds).mounts[i].available_space == ds[i].available_space,
        refresh_model(s, ds).mounts[i].used_space + ds[i].available_space == ds[i].total_space,
        refresh_model(s, ds).mounts[i].fs_type == ds[i].file_system,
        refresh_model(s, ds).mounts[i].is_removable == ds[i].is_removable,
        initial_model(ds).mounts[i] == refresh_model(s, ds).mounts[i],
{
    assert(ds[i].available_space <= ds[i].total_space);
}

/// Selecting an existing mount makes its mount point the root and the
/// current path, closes the listing and puts the selection at the top;
/// the mounts and whether a scan runs are untouched. Selecting past the
/// end changes nothing.
pub proof fn law_select_mount(s: AppModel, index: nat)
    ensures
        index < s.mounts.len() ==> {
            let t = select_model(s, index);
            &&& t.selected_mount == index
            &&& t.root_path == s.mounts[index as int].mount_point
            &&& t.current_path == s.mounts[index as int].mount_point
            &&& t.current_entry is None
            &&& t.selected_index == 0
            &&& t.scroll_offset == 0
            &&& t.mounts == s.mounts
            &&& t.is_scanning == s.is_scanning
        },
        index >= s.mounts.len() ==> select_model(s, index) == s,
{
}

} // verus!
