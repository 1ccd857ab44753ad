use betterdisk::model::EntryKind;
use betterdisk::navigation::{Command, Key};
use betterdisk::scanner::{DirEntry, FsNode, Scanner};
use betterdisk::screen::{is_marked_row, visible_range, Status};
use betterdisk::state::{AppState, DiskRecord};
use betterdisk::units::{size_unit, SizeUnit};

fn disk(mount: &str, total: u64, available: u64) -> DiskRecord {
    DiskRecord {
        mount_point: mount.to_string(),
        total_space: total,
        available_space: available,
        file_system: "ext4".to_string(),
        is_removable: false,
    }
}

fn disks() -> Vec<DiskRecord> {
    vec![
        disk("/", 1000, 400),
        disk("/home", 500, 500),
        disk("/mnt/usb", 64, 4),
        disk("/run/media/u/stick", 32, 2),
        disk("/boot/efi", 0, 0),
    ]
}

fn dir_node(path: &str, children: Vec<FsNode>) -> FsNode {
    FsNode { path: path.to_string(), kind: EntryKind::Dir, len: 0, children }
}

fn file_node(path: &str, len: u64) -> FsNode {
    FsNode { path: path.to_string(), kind: EntryKind::File, len, children: vec![] }
}

fn scan_path(cmd: Command) -> String {
    match cmd {
        Command::Scan(p) => p,
        other => panic!("expected a scan, got {:?}", other),
    }
}

fn entry(path: &str, n: usize) -> DirEntry {
    DirEntry {
        path: path.to_string(),
        size: 0,
        is_dir: true,
        children: (0..n)
            .map(|i| DirEntry {
                path: format!("{}/{}", path, i),
                size: 0,
                is_dir: true,
                children: vec![],
            })
            .collect(),
    }
}

#[test]
fn new_shows_every_file_system_in_order() {
    let s = AppState::new(disks());
    let points: Vec<&str> = s.mounts.iter().map(|m| m.mount_point.as_str()).collect();
    assert_eq!(points, vec!["/", "/home", "/mnt/usb", "/run/media/u/stick", "/boot/efi"]);
    assert_eq!(s.mounts[0].used_space, 600);
    assert_eq!(s.mounts[0].available_space, 400);
    assert_eq!(s.mounts[0].total_space, 1000);
    assert_eq!(s.mounts[0].fs_type, "ext4");
    assert_eq!(s.mounts[1].used_space, 0);
    assert_eq!(s.mounts[2].used_space, 60);
    assert_eq!(s.mounts[3].used_space, 30);
    assert_eq!(s.mounts[4].used_space, 0);
    assert_eq!(s.selected_mount, 0);
    assert_eq!(s.current_path, "/");
    assert_eq!(s.root_path, "/");
    assert!(s.current_entry.is_none());
    assert_eq!(s.selected_index, 0);
    assert_eq!(s.scroll_offset, 0);
    assert!(!s.is_scanning);
}

#[test]
fn pseudo_looking_mount_points_are_shown_too() {
    let s = AppState::new(vec![disk("/run/media/u/usb", 8, 3), disk("/proc", 0, 0)]);
    assert_eq!(s.mounts.len(), 2);
    assert_eq!(s.mounts[0].mount_point, "/run/media/u/usb");
    assert_eq!(s.mounts[0].used_space, 5);
    assert_eq!(s.mounts[1].mount_point, "/proc");
}

#[test]
fn refreshing_twice_gives_the_same_mounts() {
    let mut s = AppState::new(vec![]);
    s.refresh_mounts(disks());
    s.refresh_mounts(disks());
    assert_eq!(s.mounts.len(), 5);
    assert_eq!(s.mounts[4].mount_point, "/boot/efi");
}

#[test]
fn refresh_replaces_mounts_and_keeps_the_rest() {
    let mut s = AppState::new(disks());
    s.select_mount(2);
    s.refresh_mounts(vec![disk("/data", 10, 1)]);
    assert_eq!(s.mounts.len(), 1);
    assert_eq!(s.mounts[0].mount_point, "/data");
    assert_eq!(s.selected_mount, 2);
    assert_eq!(s.root_path, "/mnt/usb");
    assert!(s.get_selected_mount().is_none());
    s.refresh_mounts(vec![]);
    assert!(s.mounts.is_empty());
}

#[test]
fn select_mount_moves_the_root() {
    let mut s = AppState::new(disks());
    s.current_entry = Some(entry("/", 3));
    s.selected_index = 2;
    s.select_mount(1);
    assert_eq!(s.selected_mount, 1);
    assert_eq!(s.root_path, "/home");
    assert_eq!(s.current_path, "/home");
    assert!(s.current_entry.is_none());
    assert_eq!(s.selected_index, 0);
    assert_eq!(s.get_selected_mount().unwrap().mount_point, "/home");
    s.select_mount(7);
    assert_eq!(s.selected_mount, 1);
    assert_eq!(s.root_path, "/home");
}

#[test]
fn arrows_move_between_mounts() {
    let mut s = AppState::new(disks());
    assert!(matches!(s.handle_key(Key::Up), Command::Continue));
    assert_eq!(s.selected_mount, 0);
    s.handle_key(Key::Down);
    assert_eq!(s.selected_mount, 1);
    assert_eq!(s.root_path, "/home");
    for _ in 0..6 {
        s.handle_key(Key::Down);
    }
    assert_eq!(s.selected_mount, 4);
    assert_eq!(s.root_path, "/boot/efi");
    s.handle_key(Key::Up);
    assert_eq!(s.selected_mount, 3);
    assert_eq!(s.root_path, "/run/media/u/stick");
}

#[test]
fn every_key_leaves_the_browser_ready_to_draw() {
    let mut s = AppState::new(disks());
    let keys = [
        Key::Down,
        Key::Enter,
        Key::Down,
        Key::Down,
        Key::Up,
        Key::Enter,
        Key::Backspace,
        Key::Char('r'),
        Key::Backspace,
        Key::Up,
        Key::Other,
    ];
    for key in keys {
        if let Command::Scan(p) = s.handle_key(key) {
            let tree = dir_node(
                &p,
                vec![
                    dir_node(&format!("{}/a", p), vec![file_node(&format!("{}/a/f", p), 3)]),
                    dir_node(&format!("{}/b", p), vec![]),
                ],
            );
            s.complete_scan(&tree);
        }
        assert!(!s.is_scanning);
        assert!(s.scroll_offset <= s.selected_index && s.selected_index < s.scroll_offset + 18);
    }
}

#[test]
fn quit_and_other_keys() {
    let mut s = AppState::new(disks());
    assert!(matches!(s.handle_key(Key::Char('q')), Command::Quit));
    assert!(matches!(s.handle_key(Key::Char('x')), Command::Continue));
    assert!(matches!(s.handle_key(Key::Other), Command::Continue));
    assert_eq!(s.selected_mount, 0);
    assert!(s.current_entry.is_none());
}

#[test]
fn enter_scans_the_mount_then_a_subdirectory() {
    let mut s = AppState::new(disks());
    s.handle_key(Key::Down);
    let p = scan_path(s.handle_key(Key::Enter));
    assert_eq!(p, "/home");
    assert!(s.is_scanning);
    let tree = dir_node(
        "/home",
        vec![
            dir_node("/home/ann", vec![file_node("/home/ann/a", 5)]),
            dir_node("/home/bob", vec![file_node("/home/bob/b", 9)]),
        ],
    );
    s.complete_scan(&tree);
    assert!(!s.is_scanning);
    let e = s.current_entry.as_ref().unwrap();
    assert_eq!(e.size, 14);
    assert_eq!(e.children[0].path, "/home/bob");
    s.handle_key(Key::Down);
    assert_eq!(s.selected_index, 1);
    let p = scan_path(s.handle_key(Key::Enter));
    assert_eq!(p, "/home/ann");
    assert_eq!(s.current_path, "/home/ann");
    assert_eq!(s.selected_index, 0);
    s.complete_scan(&dir_node("/home/ann", vec![]));
    assert_eq!(s.current_entry.as_ref().unwrap().path, "/home/ann");
    // nothing selectable in an empty listing
    assert!(matches!(s.handle_key(Key::Enter), Command::Continue));
    assert!(!s.is_scanning);
}

#[test]
fn down_scrolls_to_keep_the_selection_visible() {
    let mut s = AppState::new(disks());
    s.current_entry = Some(entry("/", 30));
    for _ in 0..17 {
        s.handle_key(Key::Down);
    }
    assert_eq!(s.selected_index, 17);
    assert_eq!(s.scroll_offset, 0);
    s.handle_key(Key::Down);
    assert_eq!(s.selected_index, 18);
    assert_eq!(s.scroll_offset, 1);
    for _ in 0..20 {
        s.handle_key(Key::Down);
        assert!(s.scroll_offset <= s.selected_index && s.selected_index < s.scroll_offset + 18);
    }
    assert_eq!(s.selected_index, 29);
    assert_eq!(s.scroll_offset, 12);
    for _ in 0..18 {
        s.handle_key(Key::Up);
        assert!(s.scroll_offset <= s.selected_index && s.selected_index < s.scroll_offset + 18);
    }
    assert_eq!(s.selected_index, 11);
    assert_eq!(s.scroll_offset, 11);
}

#[test]
fn backspace_goes_to_the_parent() {
    let mut s = AppState::new(disks());
    s.select_mount(1);
    s.current_entry = Some(entry("/home/ann/docs", 2));
    s.current_path = "/home/ann/docs".to_string();
    s.selected_index = 1;
    let p = scan_path(s.handle_key(Key::Backspace));
    assert_eq!(p, "/home/ann");
    assert_eq!(s.current_path, "/home/ann");
    assert_eq!(s.selected_index, 0);
    assert!(s.is_scanning);
}

#[test]
fn backspace_goes_up_to_the_mount_root() {
    let mut s = AppState::new(disks());
    s.select_mount(1);
    s.current_entry = Some(entry("/home/ann", 2));
    s.current_path = "/home/ann".to_string();
    s.selected_index = 1;
    assert_eq!(scan_path(s.handle_key(Key::Backspace)), "/home");
    assert_eq!(s.current_path, "/home");
    assert_eq!(s.root_path, "/home");
    assert_eq!(s.selected_index, 0);
    assert!(s.is_scanning);
    s.complete_scan(&dir_node("/home", vec![dir_node("/home/ann", vec![])]));
    assert_eq!(s.current_entry.as_ref().unwrap().path, "/home");
    assert!(!s.is_scanning);
}

#[test]
fn backspace_at_the_mount_root_goes_above_it() {
    let mut s = AppState::new(disks());
    s.select_mount(1);
    s.current_entry = Some(entry("/home", 0));
    assert_eq!(scan_path(s.handle_key(Key::Backspace)), "/");
    assert_eq!(s.current_path, "/");
    assert_eq!(s.root_path, "/home");
}

#[test]
fn backspace_on_a_root_entry_does_nothing() {
    let mut s = AppState::new(disks());
    s.current_entry = Some(entry("/", 0));
    s.current_path = "/".to_string();
    s.root_path = "/home".to_string();
    assert!(matches!(s.handle_key(Key::Backspace), Command::Continue));
    assert!(s.current_entry.is_some());
    assert_eq!(s.current_path, "/");
}

#[test]
fn going_to_an_empty_parent_closes_the_listing() {
    let mut s = AppState::new(disks());
    s.current_entry = Some(entry("docs", 0));
    s.current_path = "docs".to_string();
    let c = s.go_to_parent(Some(String::new()));
    assert!(matches!(c, Command::Continue));
    assert!(s.current_entry.is_none());
    assert_eq!(s.current_path, "/");
    let mut s = AppState::new(disks());
    s.current_entry = Some(entry("/", 0));
    assert!(matches!(s.go_to_parent(None), Command::Continue));
    assert!(s.current_entry.is_some());
}

#[test]
fn refresh_key_rescans_the_current_path() {
    let mut s = AppState::new(disks());
    s.current_path = "/home/ann".to_string();
    assert_eq!(scan_path(s.handle_key(Key::Char('r'))), "/home/ann");
    assert!(s.is_scanning);
}

#[test]
fn units_switch_at_powers_of_1024() {
    assert_eq!(size_unit(0), SizeUnit::B);
    assert_eq!(size_unit(1023), SizeUnit::B);
    assert_eq!(size_unit(1024), SizeUnit::KB);
    assert_eq!(size_unit(1024 * 1024 - 1), SizeUnit::KB);
    assert_eq!(size_unit(1024 * 1024), SizeUnit::MB);
    assert_eq!(size_unit(1024 * 1024 * 1024), SizeUnit::GB);
    assert_eq!(size_unit(1024u64.pow(4) - 1), SizeUnit::GB);
    assert_eq!(size_unit(1024u64.pow(4)), SizeUnit::TB);
    assert_eq!(size_unit(u64::MAX), SizeUnit::TB);
    assert_eq!(SizeUnit::MB.bytes(), 1048576);
    assert_eq!(SizeUnit::TB.symbol(), "TB");
    assert_eq!(SizeUnit::B.symbol(), "B");
}

#[test]
fn scanner_inside_the_state_is_usable() {
    let s = AppState::new(vec![]);
    assert_eq!(s.scanner.get_total_size(), 0);
    let _ = Scanner::new();
}

#[test]
fn visible_rows_follow_the_scroll_offset() {
    assert_eq!(visible_range(0, 30, 18), (0, 18));
    assert_eq!(visible_range(12, 30, 18), (12, 30));
    assert_eq!(visible_range(5, 10, 18), (5, 10));
    assert_eq!(visible_range(40, 10, 18), (10, 10));
    assert_eq!(visible_range(0, 0, 0), (0, 0));
    assert!(is_marked_row(12, 3, 15));
    assert!(!is_marked_row(12, 2, 15));
    assert!(!is_marked_row(0, 4, 2));
}

#[test]
fn status_line_content() {
    let mut s = AppState::new(disks());
    assert_eq!(s.status(), Status::Usage(0));
    s.select_mount(3);
    assert_eq!(s.status(), Status::Usage(3));
    s.is_scanning = true;
    assert_eq!(s.status(), Status::Scanning);
    let s = AppState::new(vec![]);
    assert_eq!(s.status(), Status::NoDrive);
}
