use move_roms::paths::{PathStyle, RomPath};
use move_roms::scanner::{
    count_scan_candidates, is_allowed_extension, scan_files_with_total, should_descend,
    should_skip_file, Scan, ScanEntry, ScanError, WalkItem,
};
use move_roms::text_set::TextSet;

fn unix(text: &str) -> RomPath {
    RomPath::parse(PathStyle::Unix, text)
}

fn entry(path: &str, depth: usize, is_file: bool) -> ScanEntry {
    ScanEntry { path: unix(path), depth, is_file }
}

fn item(path: &str, is_file: bool) -> WalkItem {
    WalkItem::Entry(entry(path, 1, is_file))
}

fn allowed() -> TextSet {
    let mut set = TextSet::new();
    set.insert(String::from("bin"));
    set.insert(String::from("zip"));
    set
}

#[test]
fn walk_stays_out_of_the_output() {
    let output = unix("/in/roms");
    assert!(!should_descend(&entry("/in/roms", 1, false), &output));
    assert!(!should_descend(&entry("/in/roms/nes", 2, false), &output));
    assert!(should_descend(&entry("/in/roms2", 1, false), &output));
}

#[test]
fn walk_stays_out_of_hidden_and_system_folders() {
    let output = unix("/x");
    assert!(!should_descend(&entry("/in/.git", 1, false), &output));
    assert!(should_descend(&entry("/.in", 0, false), &output));
    assert!(!should_descend(&entry("/in/$RECYCLE.BIN", 1, false), &output));
    assert!(!should_descend(&entry("/in/System Volume Information", 1, false), &output));
    assert!(should_descend(&entry("/in/$recycle.bin", 1, false), &output));
    assert!(should_descend(&entry("/", 0, false), &output));
}

#[test]
fn clutter_is_skipped() {
    for name in ["/in/Thumbs.db", "/in/DESKTOP.INI", "/in/.hidden.bin", "/"] {
        assert!(should_skip_file(&unix(name)), "{}", name);
    }
    assert!(!should_skip_file(&unix("/in/thumbs.db.bin")));
}

#[test]
fn extensions_are_allowed_in_any_case() {
    assert!(is_allowed_extension(&unix("/in/a.BIN"), &allowed()));
    assert!(!is_allowed_extension(&unix("/in/a.txt"), &allowed()));
    assert!(!is_allowed_extension(&unix("/in/bin"), &allowed()));
    assert!(!is_allowed_extension(&unix("/in/.bin"), &allowed()));
    assert!(!is_allowed_extension(&unix("/in/a."), &allowed()));
}

#[test]
fn count_and_scan_agree() {
    let walk = vec![
        item("/in", false),
        item("/in/a.bin", true),
        item("/in/b.txt", true),
        item("/in/roms/c.bin", true),
        item("/in/Thumbs.db", true),
        item("/in/d.ZIP", true),
    ];
    let output = unix("/in/roms");
    let mut total = 0;
    for entry in &walk {
        total = count_scan_candidates(total, &output, false, entry).expect("count");
    }
    assert_eq!(total, 4);
    let mut scan = Scan::new();
    let mut told = Vec::new();
    for entry in &walk {
        let progress =
            scan_files_with_total(&mut scan, &output, &allowed(), total, false, entry).expect("scan");
        if let Some(progress) = progress {
            told.push((progress.processed, progress.total, progress.current_path.display()));
        }
    }
    assert_eq!(
        told,
        vec![
            (1, 4, String::from("/in/a.bin")),
            (2, 4, String::from("/in/b.txt")),
            (3, 4, String::from("/in/Thumbs.db")),
            (4, 4, String::from("/in/d.ZIP")),
        ]
    );
    let files: Vec<String> = scan.files.iter().map(|file| file.display()).collect();
    assert_eq!(files, vec![String::from("/in/a.bin"), String::from("/in/d.ZIP")]);
    assert_eq!(scan.skipped, 3);
    assert_eq!(scan.processed, total);
}

#[test]
fn canceling_comes_before_anything_else() {
    let output = unix("/in/roms");
    assert_eq!(
        count_scan_candidates(3, &output, true, &WalkItem::Failed),
        Err(ScanError::Canceled)
    );
    let mut scan = Scan::new();
    let result =
        scan_files_with_total(&mut scan, &output, &allowed(), 0, true, &item("/in/a.bin", true));
    assert!(matches!(result, Err(ScanError::Canceled)));
    assert_eq!(scan.processed, 0);
    assert_eq!(ScanError::Canceled.message(), "Operation canceled");
}

#[test]
fn failed_entry_ends_the_walk() {
    let output = unix("/in/roms");
    assert_eq!(
        count_scan_candidates(3, &output, false, &WalkItem::Failed),
        Err(ScanError::Traversal)
    );
    let mut scan = Scan::new();
    let result =
        scan_files_with_total(&mut scan, &output, &allowed(), 0, false, &WalkItem::Failed);
    assert!(matches!(result, Err(ScanError::Traversal)));
    assert_eq!(ScanError::Traversal.message(), "Failed while traversing source directory");
}
