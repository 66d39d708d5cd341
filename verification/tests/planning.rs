use move_roms::classifier::Classification;
use move_roms::model::{Confidence, PlannedMove, Summary};
use move_roms::paths::{PathStyle, RomPath};
use move_roms::scanner::{should_descend, ScanEntry};
use move_roms::transfer::{fate_of, Fate};
use move_roms::plan::{
    detect_romm_category, mark_conflicts, output_root_of, plan_destination_for_game, plan_move,
    prepare, summarize,
};

fn windows(text: &str) -> RomPath {
    RomPath::parse(PathStyle::Windows, text)
}

fn unix(text: &str) -> RomPath {
    RomPath::parse(PathStyle::Unix, text)
}

fn same_path(found: &Option<RomPath>, wanted: Option<RomPath>) -> bool {
    match (found, &wanted) {
        (Some(found), Some(wanted)) => found.same(wanted),
        (None, None) => true,
        _ => false,
    }
}

fn classified(slug: Option<&str>) -> Classification {
    Classification {
        platform_slug: slug.map(|slug| slug.to_string()),
        confidence: Confidence::High,
        reason: String::from("extension .bin"),
    }
}

fn move_to(destination: Option<&str>, slug: Option<&str>) -> PlannedMove {
    PlannedMove {
        source: unix("/in/file.bin"),
        destination: destination.map(unix),
        platform_slug: slug.map(|slug| slug.to_string()),
        confidence: Confidence::High,
        reason: String::new(),
        has_conflict: false,
    }
}

#[test]
fn detects_documented_multifile_categories() {
    let relative = windows(r"Some Game\patch\fix.zip");

    assert_eq!(detect_romm_category(&relative).as_deref(), Some("patch"));
}

#[test]
fn places_single_file_roms_directly_in_stub_folder() {
    let source_root = windows(r"\\Vesuvius\emulation\ROMS\Dreamcast");
    let output_root = windows(r"\\Vesuvius\emulation\ROMS\Dreamcast\roms");
    let source = windows(r"\\Vesuvius\emulation\ROMS\Dreamcast\Sonic Adventure.bin");

    let destination = plan_destination_for_game(&source_root, &output_root, &source, "dreamcast");

    assert!(same_path(
        &destination,
        Some(windows(r"\\Vesuvius\emulation\ROMS\Dreamcast\roms\dreamcast\Sonic Adventure.bin"))
    ));
}

#[test]
fn keeps_category_subfolders_for_multi_file_romm_types() {
    let source_root = windows(r"\\Vesuvius\emulation\ROMS\Dreamcast");
    let output_root = windows(r"\\Vesuvius\emulation\ROMS\Dreamcast\roms");
    let source = windows(r"\\Vesuvius\emulation\ROMS\Dreamcast\Some Game\patch\fix.zip");

    let destination = plan_destination_for_game(&source_root, &output_root, &source, "dreamcast");

    assert!(same_path(
        &destination,
        Some(windows(r"\\Vesuvius\emulation\ROMS\Dreamcast\roms\dreamcast\patch\fix.zip"))
    ));
}

#[test]
fn every_category_is_known_in_any_case() {
    for name in [
        "dlc", "hack", "manual", "mod", "patch", "update", "demo", "translation", "prototype",
    ] {
        let shouted = format!("Game/{}/file.bin", name.to_uppercase());
        assert_eq!(detect_romm_category(&unix(&shouted)).as_deref(), Some(name));
    }
}

#[test]
fn category_is_the_only_one_and_may_be_the_file() {
    assert_eq!(detect_romm_category(&unix("Mod/DLC/x.bin")).as_deref(), None);
    assert_eq!(detect_romm_category(&unix("Mod/Game/MOD/x.bin")).as_deref(), Some("mod"));
    assert_eq!(detect_romm_category(&unix("Mod/Game/MOD/dlc")).as_deref(), None);
    assert_eq!(detect_romm_category(&unix("Game/demo")).as_deref(), Some("demo"));
    assert_eq!(detect_romm_category(&unix("Game/demos/x.bin")), None);
    assert_eq!(detect_romm_category(&unix("")), None);
}

#[test]
fn conflicting_categories_go_to_the_flat_place() {
    let destination = plan_destination_for_game(
        &unix("/lib"),
        &unix("/lib/roms"),
        &unix("/lib/Game/patch/manual/x.zip"),
        "gba",
    );
    assert!(same_path(&destination, Some(unix("/lib/roms/gba/x.zip"))));
}

#[test]
fn repeated_category_is_kept_once() {
    let destination = plan_destination_for_game(
        &unix("/lib"),
        &unix("/lib/roms"),
        &unix("/lib/Patch/Game/patch/x.zip"),
        "gba",
    );
    assert!(same_path(&destination, Some(unix("/lib/roms/gba/patch/x.zip"))));
}

#[test]
fn verbatim_source_is_sorted_like_any_other() {
    let source = windows(r"\\?\D:\Games");
    let output = output_root_of(&source);
    assert_eq!(output.display(), r"\\?\D:\Games\roms");
    let file = windows(r"\\?\d:\Games\patch\x.zip");
    let destination = plan_destination_for_game(&source, &output, &file, "gba");
    assert!(same_path(&destination, Some(windows(r"\\?\D:\Games\roms\gba\patch\x.zip"))));
}

#[test]
fn drives_clash_whatever_their_case() {
    let mut plan = vec![move_to(None, None), move_to(None, None), move_to(None, None)];
    plan[0].destination = Some(windows(r"C:\out\a"));
    plan[1].destination = Some(windows(r"c:\out\a"));
    plan[2].destination = Some(windows(r"D:\out\a"));
    mark_conflicts(&mut plan);
    let marks: Vec<bool> = plan.iter().map(|item| item.has_conflict).collect();
    assert_eq!(marks, vec![false, true, false]);
}

#[test]
fn backslash_separates_on_windows_only() {
    assert_eq!(detect_romm_category(&unix(r"Some Game\patch\fix.zip")), None);
    assert_eq!(detect_romm_category(&windows("Some Game/patch/fix.zip")).as_deref(), Some("patch"));
}

#[test]
fn file_outside_the_source_goes_nowhere() {
    let destination =
        plan_destination_for_game(&unix("/in"), &unix("/in/roms"), &unix("/other/a.bin"), "nes");
    assert!(destination.is_none());
}

#[test]
fn path_without_a_name_goes_nowhere() {
    let destination =
        plan_destination_for_game(&unix("/"), &unix("/roms"), &unix("/.."), "nes");
    assert!(destination.is_none());
}

#[test]
fn slug_with_a_separator_names_two_folders() {
    let destination =
        plan_destination_for_game(&unix("/in"), &unix("/in/roms"), &unix("/in/a.bin"), "a/b");
    assert!(same_path(&destination, Some(unix("/in/roms/a/b/a.bin"))));
}

#[test]
fn output_lies_in_the_source() {
    let output = output_root_of(&unix("/in"));
    assert!(output.same(&unix("/in/roms")));
    assert!(output.starts_with(&unix("/in")));
}

#[test]
fn planned_move_keeps_what_the_classifier_said() {
    let planned =
        plan_move(&unix("/in"), &unix("/in/roms"), &unix("/in/a.bin"), classified(Some("nes")));
    assert!(planned.source.same(&unix("/in/a.bin")));
    assert!(same_path(&planned.destination, Some(unix("/in/roms/nes/a.bin"))));
    assert_eq!(planned.platform_slug.as_deref(), Some("nes"));
    assert_eq!(planned.confidence, Confidence::High);
    assert_eq!(planned.reason, "extension .bin");
    assert!(!planned.has_conflict);
}

#[test]
fn file_without_platform_has_no_destination() {
    let planned = plan_move(&unix("/in"), &unix("/in/roms"), &unix("/in/a.bin"), classified(None));
    assert!(planned.destination.is_none());
}

#[test]
fn second_move_to_a_place_is_a_conflict() {
    let mut plan = vec![
        move_to(Some("/out/a"), Some("x")),
        move_to(None, None),
        move_to(Some("/out/a"), Some("x")),
        move_to(Some("/out/b"), Some("x")),
        move_to(None, None),
        move_to(Some("/out//a/"), Some("x")),
    ];
    mark_conflicts(&mut plan);
    let marks: Vec<bool> = plan.iter().map(|item| item.has_conflict).collect();
    assert_eq!(marks, vec![false, false, true, false, false, true]);
    mark_conflicts(&mut plan);
    let again: Vec<bool> = plan.iter().map(|item| item.has_conflict).collect();
    assert_eq!(again, marks);
}

#[test]
fn places_that_differ_in_case_do_not_clash() {
    let mut plan = vec![move_to(Some("/out/a"), None), move_to(Some("/out/A"), None)];
    mark_conflicts(&mut plan);
    assert!(!plan[1].has_conflict);
}

#[test]
fn summary_counts_each_kind() {
    let plan = vec![
        move_to(Some("/out/a"), Some("x")),
        move_to(Some("/out/a"), Some("x")),
        move_to(None, None),
    ];
    let prepared = prepare(plan, 7);
    assert_eq!(
        prepared.summary,
        Summary { scanned_files: 3, planned_moves: 2, unclassified: 1, conflicts: 1, skipped: 7 }
    );
    assert!(prepared.plan[1].has_conflict);
}

#[test]
fn empty_plan_has_an_empty_summary() {
    assert_eq!(summarize(&Vec::new(), 0), Summary::default());
}

#[test]
fn sorted_file_is_left_alone_by_a_later_scan() {
    let output = output_root_of(&unix("/in"));
    let placed = plan_destination_for_game(&unix("/in"), &output, &unix("/in/a.bin"), "nes");
    let entry = ScanEntry { path: placed.expect("destination"), depth: 3, is_file: true };
    assert!(!should_descend(&entry, &output));
}

#[test]
fn moves_that_are_ready_go_to_different_places() {
    let source = unix("/in");
    let output = output_root_of(&source);
    let files = [unix("/in/x/a.bin"), unix("/in/y/a.bin"), unix("/in/y/b.bin")];
    let plan = files
        .iter()
        .map(|file| plan_move(&source, &output, file, classified(Some("nes"))))
        .collect();
    let prepared = prepare(plan, 0);
    let fates: Vec<Fate> = prepared.plan.iter().map(|item| fate_of(item, false)).collect();
    assert_eq!(fates, vec![Fate::Ready, Fate::Conflict, Fate::Ready]);
}

#[test]
fn destination_is_shown_with_the_slug_as_it_was_written() {
    let place = |slug: &str| {
        plan_destination_for_game(
            &unix("/in"),
            &unix("/in/roms"),
            &unix("/in//x/DLC/a.bin"),
            slug,
        )
        .expect("below")
        .display()
    };
    assert_eq!(place("a//b"), "/in/roms/a//b/dlc/a.bin");
    assert_eq!(place("nes/"), "/in/roms/nes/dlc/a.bin");
    assert_eq!(place(""), "/in/roms/dlc/a.bin");
    assert_eq!(place("./nes"), "/in/roms/./nes/dlc/a.bin");
    assert_eq!(place("//nes"), "//nes/dlc/a.bin");
}
