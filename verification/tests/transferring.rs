use std::collections::HashSet;

use move_roms::model::{Confidence, PlannedMove, TransferMode};
use move_roms::paths::{PathStyle, RomPath};
use move_roms::progress::{LoadingUpdate, TransferUpdate};
use move_roms::scanner::ScanProgress;
use move_roms::transfer::{fate_of, Fate, TransferRun, TransferStats, TransferStep};

fn unix(text: &str) -> RomPath {
    RomPath::parse(PathStyle::Unix, text)
}

fn item(destination: Option<&str>, has_conflict: bool) -> PlannedMove {
    PlannedMove {
        source: unix("/in/a.bin"),
        destination: destination.map(unix),
        platform_slug: None,
        confidence: Confidence::High,
        reason: String::new(),
        has_conflict,
    }
}

fn off(indices: &[usize]) -> HashSet<usize> {
    indices.iter().copied().collect()
}

#[test]
fn switched_off_comes_before_all_else() {
    assert_eq!(fate_of(&item(None, true), true), Fate::Disabled);
    assert_eq!(fate_of(&item(None, true), false), Fate::Unclassified);
    assert_eq!(fate_of(&item(Some("/out/a"), true), false), Fate::Conflict);
    assert_eq!(fate_of(&item(Some("/out/a"), false), false), Fate::Ready);
}

#[test]
fn plan_is_carried_out_in_order() {
    let plan = vec![
        item(Some("/out/a"), false),
        item(None, false),
        item(Some("/out/a"), true),
        item(Some("/out/d"), false),
        item(Some("/out/e"), false),
    ];
    let disabled = off(&[3]);
    let mut run = TransferRun::new();
    let mut performed = Vec::new();
    let mut told = Vec::new();
    let stats = loop {
        match run.step(&plan, &disabled, TransferMode::Copy, false) {
            TransferStep::Finished(stats) => break stats,
            TransferStep::Canceled => panic!("canceled"),
            TransferStep::Skipped(update) => told.push(update),
            TransferStep::Perform(at) => {
                performed.push(at);
                told.push(run.complete(&plan, &disabled, TransferMode::Copy));
            }
        }
    };
    assert_eq!(performed, vec![0, 4]);
    assert_eq!(stats, TransferStats { transferred: 2, skipped: 3 });
    let counts: Vec<(usize, usize, usize, usize)> = told
        .iter()
        .map(|update| (update.processed, update.total, update.transferred, update.skipped))
        .collect();
    assert_eq!(
        counts,
        vec![(1, 5, 1, 0), (2, 5, 1, 1), (3, 5, 1, 2), (4, 5, 1, 3), (5, 5, 2, 3)]
    );
    assert_eq!(told[0].phase, "Copy Files");
    assert_eq!(told[0].source, "/in/a.bin");
    assert_eq!(told[0].destination, "/out/a");
    assert_eq!(told[1].destination, "");
    assert_eq!(told[3].destination, "/out/d");
}

#[test]
fn wish_to_stop_is_heeded_before_each_move() {
    let plan = vec![item(Some("/out/a"), false)];
    let mut run = TransferRun::new();
    assert!(matches!(
        run.step(&plan, &off(&[]), TransferMode::Move, true),
        TransferStep::Canceled
    ));
    run.complete(&plan, &off(&[]), TransferMode::Move);
    assert!(matches!(
        run.step(&plan, &off(&[]), TransferMode::Move, true),
        TransferStep::Finished(TransferStats { transferred: 1, skipped: 0 })
    ));
}

#[test]
fn empty_plan_is_finished_at_once() {
    let mut run = TransferRun::new();
    assert!(matches!(
        run.step(&Vec::new(), &off(&[]), TransferMode::Move, true),
        TransferStep::Finished(TransferStats { transferred: 0, skipped: 0 })
    ));
}

#[test]
fn labels_of_the_modes() {
    assert_eq!(TransferMode::Copy.prompt_label(), "Copy Files");
    assert_eq!(TransferMode::Move.prompt_label(), "Move Files");
}

#[test]
fn words_of_the_confidences() {
    let words = [Confidence::Exact, Confidence::High, Confidence::Ambiguous, Confidence::Unknown]
        .map(|confidence| confidence.as_str());
    assert_eq!(words, ["exact", "high", "ambiguous", "unknown"]);
}

#[test]
fn windows_open_with_a_notice() {
    let loading = LoadingUpdate::starting();
    assert_eq!(loading.phase, "Starting");
    assert_eq!(loading.current, "Preparing scan...");
    assert_eq!((loading.phase_index, loading.phase_total), (0, 0));
    assert_eq!((loading.processed, loading.total), (0, 0));
    let transfer = TransferUpdate::starting();
    assert_eq!(transfer.phase, "Starting");
    assert_eq!(transfer.source, "Preparing transfer...");
    assert_eq!(transfer.destination, "");
    assert_eq!((transfer.processed, transfer.total), (0, 0));
    assert_eq!((transfer.transferred, transfer.skipped), (0, 0));
}

#[test]
fn phases_of_a_scan() {
    let progress = ScanProgress { processed: 3, total: 9, current_path: unix("/in/a.bin") };
    let scanning = LoadingUpdate::scanning(&progress);
    assert_eq!(scanning.phase, "Scanning folders");
    assert_eq!((scanning.phase_index, scanning.phase_total), (1, 2));
    assert_eq!((scanning.processed, scanning.total), (3, 9));
    assert_eq!(scanning.current, "/in/a.bin");
    let inspecting = LoadingUpdate::classifying(&unix("/in/a.ZIP"), 0, 2);
    assert_eq!(inspecting.phase, "Inspecting zip/classifying");
    assert_eq!((inspecting.phase_index, inspecting.phase_total), (2, 2));
    assert_eq!((inspecting.processed, inspecting.total), (1, 2));
    assert_eq!(LoadingUpdate::classifying(&unix("/in/a.7z"), 1, 2).phase, "Classifying files");
}

#[test]
fn copies_of_updates_tell_the_same() {
    let progress = ScanProgress { processed: 3, total: 9, current_path: unix("/in/a.bin") };
    let copy = progress.clone();
    assert_eq!((copy.processed, copy.total), (3, 9));
    assert!(copy.current_path.same(&progress.current_path));
    let update = LoadingUpdate::scanning(&progress).clone();
    assert_eq!(update.phase, "Scanning folders");
    assert_eq!((update.phase_index, update.phase_total), (1, 2));
    assert_eq!((update.processed, update.total), (3, 9));
    assert_eq!(update.current, "/in/a.bin");
}

#[test]
fn updates_show_paths_as_they_were_written() {
    let plan = vec![item(Some("/out/a//b/./c.bin"), false)];
    let mut run = TransferRun::new();
    match run.step(&plan, &off(&[]), TransferMode::Move, false) {
        TransferStep::Perform(at) => assert_eq!(at, 0),
        _ => panic!("a move that is on is performed"),
    }
    let update = run.complete(&plan, &off(&[]), TransferMode::Move);
    assert_eq!(update.source, "/in/a.bin");
    assert_eq!(update.destination, "/out/a//b/./c.bin");
}
