use move_roms::geometry::{
    centered_rect_fixed, clicked_all_toggle, clicked_scrollbar, contains, frame_layout, inner_modal,
    loading_cancel_button_rect, loading_layout, transfer_cancel_button_rect, transfer_layout,
    FrameLayout, Rect, ScrollHit,
};
use move_roms::model::{Confidence, PlannedMove, Summary, TransferMode};
use move_roms::paths::{PathStyle, RomPath};
use move_roms::progress::{LoadingUpdate, TransferUpdate};
use move_roms::rows::DisplayRow;
use move_roms::screen::{
    cancel_label, checkbox_for_row, checkbox_text_style, confidence_style, display_path_for_ui,
    ending_message, footer_lines, horizontal_slice, input_row_text, loading_lines,
    normalize_windows_display_path, output_row_text, question, relative_display, transfer_lines,
    transfer_state_style, Color, Ending, TextStyle,
};
use move_roms::transfer::TransferStats;
use move_roms::ui::{toggle_item_enabled, AppView, SelectionState, UiState};

fn unix(text: &str) -> RomPath {
    RomPath::parse(PathStyle::Unix, text)
}

fn windows(text: &str) -> RomPath {
    RomPath::parse(PathStyle::Windows, text)
}

fn rect(x: u16, y: u16, width: u16, height: u16) -> Rect {
    Rect { x, y, width, height }
}

fn style(color: Option<Color>, bold: bool, dim: bool) -> TextStyle {
    TextStyle { color, bold, dim }
}

fn sample() -> UiState {
    let found = PlannedMove {
        source: unix("/in/sub/a.nes"),
        destination: Some(unix("/in/roms/nes/a.nes")),
        platform_slug: Some(String::from("nes")),
        confidence: Confidence::Exact,
        reason: String::from("extension .nes"),
        has_conflict: true,
    };
    let lost = PlannedMove {
        source: unix("/in/b.txt"),
        destination: None,
        platform_slug: None,
        confidence: Confidence::Unknown,
        reason: String::from("no platform match"),
        has_conflict: false,
    };
    UiState::new(AppView {
        source_root: unix("/in"),
        output_root: unix("/in/roms"),
        plan: vec![found, lost],
        summary: Summary {
            scanned_files: 2,
            planned_moves: 1,
            unclassified: 1,
            conflicts: 1,
            skipped: 5,
        },
        transfer_mode: TransferMode::Move,
    })
}

fn slug_row() -> DisplayRow {
    DisplayRow::SlugHeader { slug: String::from("nes"), count: 12, expanded: false }
}

fn game_row() -> DisplayRow {
    DisplayRow::GameHeader {
        slug: String::from("nes"),
        game: String::from("a.nes"),
        count: 1,
        confidence: Confidence::Ambiguous,
        reason: String::from("why"),
        has_conflict: false,
        expanded: true,
    }
}

#[test]
fn screen_is_split_into_header_body_and_footer() {
    let layout = frame_layout(rect(0, 0, 100, 30));
    assert_eq!(layout.header, rect(0, 0, 100, 4));
    assert_eq!(layout.body, rect(0, 4, 100, 23));
    assert_eq!(layout.footer, rect(0, 27, 100, 3));
    assert_eq!(layout.input, rect(0, 4, 46, 23));
    assert_eq!(layout.toggle, rect(46, 4, 5, 23));
    assert_eq!(layout.output, rect(51, 4, 49, 23));
    assert_eq!(layout.all_toggle, rect(46, 0, 5, 4));
    assert_eq!(layout.question, rect(66, 27, 34, 3));
    assert_eq!(layout.prompt, rect(66, 27, 34, 3));
}

#[test]
fn windows_are_split_into_lines() {
    let area = rect(0, 0, 100, 30);
    let loading = loading_layout(area);
    assert_eq!(loading.modal, rect(2, 10, 96, 10));
    assert_eq!(loading.phase, rect(3, 11, 94, 1));
    assert_eq!(loading.bar, rect(3, 14, 94, 3));
    assert_eq!(loading.cancel, rect(3, 17, 94, 1));
    assert_eq!(loading_cancel_button_rect(area), loading.cancel);
    let transfer = transfer_layout(area);
    assert_eq!(transfer.modal, rect(2, 9, 96, 11));
    assert_eq!(transfer.counters, rect(3, 13, 94, 1));
    assert_eq!(transfer_cancel_button_rect(area), transfer.cancel);
}

#[test]
fn window_is_centered_and_never_too_small() {
    assert_eq!(centered_rect_fixed(10, 4, rect(0, 0, 20, 10)), rect(5, 3, 10, 4));
    assert_eq!(centered_rect_fixed(100, 100, rect(1, 1, 20, 10)), rect(2, 2, 18, 8));
    assert_eq!(centered_rect_fixed(0, 0, rect(0, 0, 2, 2)), rect(0, 0, 3, 3));
    assert_eq!(inner_modal(rect(5, 3, 10, 4)), rect(6, 4, 8, 2));
    assert_eq!(inner_modal(rect(u16::MAX, 0, 1, 0)), rect(u16::MAX, 1, 0, 0));
}

#[test]
fn rectangle_covers_its_cells() {
    let area = rect(2, 3, 4, 5);
    assert!(contains(area, 2, 3) && contains(area, 5, 7));
    assert!(!contains(area, 6, 3) && !contains(area, 2, 8) && !contains(area, 1, 3));
}

#[test]
fn box_for_all_moves_has_two_lines() {
    let layout = frame_layout(rect(0, 0, 100, 30));
    assert!(clicked_all_toggle(&layout, 46, 1) && clicked_all_toggle(&layout, 50, 2));
    assert!(!clicked_all_toggle(&layout, 46, 0) && !clicked_all_toggle(&layout, 46, 3));
    assert!(!clicked_all_toggle(&layout, 51, 1));
}

#[test]
fn scrollbar_is_the_right_border() {
    let pane = rect(10, 0, 20, 12);
    assert_eq!(clicked_scrollbar(pane, 100, 29, 0), ScrollHit::Miss);
    assert_eq!(clicked_scrollbar(pane, 100, 28, 1), ScrollHit::Miss);
    assert_eq!(
        clicked_scrollbar(pane, 100, 29, 10),
        ScrollHit::Share { local_y: 9, track: 9, max_offset: 91 }
    );
    assert_eq!(clicked_scrollbar(pane, 100, 29, 11), ScrollHit::Miss);
    assert_eq!(clicked_scrollbar(pane, 9, 29, 1), ScrollHit::Top);
    assert_eq!(clicked_scrollbar(pane, 0, 29, 1), ScrollHit::Miss);
    assert_eq!(clicked_scrollbar(rect(10, 0, 2, 12), 100, 11, 1), ScrollHit::Miss);
    assert_eq!(clicked_scrollbar(rect(10, 0, 20, 3), 100, 29, 1), ScrollHit::Miss);
}

#[test]
fn boxes_show_how_many_are_on() {
    assert_eq!(
        checkbox_text_style(SelectionState::All),
        ("[x]", style(Some(Color::Green), true, false))
    );
    assert_eq!(
        checkbox_text_style(SelectionState::Part),
        ("[-]", style(Some(Color::Yellow), true, false))
    );
    assert_eq!(
        checkbox_text_style(SelectionState::Nothing),
        ("[ ]", style(Some(Color::Red), false, true))
    );
    assert_eq!(checkbox_for_row(&sample(), &DisplayRow::Item { plan_index: 1 }).0, "[x]");
}

#[test]
fn rows_of_the_output_pane() {
    let mut app = sample();
    let (text, look) = output_row_text(&app, &slug_row());
    assert_eq!(text, "▶ nes (12)");
    assert_eq!(look, style(Some(Color::Cyan), false, false));
    let (text, look) = output_row_text(&app, &game_row());
    assert_eq!(text, "  ▼ a.nes (1) | why | ");
    assert_eq!(look, style(Some(Color::Magenta), false, false));
    let (text, look) = output_row_text(&app, &DisplayRow::Item { plan_index: 0 });
    assert_eq!(text, "    \\nes\\a.nes | extension .nes | [CONFLICT]");
    assert_eq!(look, style(None, false, false));
    toggle_item_enabled(&mut app, 1);
    let (text, look) = output_row_text(&app, &DisplayRow::Item { plan_index: 1 });
    assert_eq!(text, "    Unclassified | no platform match | ");
    assert_eq!(look, style(Some(Color::DarkGray), false, true));
}

#[test]
fn rows_of_the_input_pane() {
    let app = sample();
    let row = input_row_text(&app, &slug_row());
    assert_eq!((row.path.as_str(), row.confidence), ("▶ nes (12)", ""));
    assert_eq!(row.confidence_style, None);
    let row = input_row_text(&app, &game_row());
    assert_eq!((row.path.as_str(), row.confidence), ("  ▼ a.nes (1)", "ambiguous"));
    assert_eq!(row.confidence_style, Some(style(Some(Color::Yellow), true, false)));
    let row = input_row_text(&app, &DisplayRow::Item { plan_index: 0 });
    assert_eq!((row.path.as_str(), row.confidence), ("    \\sub\\a.nes", "exact"));
    assert_eq!(row.style, style(None, false, false));
    assert_eq!(row.confidence_style, Some(style(Some(Color::Green), true, false)));
}

#[test]
fn looks_of_confidences() {
    assert_eq!(confidence_style(Confidence::High, false), style(Some(Color::Cyan), false, true));
    assert_eq!(confidence_style(Confidence::Unknown, true), style(Some(Color::Red), true, false));
    assert_eq!(transfer_state_style(false), style(Some(Color::DarkGray), false, true));
}

#[test]
fn paths_are_shown_below_their_folder() {
    assert_eq!(relative_display(&unix("/in"), &unix("/in/a/b")), "\\a\\b");
    assert_eq!(relative_display(&unix("/in"), &unix("/in")), "\\");
    assert_eq!(relative_display(&unix("/in"), &unix("/out/b")), "\\out\\b");
    assert_eq!(relative_display(&unix("/in"), &unix(".")), "\\");
    assert_eq!(relative_display(&windows(r"C:\in"), &windows(r"D:\x")), "\\D:\\x");
}

#[test]
fn verbatim_marks_are_dropped() {
    assert_eq!(normalize_windows_display_path(r"\\?\UNC\server\share\a"), r"\\server\share\a");
    assert_eq!(normalize_windows_display_path(r"\\?\C:\a"), r"C:\a");
    assert_eq!(normalize_windows_display_path(r"C:\a"), r"C:\a");
    assert_eq!(normalize_windows_display_path(""), "");
    assert_eq!(display_path_for_ui(&unix("/in")), "/in");
}

#[test]
fn text_scrolls_by_characters() {
    assert_eq!(horizontal_slice("▼ nes", 2), "nes");
    assert_eq!(horizontal_slice("nes", 0), "nes");
    assert_eq!(horizontal_slice("nes", 3), "");
    assert_eq!(horizontal_slice("nes", usize::MAX), "");
}

#[test]
fn footer_tells_the_counts() {
    let mut app = sample();
    toggle_item_enabled(&mut app, 1);
    let (sanity, counts) = footer_lines(&app);
    assert_eq!(
        sanity,
        "Move Files sanity check: ready 0 | skipped disabled 1 | conflicts 1 | unclassified 0"
    );
    assert_eq!(
        counts,
        "Scanned: 2 | Classified: 1 | Unclassified: 1 | Conflicts: 1 | Skipped: 5 | Enabled: 1 \
         | Disabled: 1"
    );
    assert_eq!(question(TransferMode::Copy), "Copy Files? ");
}

#[test]
fn lines_of_the_scan_window() {
    let lines = loading_lines(&LoadingUpdate::starting());
    assert_eq!(lines.phase, "Phase: Starting");
    assert_eq!(lines.phase_counter, "Phase 1/1");
    assert_eq!(lines.current, "Current: Preparing scan...");
    assert_eq!(lines.progress, "Phase progress 0/0");
    let update = LoadingUpdate {
        phase: String::from("Scanning folders"),
        phase_index: 2,
        phase_total: 3,
        current: String::from(r"\\?\C:\a"),
        processed: 4,
        total: 50,
    };
    let lines = loading_lines(&update);
    assert_eq!(lines.phase_counter, "Phase 2/3");
    assert_eq!(lines.current, r"Current: C:\a");
    assert_eq!(lines.progress, "Phase progress 4/50");
}

#[test]
fn lines_of_the_transfer_window() {
    let update = TransferUpdate {
        phase: String::from("Copy Files"),
        source: String::from(r"\\?\UNC\s\a"),
        destination: String::from("/out/a"),
        processed: 3,
        total: 4,
        transferred: 2,
        skipped: 1,
    };
    let lines = transfer_lines(&update, "Copy Files");
    assert_eq!(lines.phase, "Phase: Copy Files");
    assert_eq!(lines.source, r"Source: \\s\a");
    assert_eq!(lines.destination, "Destination: /out/a");
    assert_eq!(lines.counters, "Processed: 3 / 4 | Transferred: 2 | Skipped: 1");
    assert_eq!(lines.progress, "Copy Files progress 3/4");
}

#[test]
fn button_tells_that_it_was_pressed() {
    assert_eq!(cancel_label(false), "[ Cancel ]");
    assert_eq!(cancel_label(true), "Canceling...");
}

#[test]
fn last_words_of_a_run() {
    let copy = TransferMode::Copy;
    assert_eq!(
        ending_message(copy, Ending::ScanCanceled),
        "Scan canceled. No files were transferred."
    );
    assert_eq!(
        ending_message(copy, Ending::Declined),
        "Copy Files canceled. No files were transferred."
    );
    assert_eq!(
        ending_message(copy, Ending::TransferCanceled),
        "Copy Files canceled during transfer."
    );
    assert_eq!(
        ending_message(copy, Ending::Complete(TransferStats { transferred: 10, skipped: 2 })),
        "Copy Files complete: 10 transferred | 2 skipped (unclassified/conflict/disabled)"
    );
}

#[test]
fn panes_are_as_high_as_the_body_on_any_screen() {
    for (width, height) in [(100, 30), (20, 6), (7, 3), (0, 0), (300, 200)] {
        let area = rect(0, 0, width, height);
        let layout = frame_layout(area);
        for pane in [layout.input, layout.toggle, layout.output] {
            assert_eq!((pane.y, pane.height), (layout.body.y, layout.body.height));
            assert!(pane.x + pane.width <= width && pane.y + pane.height <= height);
        }
        for part in [layout.header, layout.body, layout.footer, layout.click_footer] {
            assert_eq!((part.x, part.width), (0, width));
        }
    }
}

#[test]
fn destination_row_shows_the_slug_as_it_was_written() {
    assert_eq!(relative_display(&unix("/in/roms"), &unix("/in/roms//a//b/c.bin")), r"\a\\b\c.bin");
    assert_eq!(relative_display(&unix("/in/roms"), &unix("/in/roms/a/./c.bin/")), r"\a\.\c.bin");
    assert_eq!(relative_display(&unix("/in/roms"), &unix("//other//c.bin")), r"\\other\\c.bin");
}

fn columns(whole: Rect, from: u16, count: u16) -> Rect {
    Rect { x: whole.x + from, width: count, ..whole }
}

fn rows(whole: Rect, from: u16, count: u16) -> Rect {
    Rect { y: whole.y + from, height: count, ..whole }
}

fn assert_columns(layout: &FrameLayout, width: u16) {
    let middle = width.min(5);
    let share = (46 * u32::from(width) + 50) / 100;
    let left = u16::try_from(share).expect("a share").min(width - middle);
    let panes = [
        (layout.header, [layout.source, layout.all_toggle, layout.destination]),
        (layout.body, [layout.input, layout.toggle, layout.output]),
    ];
    for (whole, [first, second, third]) in panes {
        assert_eq!(first, columns(whole, 0, left), "width {width}");
        assert_eq!(second, columns(whole, left, middle), "width {width}");
        assert_eq!(third, columns(whole, left + middle, width - left - middle), "width {width}");
    }
    let last = width.saturating_sub(20).min(34);
    for (whole, [first, second]) in [
        (layout.footer, [layout.counts, layout.question]),
        (layout.click_footer, [layout.click_counts, layout.prompt]),
    ] {
        assert_eq!(first, columns(whole, 0, width - last), "width {width}");
        assert_eq!(second, columns(whole, width - last, last), "width {width}");
    }
}

#[test]
fn columns_have_their_place_on_any_screen() {
    for width in (0..=300).chain([999, 4097, 32767, 32768, 60001, 65535]) {
        assert_columns(&frame_layout(rect(0, 0, width, 30)), width);
    }
    for (x, width) in [(7, 93), (12345, 101), (65000, 535)] {
        assert_columns(&frame_layout(rect(x, 9, width, 8)), width);
    }
}

#[test]
fn rows_have_their_place_on_high_screens() {
    for height in (12..=300).chain([999, 4097, 32768, 60001, 65535]) {
        let area = rect(3, 0, 80, height);
        let layout = frame_layout(area);
        assert_eq!(layout.header, rows(area, 0, 4), "height {height}");
        assert_eq!(layout.body, rows(area, 4, height - 7), "height {height}");
        assert_eq!(layout.footer, rows(area, height - 3, 3), "height {height}");
        assert_eq!(layout.click_header, rows(area, 0, 3), "height {height}");
        assert_eq!(layout.click_body, rows(area, 3, height - 6), "height {height}");
        assert_eq!(layout.click_footer, rows(area, height - 3, 3), "height {height}");
    }
}

#[test]
fn low_screens_are_all_body() {
    for height in 0..=5 {
        let area = rect(3, 11, 80, height);
        let layout = frame_layout(area);
        assert_eq!(layout.header, rows(area, 0, 0), "height {height}");
        assert_eq!(layout.body, area, "height {height}");
        assert_eq!(layout.footer, rows(area, height, 0), "height {height}");
        assert_eq!(layout.click_body, area, "height {height}");
    }
}

#[test]
fn screen_at_the_far_corner_is_cut_off() {
    let layout = frame_layout(Rect { x: 65435, y: 65505, width: 200, height: 90 });
    assert_eq!(layout.header, rect(65435, 65505, 200, 4));
    assert_eq!(layout.body, rect(65435, 65509, 200, 23));
    assert_eq!(layout.footer, rect(65435, 65532, 200, 3));
    assert_eq!(layout.input, rect(65435, 65509, 46, 23));
    assert_eq!(layout.toggle, rect(65481, 65509, 5, 23));
    assert_eq!(layout.output, rect(65486, 65509, 49, 23));
}

#[test]
fn lines_of_windows_have_their_place_where_there_is_room() {
    for (width, height) in [(100, 11), (100, 12), (80, 24), (200, 60), (20, 13), (300, 300)] {
        let area = rect(0, 0, width, height);
        let loading = loading_layout(area);
        let inner = inner_modal(loading.modal);
        assert_eq!(loading.phase, rows(inner, 0, 1));
        assert_eq!(loading.phase_counter, rows(inner, 1, 1));
        assert_eq!(loading.current, rows(inner, 2, 1));
        assert_eq!(loading.bar, rows(inner, 3, 3));
        assert_eq!(loading.cancel, rows(inner, 6, 1));
        assert_eq!(loading.rest, rows(inner, 7, inner.height - 7));
        assert_eq!(loading_cancel_button_rect(area), rows(inner, 6, 1));
        if height < 12 {
            continue;
        }
        let transfer = transfer_layout(area);
        let inner = inner_modal(transfer.modal);
        assert_eq!(transfer.phase, rows(inner, 0, 1));
        assert_eq!(transfer.source, rows(inner, 1, 1));
        assert_eq!(transfer.destination, rows(inner, 2, 1));
        assert_eq!(transfer.counters, rows(inner, 3, 1));
        assert_eq!(transfer.bar, rows(inner, 4, 3));
        assert_eq!(transfer.cancel, rows(inner, 7, 1));
        assert_eq!(transfer_cancel_button_rect(area), rows(inner, 7, 1));
    }
}
