use move_roms::events::{
    handle_event, handle_event_on_screen, progress_cancel_requested, settle_scroll, Key, MouseKind,
    UiAction, UiEvent,
};
use move_roms::geometry::{frame_layout, FrameLayout, Rect};
use move_roms::model::{Confidence, PlannedMove, Summary, TransferMode};
use move_roms::paths::{PathStyle, RomPath};
use move_roms::rows::DisplayRow;
use move_roms::ui::{
    build_display_rows, is_item_enabled, selection_state_for_all, selection_state_for_row,
    toggle_all_enabled, toggle_item_enabled, toggle_row_enabled, transfer_sanity_counts, AppView,
    SelectionState, UiState,
};
use move_roms::viewport::bring_into_view;

fn unix(text: &str) -> RomPath {
    RomPath::parse(PathStyle::Unix, text)
}

fn item(name: &str, slug: Option<&str>, reason: &str) -> PlannedMove {
    PlannedMove {
        source: unix(&format!("/in/{}", name)),
        destination: slug.map(|slug| unix(&format!("/in/roms/{}/{}", slug, name))),
        platform_slug: slug.map(|slug| slug.to_string()),
        confidence: Confidence::High,
        reason: reason.to_string(),
        has_conflict: false,
    }
}

/// Two platforms, one of them with two files of one game, and a file without platform.
fn sample() -> UiState {
    let mut twin = item("b.nes", Some("nes"), "twin");
    twin.has_conflict = true;
    twin.confidence = Confidence::Exact;
    UiState::new(AppView {
        source_root: unix("/in"),
        output_root: unix("/in/roms"),
        plan: vec![
            item("z.gba", Some("gba"), "one"),
            item("b.nes", Some("nes"), "two"),
            item("lost.txt", None, "three"),
            item("a.nes", Some("nes"), "four"),
            twin,
        ],
        summary: Summary::default(),
        transfer_mode: TransferMode::Copy,
    })
}

fn shown(app: &UiState) -> Vec<String> {
    build_display_rows(app)
        .iter()
        .map(|row| match row {
            DisplayRow::SlugHeader { slug, count, expanded } => {
                format!("{} {} {}", slug, count, expanded)
            }
            DisplayRow::GameHeader { slug, game, count, expanded, .. } => {
                format!("{}/{} {} {}", slug, game, count, expanded)
            }
            DisplayRow::Item { plan_index } => format!("#{}", plan_index),
        })
        .collect()
}

fn key(key: Key) -> UiEvent {
    UiEvent::Key { key, shift_only: false }
}

fn shifted(key: Key) -> UiEvent {
    UiEvent::Key { key, shift_only: true }
}

fn mouse(kind: MouseKind, column: u16, row: u16) -> UiEvent {
    UiEvent::Mouse { kind, column, row }
}

fn screen() -> FrameLayout {
    frame_layout(Rect { x: 0, y: 0, width: 100, height: 30 })
}

fn press(app: &mut UiState, event: UiEvent) -> UiAction {
    handle_event(app, &screen(), event)
}

#[test]
fn platforms_are_listed_in_order() {
    let app = sample();
    assert_eq!(shown(&app), vec!["gba 1 false", "nes 3 false", "unclassified 1 false"]);
}

#[test]
fn games_are_listed_in_order_under_their_platform() {
    let mut app = sample();
    app.selected = 1;
    press(&mut app, key(Key::Right));
    app.selected = 3;
    press(&mut app, key(Key::Enter));
    assert_eq!(
        shown(&app),
        vec![
            "gba 1 false",
            "nes 3 true",
            "nes/a.nes 1 false",
            "nes/b.nes 2 true",
            "#1",
            "#4",
            "unclassified 1 false",
        ]
    );
}

#[test]
fn game_row_tells_of_its_first_move_and_any_conflict() {
    let mut app = sample();
    app.selected = 1;
    press(&mut app, key(Key::Char(' ')));
    match &build_display_rows(&app)[3] {
        DisplayRow::GameHeader { confidence, reason, has_conflict, .. } => {
            assert_eq!(*confidence, Confidence::High);
            assert_eq!(reason, "two");
            assert!(*has_conflict);
        }
        other => panic!("{:?}", other),
    }
}

#[test]
fn flipping_a_header_twice_changes_nothing() {
    let mut app = sample();
    app.selected = 1;
    let before = shown(&app);
    press(&mut app, key(Key::Enter));
    assert_eq!(shown(&app).len(), 5);
    press(&mut app, key(Key::Enter));
    assert_eq!(shown(&app), before);
    assert_eq!(app.selected, 1);
}

#[test]
fn flipping_a_game_twice_changes_nothing() {
    let mut app = sample();
    app.expanded_slugs.insert(String::from("nes"));
    app.selected = 3;
    let before = shown(&app);
    press(&mut app, key(Key::Enter));
    assert_eq!(shown(&app).len(), before.len() + 2);
    press(&mut app, key(Key::Enter));
    assert_eq!(shown(&app), before);
}

#[test]
fn expanding_and_collapsing_go_one_way() {
    let mut app = sample();
    app.selected = 1;
    press(&mut app, key(Key::Left));
    assert_eq!(shown(&app).len(), 3);
    press(&mut app, key(Key::Right));
    press(&mut app, key(Key::Right));
    assert_eq!(shown(&app).len(), 5);
    press(&mut app, key(Key::Left));
    assert_eq!(shown(&app).len(), 3);
}

#[test]
fn selection_stays_on_a_row() {
    let mut app = sample();
    press(&mut app, key(Key::Up));
    assert_eq!(app.selected, 0);
    press(&mut app, key(Key::Down));
    assert_eq!(app.selected, 1);
    press(&mut app, key(Key::PageDown));
    assert_eq!(app.selected, 2);
    press(&mut app, mouse(MouseKind::ScrollDown, 0, 0));
    assert_eq!(app.selected, 2);
    press(&mut app, mouse(MouseKind::ScrollUp, 0, 0));
    assert_eq!(app.selected, 1);
    press(&mut app, key(Key::PageUp));
    assert_eq!(app.selected, 0);
}

#[test]
fn answers_leave_the_preview() {
    let mut app = sample();
    assert_eq!(press(&mut app, key(Key::Char('y'))), UiAction::Leave);
    assert!(app.confirmed_move);
    assert_eq!(press(&mut app, key(Key::Char('n'))), UiAction::Leave);
    assert!(!app.confirmed_move);
    assert_eq!(press(&mut app, key(Key::Esc)), UiAction::Leave);
    assert_eq!(press(&mut app, key(Key::Char('q'))), UiAction::Leave);
    assert!(!app.confirmed_move);
    assert_eq!(press(&mut app, key(Key::Other)), UiAction::Continue);
    assert_eq!(press(&mut app, UiEvent::Other), UiAction::Continue);
}

#[test]
fn clicks_on_the_answers_leave_the_preview() {
    let layout = screen();
    let mut app = sample();
    let row = layout.prompt.y + 1;
    let yes = mouse(MouseKind::LeftDown, layout.prompt.x + 13, row);
    assert_eq!(press(&mut app, yes), UiAction::Leave);
    assert!(app.confirmed_move);
    let no = mouse(MouseKind::LeftDown, layout.prompt.x + 24, row);
    assert_eq!(press(&mut app, no), UiAction::Leave);
    assert!(!app.confirmed_move);
    let between = mouse(MouseKind::LeftDown, layout.prompt.x + 18, row);
    assert_eq!(press(&mut app, between), UiAction::Continue);
}

#[test]
fn output_pane_scrolls_sideways() {
    let mut app = sample();
    press(&mut app, shifted(Key::Right));
    assert_eq!(app.output_horizontal_offset, 8);
    press(&mut app, mouse(MouseKind::ScrollRight, 0, 0));
    assert_eq!(app.output_horizontal_offset, 12);
    press(&mut app, mouse(MouseKind::ScrollLeft, 0, 0));
    press(&mut app, shifted(Key::Left));
    press(&mut app, shifted(Key::Left));
    assert_eq!(app.output_horizontal_offset, 0);
    press(&mut app, shifted(Key::Right));
    press(&mut app, key(Key::Home));
    assert_eq!(app.output_horizontal_offset, 8);
    press(&mut app, shifted(Key::Home));
    assert_eq!(app.output_horizontal_offset, 0);
    app.output_horizontal_offset = usize::MAX;
    press(&mut app, shifted(Key::Right));
    assert_eq!(app.output_horizontal_offset, usize::MAX);
}

#[test]
fn header_switches_its_moves() {
    let mut app = sample();
    app.selected = 1;
    toggle_item_enabled(&mut app, 3);
    let row = build_display_rows(&app)[1].clone();
    assert_eq!(selection_state_for_row(&app, &row), SelectionState::Part);
    press(&mut app, key(Key::Char('x')));
    assert_eq!(selection_state_for_row(&app, &row), SelectionState::All);
    press(&mut app, key(Key::Char('x')));
    assert_eq!(selection_state_for_row(&app, &row), SelectionState::Nothing);
    assert!(is_item_enabled(&app, 0) && is_item_enabled(&app, 2));
    press(&mut app, key(Key::Char('x')));
    assert_eq!(selection_state_for_row(&app, &row), SelectionState::All);
}

#[test]
fn header_of_files_without_platform_switches_nothing() {
    let mut app = sample();
    let row = build_display_rows(&app)[2].clone();
    assert_eq!(selection_state_for_row(&app, &row), SelectionState::Nothing);
    toggle_row_enabled(&mut app, &row);
    assert!(app.disabled_plan_indices.is_empty());
}

#[test]
fn all_moves_are_switched_at_once() {
    let mut app = sample();
    assert_eq!(selection_state_for_all(&app), SelectionState::All);
    toggle_item_enabled(&mut app, 2);
    assert_eq!(selection_state_for_all(&app), SelectionState::Part);
    toggle_all_enabled(&mut app);
    assert_eq!(selection_state_for_all(&app), SelectionState::All);
    toggle_all_enabled(&mut app);
    assert_eq!(selection_state_for_all(&app), SelectionState::Nothing);
}

#[test]
fn click_on_the_box_switches_all_moves() {
    let layout = screen();
    let mut app = sample();
    let on_box = mouse(MouseKind::LeftDown, layout.all_toggle.x, layout.all_toggle.y + 1);
    press(&mut app, on_box);
    assert_eq!(selection_state_for_all(&app), SelectionState::Nothing);
    press(&mut app, mouse(MouseKind::LeftDown, layout.all_toggle.x, layout.all_toggle.y));
    assert_eq!(selection_state_for_all(&app), SelectionState::Nothing);
}

#[test]
fn item_is_switched_twice_without_a_change() {
    let mut app = sample();
    toggle_item_enabled(&mut app, 4);
    assert!(!is_item_enabled(&app, 4));
    toggle_item_enabled(&mut app, 4);
    assert!(is_item_enabled(&app, 4));
}

#[test]
fn click_on_a_row_flips_it() {
    let layout = screen();
    let mut app = sample();
    let line = layout.input.y + 2;
    press(&mut app, mouse(MouseKind::LeftDown, layout.input.x + 1, line + 1));
    assert_eq!(app.selected, 1);
    assert_eq!(shown(&app).len(), 5);
    press(&mut app, mouse(MouseKind::LeftDown, layout.output.x + 1, line + 1));
    assert_eq!(shown(&app).len(), 3);
}

#[test]
fn click_in_the_middle_switches_a_row() {
    let layout = screen();
    let mut app = sample();
    press(&mut app, mouse(MouseKind::LeftDown, layout.toggle.x + 1, layout.toggle.y + 2));
    assert_eq!(app.selected, 0);
    assert!(!is_item_enabled(&app, 0));
    assert_eq!(shown(&app).len(), 3);
}

#[test]
fn click_beside_the_rows_does_nothing() {
    let layout = screen();
    let mut app = sample();
    app.selected = 1;
    for row in [layout.input.y, layout.input.y + 1, layout.input.y + 5] {
        press(&mut app, mouse(MouseKind::LeftDown, layout.input.x + 1, row));
        assert_eq!(app.selected, 1);
        assert_eq!(shown(&app).len(), 3);
    }
}

#[test]
fn scrollbar_goes_to_the_top_when_all_is_in_view() {
    let layout = screen();
    let mut app = sample();
    app.selected = 2;
    let column = layout.output.x + layout.output.width - 1;
    let action = press(&mut app, mouse(MouseKind::LeftDown, column, layout.output.y + 3));
    assert_eq!(action, UiAction::Continue);
    assert_eq!((app.selected, app.list_offset), (0, 0));
    assert!(app.scrollbar_dragging);
    press(&mut app, mouse(MouseKind::LeftUp, 0, 0));
    assert!(!app.scrollbar_dragging);
}

#[test]
fn scrollbar_asks_for_a_share_of_a_long_list() {
    let layout = frame_layout(Rect { x: 0, y: 0, width: 100, height: 12 });
    let mut app = sample();
    app.expanded_slugs.insert(String::from("nes"));
    let column = layout.output.x + layout.output.width - 1;
    assert_eq!(layout.output.height, 5);
    let down = mouse(MouseKind::LeftDown, column, layout.output.y + 2);
    let share = UiAction::Scroll { local_y: 1, track: 2, max_offset: 3 };
    assert_eq!(handle_event(&mut app, &layout, down), share);
    let drag = mouse(MouseKind::LeftDrag, column, layout.output.y + 2);
    assert_eq!(handle_event(&mut app, &layout, drag), share);
    app.scrollbar_dragging = false;
    assert_eq!(handle_event(&mut app, &layout, drag), UiAction::Continue);
    settle_scroll(&mut app, 2, 3);
    assert_eq!((app.selected, app.list_offset), (2, 2));
    settle_scroll(&mut app, 9, 3);
    assert_eq!((app.selected, app.list_offset), (3, 3));
}

#[test]
fn screen_is_laid_out_as_it_was_drawn() {
    let layout = screen();
    let mut app = sample();
    let on_box = mouse(MouseKind::LeftDown, layout.all_toggle.x, layout.all_toggle.y + 1);
    handle_event_on_screen(&mut app, on_box);
    assert_eq!(selection_state_for_all(&app), SelectionState::All);
    app.frame_area = Rect { x: 0, y: 0, width: 100, height: 30 };
    handle_event_on_screen(&mut app, on_box);
    assert_eq!(selection_state_for_all(&app), SelectionState::Nothing);
}

#[test]
fn counts_tell_what_would_become_of_the_moves() {
    let mut app = sample();
    assert_eq!(transfer_sanity_counts(&app), (3, 1, 1, 0));
    toggle_item_enabled(&mut app, 4);
    toggle_item_enabled(&mut app, 0);
    assert_eq!(transfer_sanity_counts(&app), (2, 1, 0, 2));
}

#[test]
fn selected_row_is_brought_into_view() {
    let layout = frame_layout(Rect { x: 0, y: 0, width: 100, height: 12 });
    let mut app = sample();
    app.expanded_slugs.insert(String::from("nes"));
    app.selected = 3;
    let view = bring_into_view(&mut app, &layout).expect("room");
    assert_eq!(app.list_offset, 2);
    assert_eq!((view.rows.len(), view.row_count, view.height), (2, 5, 2));
    assert_eq!((view.selected, view.selected_below_heading), (Some(1), Some(2)));
    app.selected = 0;
    let view = bring_into_view(&mut app, &layout).expect("room");
    assert_eq!(app.list_offset, 0);
    assert_eq!((view.selected, view.selected_below_heading), (Some(0), Some(1)));
    app.selected = 99;
    bring_into_view(&mut app, &layout);
    assert_eq!((app.selected, app.list_offset), (4, 3));
}

#[test]
fn pane_without_room_shows_nothing() {
    let mut layout = screen();
    layout.input.height = 3;
    let mut app = sample();
    app.selected = 99;
    assert!(bring_into_view(&mut app, &layout).is_none());
    assert_eq!(app.selected, 99);
}

#[test]
fn empty_plan_selects_nothing() {
    let mut app = UiState::new(AppView {
        source_root: unix("/in"),
        output_root: unix("/in/roms"),
        plan: Vec::new(),
        summary: Summary::default(),
        transfer_mode: TransferMode::Move,
    });
    press(&mut app, key(Key::Down));
    press(&mut app, key(Key::Enter));
    press(&mut app, key(Key::Char('x')));
    app.selected = 5;
    app.list_offset = 5;
    let view = bring_into_view(&mut app, &screen()).expect("room");
    assert_eq!((app.selected, app.list_offset), (0, 0));
    assert_eq!((view.selected, view.selected_below_heading), (None, None));
    assert_eq!(selection_state_for_all(&app), SelectionState::Nothing);
}

#[test]
fn selection_hands_the_plan_on() {
    let mut app = sample();
    toggle_item_enabled(&mut app, 1);
    app.confirmed_move = true;
    let selection = app.into_selection();
    assert!(selection.confirmed);
    assert_eq!(selection.plan.len(), 5);
    assert!(selection.disabled_plan_indices.contains(&1));
}

#[test]
fn work_is_canceled_by_key_or_button() {
    let button = Rect { x: 10, y: 5, width: 4, height: 1 };
    assert!(progress_cancel_requested(&key(Key::Esc), button));
    assert!(progress_cancel_requested(&shifted(Key::Char('q')), button));
    assert!(!progress_cancel_requested(&key(Key::Char('n')), button));
    assert!(progress_cancel_requested(&mouse(MouseKind::LeftDown, 13, 5), button));
    assert!(!progress_cancel_requested(&mouse(MouseKind::LeftDown, 14, 5), button));
    assert!(!progress_cancel_requested(&mouse(MouseKind::LeftUp, 13, 5), button));
    assert!(!progress_cancel_requested(&UiEvent::Other, button));
}

#[test]
fn games_that_are_remembered_alike_expand_together() {
    let mut app = UiState::new(AppView {
        source_root: unix("/in"),
        output_root: unix("/in/roms"),
        plan: vec![item("b::c", Some("a"), ""), item("c", Some("a::b"), "")],
        summary: Summary::default(),
        transfer_mode: TransferMode::Move,
    });
    app.expanded_slugs.insert(String::from("a"));
    app.expanded_slugs.insert(String::from("a::b"));
    app.selected = 1;
    press(&mut app, key(Key::Enter));
    assert_eq!(
        shown(&app),
        vec!["a 1 true", "a/b::c 1 true", "#0", "a::b 1 true", "a::b/c 1 true", "#1"]
    );
}

#[test]
fn no_move_has_two_rows() {
    let mut app = sample();
    let mut at = 0;
    while at < build_display_rows(&app).len() {
        app.selected = at;
        press(&mut app, key(Key::Right));
        at += 1;
    }
    let mut items: Vec<usize> = build_display_rows(&app)
        .iter()
        .filter_map(|row| match row {
            DisplayRow::Item { plan_index } => Some(*plan_index),
            _ => None,
        })
        .collect();
    items.sort();
    assert_eq!(items, vec![0, 1, 2, 3, 4]);
}

#[test]
fn clicks_go_by_the_places_of_the_panes() {
    for (width, height) in [(54, 12), (80, 24), (100, 30), (133, 41), (250, 90)] {
        let mut app = sample();
        app.frame_area = Rect { x: 0, y: 0, width, height };
        let left = (46 * width + 50) / 100;
        let on_second_row = mouse(MouseKind::LeftDown, left + 2, 4 + 3);
        handle_event_on_screen(&mut app, on_second_row);
        assert_eq!(app.selected, 1, "{width} x {height}");
        let on_yes = mouse(MouseKind::LeftDown, width - 34 + 13, height - 3 + 1);
        assert_eq!(handle_event_on_screen(&mut app, on_yes), UiAction::Leave, "{width}");
        assert!(app.confirmed_move);
        let on_no = mouse(MouseKind::LeftDown, width - 34 + 20, height - 3 + 1);
        assert_eq!(handle_event_on_screen(&mut app, on_no), UiAction::Leave, "{width}");
        assert!(!app.confirmed_move);
        let between = mouse(MouseKind::LeftDown, width - 34 + 18, height - 3 + 1);
        assert_eq!(handle_event_on_screen(&mut app, between), UiAction::Continue, "{width}");
    }
}
