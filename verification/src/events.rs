//! What keys and clicks do.

use vstd::prelude::*;
use crate::geometry;
use crate::geometry::{FrameLayout, Pane, Rect, ScrollHit};
use crate::rows;
use crate::rows::DisplayRow;
use crate::ui;
use crate::ui::{UiState, UiView};

verus! {

/// A key.
#[derive(Debug, Clone, Copy, PartialEq, Eq, Structural)]
pub enum Key {
    Char(char),
    Esc,
    Enter,
    Up,
    Down,
    Left,
    Right,
    Home,
    PageUp,
    PageDown,
    Other,
}

/// What is done with the mouse.
#[derive(Debug, Clone, Copy, PartialEq, Eq, Structural)]
pub enum MouseKind {
    ScrollUp,
    ScrollDown,
    ScrollLeft,
    ScrollRight,
    LeftDown,
    LeftDrag,
    LeftUp,
    Other,
}

/// Something that the user does.
#[derive(Debug, Clone, Copy, PartialEq, Eq, Structural)]
pub enum UiEvent {
    /// A key, and whether shift and nothing else is held with it.
    Key { key: Key, shift_only: bool },
    Mouse { kind: MouseKind, column: u16, row: u16 },
    Other,
}

/// What follows from it.
#[derive(Debug, Clone, Copy, PartialEq, Eq, Structural)]
pub enum UiAction {
    Continue,
    Leave,
    /// The list is to go to the share `local_y / track` of `max_offset`, rounded, by
    /// [`settle_scroll`].
    Scroll { local_y: u16, track: u16, max_offset: usize },
}

/// How far the output pane goes with a key.
pub const KEY_SCROLL: usize = 8;

/// How far the output pane goes with the mouse.
pub const MOUSE_SCROLL: usize = 4;

/// How many rows a page has.
pub const PAGE_ROWS: usize = 10;

/// The row that a click on a line of the body hits is selected, and is switched or flipped.
pub open spec fn body_clicked(app: UiView, layout: FrameLayout, x: u16, y: u16) -> UiView {
    match geometry::pane_at(layout, x, y) {
        Some(pane) => match geometry::line_at(geometry::pane_rect(layout, pane), y) {
            Some(line) => {
                let at = app.list_offset + line;
                if at < app.rows().len() {
                    let chosen = UiView { selected: at, ..app };
                    let row = app.rows()[at];
                    ui::clamped(
                        if pane == Pane::Toggle {
                            ui::row_toggled(chosen, row)
                        } else {
                            ui::flipped(chosen, row)
                        },
                    )
                } else {
                    app
                }
            },
            None => app,
        },
        None => app,
    }
}

/// What a click on the scrollbar does, apart from where it makes the list go.
pub open spec fn scrollbar_clicked(app: UiView, hit: ScrollHit) -> (UiView, UiAction) {
    match hit {
        ScrollHit::Miss => (app, UiAction::Continue),
        ScrollHit::Top => (UiView { list_offset: 0, selected: 0, ..app }, UiAction::Continue),
        ScrollHit::Share { local_y, track, max_offset } => (
            app,
            UiAction::Scroll { local_y, track, max_offset },
        ),
    }
}

/// What a click does: the box for all moves comes first, then the scrollbar, the answers, and the
/// body.
pub open spec fn clicked(app: UiView, layout: FrameLayout, x: u16, y: u16) -> (UiView, UiAction) {
    let hit = geometry::scroll_hit(layout.output, app.rows().len(), x, y);
    if geometry::covers_content(layout.all_toggle, x, y) {
        (ui::all_toggled(app), UiAction::Continue)
    } else if hit != ScrollHit::Miss {
        scrollbar_clicked(UiView { dragging: true, ..app }, hit)
    } else if geometry::covers_answer(layout.prompt, 13, x, y) {
        (UiView { confirmed: true, ..app }, UiAction::Leave)
    } else if geometry::covers_answer(layout.prompt, 20, x, y) {
        (UiView { confirmed: false, ..app }, UiAction::Leave)
    } else {
        (body_clicked(app, layout, x, y), UiAction::Continue)
    }
}

/// What a key does.
pub open spec fn key_pressed(app: UiView, key: Key, shift_only: bool) -> (UiView, UiAction) {
    match key {
        Key::Char('q') | Key::Esc => (app, UiAction::Leave),
        Key::Char('n') => (UiView { confirmed: false, ..app }, UiAction::Leave),
        Key::Char('y') => (UiView { confirmed: true, ..app }, UiAction::Leave),
        Key::Down => (ui::moved_down(app), UiAction::Continue),
        Key::Up => (ui::moved_up(app), UiAction::Continue),
        Key::Enter | Key::Char(' ') => (ui::section_toggled(app), UiAction::Continue),
        Key::Right => if shift_only {
            (ui::scrolled_right(app, KEY_SCROLL as int), UiAction::Continue)
        } else {
            (ui::section_expanded(app), UiAction::Continue)
        },
        Key::Left => if shift_only {
            (ui::scrolled_left(app, KEY_SCROLL as int), UiAction::Continue)
        } else {
            (ui::section_collapsed(app), UiAction::Continue)
        },
        Key::Home => if shift_only {
            (UiView { output_offset: 0, ..app }, UiAction::Continue)
        } else {
            (app, UiAction::Continue)
        },
        Key::Char('x') => (ui::selected_toggled(app), UiAction::Continue),
        Key::PageDown => (ui::moved_down_by(app, PAGE_ROWS as nat), UiAction::Continue),
        Key::PageUp => (ui::moved_up_by(app, PAGE_ROWS as nat), UiAction::Continue),
        _ => (app, UiAction::Continue),
    }
}

/// What an event does.
pub open spec fn next(app: UiView, layout: FrameLayout, event: UiEvent) -> (UiView, UiAction) {
    match event {
        UiEvent::Key { key, shift_only } => key_pressed(app, key, shift_only),
        UiEvent::Mouse { kind, column, row } => match kind {
            MouseKind::ScrollDown => (ui::moved_down(app), UiAction::Continue),
            MouseKind::ScrollUp => (ui::moved_up(app), UiAction::Continue),
            MouseKind::ScrollLeft => (
                ui::scrolled_left(app, MOUSE_SCROLL as int),
                UiAction::Continue,
            ),
            MouseKind::ScrollRight => (
                ui::scrolled_right(app, MOUSE_SCROLL as int),
                UiAction::Continue,
            ),
            MouseKind::LeftDown => clicked(app, layout, column, row),
            MouseKind::LeftDrag => if app.dragging {
                scrollbar_clicked(
                    app,
                    geometry::scroll_hit(layout.output, app.rows().len(), column, row),
                )
            } else {
                (app, UiAction::Continue)
            },
            MouseKind::LeftUp => (UiView { dragging: false, ..app }, UiAction::Continue),
            MouseKind::Other => (app, UiAction::Continue),
        },
        UiEvent::Other => (app, UiAction::Continue),
    }
}

/// The list goes to an offset, within `max_offset`, and the selection to its first row.
pub open spec fn scrolled_to(app: UiView, offset: int, max_offset: int) -> UiView {
    let first = if offset <= max_offset {
        offset
    } else {
        max_offset
    };
    let last = if app.rows().len() == 0 {
        0
    } else {
        app.rows().len() - 1
    };
    UiView {
        list_offset: first,
        selected: if first <= last {
            first
        } else {
            last
        },
        ..app
    }
}

/// Selects the row that a click on a line of the body hits, and switches or flips it.
pub fn handle_body_click(app: &mut UiState, layout: &FrameLayout, x: u16, y: u16)
    ensures
        final(app)@ == body_clicked(old(app)@, *layout, x, y),
{
    let (pane, line): (Pane, usize) = match geometry::clicked_line(layout, x, y) {
        Some(hit) => hit,
        None => {
            return;
        },
    };
    let rows: Vec<DisplayRow> = ui::build_display_rows(app);
    let ghost before = app@;
    assert(rows@.len() == app@.rows().len());
    if app.list_offset >= rows.len() || line >= rows.len() - app.list_offset {
        return;
    }
    let at: usize = app.list_offset + line;
    assert(before.rows()[at as int] == rows@[at as int]@);
    app.selected = at;
    if pane == Pane::Toggle {
        ui::toggle_row_enabled(app, &rows[at]);
    } else {
        ui::flip_section(app, &rows[at]);
    }
    ui::clamp_selected(app);
}

/// Does what a click on the scrollbar does, apart from where it makes the list go.
fn handle_scroll_hit(app: &mut UiState, hit: ScrollHit) -> (result: UiAction)
    ensures
        (final(app)@, result) == scrollbar_clicked(old(app)@, hit),
{
    match hit {
        ScrollHit::Miss => UiAction::Continue,
        ScrollHit::Top => {
            app.list_offset = 0;
            app.selected = 0;
            UiAction::Continue
        },
        ScrollHit::Share { local_y, track, max_offset } => UiAction::Scroll {
            local_y,
            track,
            max_offset,
        },
    }
}

/// What a click asks of the scrollbar.
fn scrollbar_hit(app: &UiState, layout: &FrameLayout, x: u16, y: u16) -> (result: ScrollHit)
    ensures
        result == geometry::scroll_hit(layout.output, app@.rows().len(), x, y),
{
    let rows: Vec<DisplayRow> = ui::build_display_rows(app);
    assert(rows@.len() == app@.rows().len());
    geometry::clicked_scrollbar(layout.output, rows.len(), x, y)
}

/// Does what a click does.
fn handle_click(app: &mut UiState, layout: &FrameLayout, x: u16, y: u16) -> (result: UiAction)
    ensures
        (final(app)@, result) == clicked(old(app)@, *layout, x, y),
{
    if geometry::clicked_all_toggle(layout, x, y) {
        ui::toggle_all_enabled(app);
        return UiAction::Continue;
    }
    let hit: ScrollHit = scrollbar_hit(app, layout, x, y);
    if hit != ScrollHit::Miss {
        app.scrollbar_dragging = true;
        return handle_scroll_hit(app, hit);
    }
    if geometry::clicked_yes(layout, x, y) {
        app.confirmed_move = true;
        return UiAction::Leave;
    }
    if geometry::clicked_no(layout, x, y) {
        app.confirmed_move = false;
        return UiAction::Leave;
    }
    handle_body_click(app, layout, x, y);
    UiAction::Continue
}

/// Does what a key does.
fn handle_key(app: &mut UiState, key: Key, shift_only: bool) -> (result: UiAction)
    ensures
        (final(app)@, result) == key_pressed(old(app)@, key, shift_only),
{
    match key {
        Key::Char('q') | Key::Esc => {
            return UiAction::Leave;
        },
        Key::Char('n') => {
            app.confirmed_move = false;
            return UiAction::Leave;
        },
        Key::Char('y') => {
            app.confirmed_move = true;
            return UiAction::Leave;
        },
        Key::Down => {
            ui::move_down(app);
        },
        Key::Up => {
            ui::move_up(app);
        },
        Key::Enter | Key::Char(' ') => {
            ui::toggle_section(app);
        },
        Key::Right => {
            if shift_only {
                ui::scroll_output_right(app, KEY_SCROLL);
            } else {
                ui::expand_section(app);
            }
        },
        Key::Left => {
            if shift_only {
                ui::scroll_output_left(app, KEY_SCROLL);
            } else {
                ui::collapse_section(app);
            }
        },
        Key::Home => {
            if shift_only {
                app.output_horizontal_offset = 0;
            }
        },
        Key::Char('x') => {
            ui::toggle_selected_row_enabled(app);
        },
        Key::PageDown => {
            ui::move_down_by(app, PAGE_ROWS);
        },
        Key::PageUp => {
            ui::move_up_by(app, PAGE_ROWS);
        },
        _ => {},
    }
    UiAction::Continue
}

/// Does what an event does on a screen that is laid out in this way.
pub fn handle_event(app: &mut UiState, layout: &FrameLayout, event: UiEvent) -> (result: UiAction)
    ensures
        (final(app)@, result) == next(old(app)@, *layout, event),
{
    match event {
        UiEvent::Key { key, shift_only } => handle_key(app, key, shift_only),
        UiEvent::Mouse { kind, column, row } => match kind {
            MouseKind::ScrollDown => {
                ui::move_down(app);
                UiAction::Continue
            },
            MouseKind::ScrollUp => {
                ui::move_up(app);
                UiAction::Continue
            },
            MouseKind::ScrollLeft => {
                ui::scroll_output_left(app, MOUSE_SCROLL);
                UiAction::Continue
            },
            MouseKind::ScrollRight => {
                ui::scroll_output_right(app, MOUSE_SCROLL);
                UiAction::Continue
            },
            MouseKind::LeftDown => handle_click(app, layout, column, row),
            MouseKind::LeftDrag => {
                if app.scrollbar_dragging {
                    let hit: ScrollHit = scrollbar_hit(app, layout, column, row);
                    handle_scroll_hit(app, hit)
                } else {
                    UiAction::Continue
                }
            },
            MouseKind::LeftUp => {
                app.scrollbar_dragging = false;
                UiAction::Continue
            },
            MouseKind::Other => UiAction::Continue,
        },
        UiEvent::Other => UiAction::Continue,
    }
}

/// Lays the screen out as it was last drawn, and does what an event does on it.
pub fn handle_event_on_screen(app: &mut UiState, event: UiEvent) -> (result: UiAction)
    ensures
        exists|layout: FrameLayout| #[trigger]
            layout.splits(old(app)@.frame_area) && layout.is_placed(old(app)@.frame_area) && (
            final(app)@,
            result,
        ) == next(old(app)@, layout, event),
        geometry::has_settled_rows(old(app)@.frame_area, 4) ==> (final(app)@, result) == next(
            old(app)@,
            geometry::placed_frame(old(app)@.frame_area),
            event,
        ),
{
    let layout: FrameLayout = geometry::frame_layout(app.frame_area);
    handle_event(app, &layout, event)
}

/// Makes the list go to an offset, within `max_offset`, and the selection to its first row.
pub fn settle_scroll(app: &mut UiState, offset: usize, max_offset: usize)
    ensures
        final(app)@ == scrolled_to(old(app)@, offset as int, max_offset as int),
{
    let rows: Vec<DisplayRow> = ui::build_display_rows(app);
    assert(rows@.len() == app@.rows().len());
    let first: usize = if offset <= max_offset {
        offset
    } else {
        max_offset
    };
    let last: usize = rows.len().saturating_sub(1);
    app.list_offset = first;
    app.selected = if first <= last {
        first
    } else {
        last
    };
}

/// An event that asks for work to be canceled: a key for it, or a click on the button.
pub open spec fn asks_to_cancel(event: UiEvent, button: Rect) -> bool {
    match event {
        UiEvent::Key { key, .. } => key == Key::Esc || key == Key::Char('q'),
        UiEvent::Mouse { kind, column, row } => kind == MouseKind::LeftDown && geometry::covers(
            button,
            column,
            row,
        ),
        UiEvent::Other => false,
    }
}

/// Whether an event asks for work to be canceled.
pub fn progress_cancel_requested(event: &UiEvent, button: Rect) -> (result: bool)
    ensures
        result == asks_to_cancel(*event, button),
{
    match event {
        UiEvent::Key { key, .. } => match key {
            Key::Esc => true,
            Key::Char(ch) => *ch == 'q',
            _ => false,
        },
        UiEvent::Mouse { kind, column, row } => match kind {
            MouseKind::LeftDown => geometry::contains(button, *column, *row),
            _ => false,
        },
        UiEvent::Other => false,
    }
}

}
