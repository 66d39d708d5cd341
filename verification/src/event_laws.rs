//! What each key and each click does to the preview, and what it leaves alone.

use vstd::prelude::*;
use crate::events;
use crate::events::{Key, MouseKind, UiAction, UiEvent};
use crate::geometry;
use crate::geometry::{FrameLayout, Pane, Rect, ScrollHit};
use crate::rows;
use crate::rows::RowView;
use crate::ui;
use crate::ui::{SelectionState, UiView};
use crate::viewport;

verus! {

/// A key that is pressed.
pub open spec fn press(key: Key, shift_only: bool) -> UiEvent {
    UiEvent::Key { key, shift_only }
}

/// Something that is done with the mouse.
pub open spec fn point(kind: MouseKind, column: u16, row: u16) -> UiEvent {
    UiEvent::Mouse { kind, column, row }
}

// ---------------------------------------------------------------------------------------------
// Leaving

/// `q` and escape leave the preview as it is, `n` leaves it unconfirmed and `y` confirmed; no other
/// key leaves it.
pub proof fn lemma_keys_that_leave(app: UiView, layout: FrameLayout, key: Key, shift_only: bool)
    ensures
        ({
            let (after, action) = events::next(app, layout, press(key, shift_only));
            &&& action == UiAction::Leave <==> key == Key::Char('q') || key == Key::Esc || key
                == Key::Char('n') || key == Key::Char('y')
            &&& action == UiAction::Leave || action == UiAction::Continue
            &&& key == Key::Char('q') || key == Key::Esc ==> after == app
            &&& key == Key::Char('n') ==> after == UiView { confirmed: false, ..app }
            &&& key == Key::Char('y') ==> after == UiView { confirmed: true, ..app }
        }),
{
}

// ---------------------------------------------------------------------------------------------
// Moving about

/// The selection goes down a row with the key or the wheel, and stays on the last row; nothing else
/// changes.
pub proof fn lemma_down_is_one_row(
    app: UiView,
    layout: FrameLayout,
    shift_only: bool,
    column: u16,
    row: u16,
)
    requires
        0 <= app.selected < app.rows().len(),
    ensures
        ({
            let wanted = UiView {
                selected: if app.selected + 1 < app.rows().len() {
                    app.selected + 1
                } else {
                    app.selected
                },
                ..app
            };
            &&& events::next(app, layout, press(Key::Down, shift_only)) == (
                wanted,
                UiAction::Continue,
            )
            &&& events::next(app, layout, point(MouseKind::ScrollDown, column, row)) == (
                wanted,
                UiAction::Continue,
            )
        }),
{
}

/// The selection goes up a row with the key or the wheel, and stays on the first row; nothing else
/// changes.
pub proof fn lemma_up_is_one_row(
    app: UiView,
    layout: FrameLayout,
    shift_only: bool,
    column: u16,
    row: u16,
)
    requires
        0 <= app.selected,
    ensures
        ({
            let wanted = UiView {
                selected: if app.selected > 0 {
                    app.selected - 1
                } else {
                    0
                },
                ..app
            };
            &&& events::next(app, layout, press(Key::Up, shift_only)) == (
                wanted,
                UiAction::Continue,
            )
            &&& events::next(app, layout, point(MouseKind::ScrollUp, column, row)) == (
                wanted,
                UiAction::Continue,
            )
        }),
{
}

/// A page is ten rows, as far as there are; nothing else changes.
pub proof fn lemma_page_is_ten_rows(app: UiView, layout: FrameLayout, shift_only: bool)
    requires
        0 <= app.selected < app.rows().len(),
    ensures
        events::next(app, layout, press(Key::PageDown, shift_only)) == (
            UiView {
                selected: if app.selected + 10 < app.rows().len() {
                    app.selected + 10
                } else {
                    app.rows().len() - 1
                },
                ..app
            },
            UiAction::Continue,
        ),
        events::next(app, layout, press(Key::PageUp, shift_only)) == (
            UiView {
                selected: if app.selected >= 10 {
                    app.selected - 10
                } else {
                    0
                },
                ..app
            },
            UiAction::Continue,
        ),
{
    lemma_steps_down(app, 10);
    lemma_steps_up(app, 10);
}

proof fn lemma_steps_down(app: UiView, steps: nat)
    requires
        0 <= app.selected < app.rows().len(),
    ensures
        ui::moved_down_by(app, steps) == (UiView {
            selected: if app.selected + steps < app.rows().len() {
                app.selected + steps
            } else {
                app.rows().len() - 1
            },
            ..app
        }),
    decreases steps,
{
    if steps > 0 {
        lemma_steps_down(app, (steps - 1) as nat);
        let before = ui::moved_down_by(app, (steps - 1) as nat);
        assert(before.rows() == app.rows());
    }
}

proof fn lemma_steps_up(app: UiView, steps: nat)
    requires
        0 <= app.selected,
    ensures
        ui::moved_up_by(app, steps) == (UiView {
            selected: if app.selected >= steps {
                app.selected - steps
            } else {
                0
            },
            ..app
        }),
    decreases steps,
{
    if steps > 0 {
        lemma_steps_up(app, (steps - 1) as nat);
    }
}

/// The output pane goes eight cells to the side with shift and an arrow, four with the wheel, and to
/// its beginning with shift and home; nothing else changes.
pub proof fn lemma_output_pane_goes_sideways(
    app: UiView,
    layout: FrameLayout,
    column: u16,
    row: u16,
)
    requires
        0 <= app.output_offset,
        app.output_offset + 8 <= usize::MAX,
    ensures
        events::next(app, layout, press(Key::Right, true)) == (
            UiView { output_offset: app.output_offset + 8, ..app },
            UiAction::Continue,
        ),
        events::next(app, layout, press(Key::Left, true)) == (
            UiView {
                output_offset: if app.output_offset >= 8 {
                    app.output_offset - 8
                } else {
                    0
                },
                ..app
            },
            UiAction::Continue,
        ),
        events::next(app, layout, point(MouseKind::ScrollRight, column, row)) == (
            UiView { output_offset: app.output_offset + 4, ..app },
            UiAction::Continue,
        ),
        events::next(app, layout, point(MouseKind::ScrollLeft, column, row)) == (
            UiView {
                output_offset: if app.output_offset >= 4 {
                    app.output_offset - 4
                } else {
                    0
                },
                ..app
            },
            UiAction::Continue,
        ),
        events::next(app, layout, press(Key::Home, true)) == (
            UiView { output_offset: 0, ..app },
            UiAction::Continue,
        ),
{
}

/// What is without meaning changes nothing: other keys, home without shift, other mouse events, a drag
/// that did not begin on the scrollbar, and other events.
pub proof fn lemma_the_rest_changes_nothing(
    app: UiView,
    layout: FrameLayout,
    key: Key,
    ch: char,
    shift_only: bool,
    column: u16,
    row: u16,
)
    requires
        ch != 'q' && ch != 'n' && ch != 'y' && ch != 'x' && ch != ' ',
    ensures
        events::next(app, layout, press(Key::Char(ch), shift_only)) == (app, UiAction::Continue),
        events::next(app, layout, press(Key::Other, shift_only)) == (app, UiAction::Continue),
        events::next(app, layout, press(Key::Home, false)) == (app, UiAction::Continue),
        events::next(app, layout, point(MouseKind::Other, column, row)) == (
            app,
            UiAction::Continue,
        ),
        !app.dragging ==> events::next(app, layout, point(MouseKind::LeftDrag, column, row)) == (
            app,
            UiAction::Continue,
        ),
        events::next(app, layout, point(MouseKind::LeftUp, column, row)) == (
            UiView { dragging: false, ..app },
            UiAction::Continue,
        ),
        events::next(app, layout, UiEvent::Other) == (app, UiAction::Continue),
{
}

/// Where there is no row, nothing can be moved to, expanded or switched.
pub proof fn lemma_without_rows(app: UiView, layout: FrameLayout, key: Key)
    requires
        app.rows().len() == 0,
        app.selected == 0,
        key == Key::Down || key == Key::Up || key == Key::PageDown || key == Key::PageUp || key
            == Key::Right || key == Key::Left || key == Key::Enter || key == Key::Char(' ') || key
            == Key::Char('x'),
    ensures
        events::next(app, layout, press(key, false)) == (app, UiAction::Continue),
{
    lemma_standing_still(app, 10);
}

proof fn lemma_standing_still(app: UiView, steps: nat)
    requires
        app.rows().len() == 0,
        app.selected == 0,
    ensures
        ui::moved_down_by(app, steps) == app,
        ui::moved_up_by(app, steps) == app,
    decreases steps,
{
    if steps > 0 {
        lemma_standing_still(app, (steps - 1) as nat);
    }
}

// ---------------------------------------------------------------------------------------------
// Expanding

/// The platforms and games that are expanded once a header is expanded or collapsed: that header's
/// own is added or taken away, and no other changes. A row of a single move has none.
pub open spec fn with_header(app: UiView, row: RowView, expanded: bool, after: UiView) -> bool {
    &&& forall|slug: Seq<char>| #[trigger]
        after.expanded_slugs.contains(slug) == match row {
            RowView::SlugHeader { slug: own, .. } => if slug == own {
                expanded
            } else {
                app.expanded_slugs.contains(slug)
            },
            _ => app.expanded_slugs.contains(slug),
        }
    &&& forall|key: Seq<char>| #[trigger]
        after.expanded_games.contains(key) == match row {
            RowView::GameHeader { slug, game, .. } => if key == rows::key(slug, game) {
                expanded
            } else {
                app.expanded_games.contains(key)
            },
            _ => app.expanded_games.contains(key),
        }
}

/// Only what is expanded differs, and where the selection stands.
pub open spec fn same_but_expanded(one: UiView, other: UiView) -> bool {
    other == UiView {
        expanded_slugs: other.expanded_slugs,
        expanded_games: other.expanded_games,
        selected: other.selected,
        ..one
    }
}

/// The right arrow expands the selected header, the left arrow collapses it, and enter and space do
/// whichever it is not; the selection stays on its row, or on the last one if there are fewer rows
/// then, and nothing else changes.
pub proof fn lemma_arrows_expand_and_collapse(app: UiView, layout: FrameLayout, shift_only: bool)
    requires
        0 <= app.selected < app.rows().len(),
    ensures
        ({
            let row = app.rows()[app.selected];
            let (right, one) = events::next(app, layout, press(Key::Right, false));
            let (left, two) = events::next(app, layout, press(Key::Left, false));
            let (enter, three) = events::next(app, layout, press(Key::Enter, shift_only));
            let (space, four) = events::next(app, layout, press(Key::Char(' '), shift_only));
            let open = match row {
                RowView::SlugHeader { expanded, .. } => expanded,
                RowView::GameHeader { expanded, .. } => expanded,
                RowView::Item { .. } => false,
            };
            &&& one == UiAction::Continue && with_header(app, row, true, right)
                && same_but_expanded(app, right) && right.selected == app.selected
            &&& two == UiAction::Continue && with_header(app, row, false, left)
            &&& left.rows().len() > 0 ==> same_but_expanded(app, left) && left.selected == if app.selected
                < left.rows().len() {
                app.selected
            } else {
                left.rows().len() - 1
            }
            &&& three == UiAction::Continue && with_header(app, row, !open, enter)
            &&& enter.rows().len() > 0 ==> same_but_expanded(app, enter) && enter.selected
                == if app.selected < enter.rows().len() {
                app.selected
            } else {
                enter.rows().len() - 1
            }
            &&& space == enter && four == UiAction::Continue
        }),
{
}

// ---------------------------------------------------------------------------------------------
// Switching moves on and off

/// The moves that a row stands for: that of a row of a single move; those of the platform of a
/// platform's header; and those of the platform and game of a game's header.
pub proof fn lemma_moves_of_a_row(app: UiView, row: RowView, index: int)
    ensures
        ui::stands_for(app, row, index) <==> match row {
            RowView::Item { plan_index } => index == plan_index,
            RowView::SlugHeader { slug, .. } => 0 <= index < app.plan.len()
                && app.plan[index].platform_slug == Some(slug),
            RowView::GameHeader { slug, game, .. } => 0 <= index < app.plan.len()
                && app.plan[index].platform_slug == Some(slug) && rows::game_name(
                app.plan[index],
                app.output_root.parts,
            ) == game,
        },
{
}

/// Moves of a kind are switched off together where none of them is off, and on together otherwise;
/// all others stay as they are, and nothing else of the preview changes.
pub open spec fn switched_together(
    app: UiView,
    after: UiView,
    which: spec_fn(int) -> bool,
) -> bool {
    &&& after == UiView { disabled: after.disabled, ..app }
    &&& forall|index: usize| #[trigger]
        after.disabled.contains(index) <==> if which(index as int) {
            forall|other: int|
                #[trigger] which(other) ==> !app.disabled.contains(other as usize)
        } else {
            app.disabled.contains(index)
        }
}

/// `x` switches the moves that the selected row stands for, together.
pub proof fn lemma_x_switches_the_selected_row(app: UiView, layout: FrameLayout, shift_only: bool)
    requires
        0 <= app.selected < app.rows().len(),
    ensures
        ({
            let (after, action) = events::next(app, layout, press(Key::Char('x'), shift_only));
            action == UiAction::Continue && switched_together(
                app,
                after,
                |index: int| ui::stands_for(app, app.rows()[app.selected], index),
            )
        }),
{
    let which = |index: int| ui::stands_for(app, app.rows()[app.selected], index);
    let after = ui::toggled(app, which);
    assert(events::next(app, layout, press(Key::Char('x'), shift_only)).0 == after);
    lemma_toggled_together(app, which);
}

proof fn lemma_toggled_together(app: UiView, which: spec_fn(int) -> bool)
    ensures
        switched_together(app, ui::toggled(app, which), which),
{
    let after = ui::toggled(app, which);
    assert(ui::all_enabled(app, which) == (forall|other: int| #[trigger]
        which(other) ==> !app.disabled.contains(other as usize))) by {
        if ui::all_enabled(app, which) {
            assert forall|other: int| #[trigger] which(other) implies !app.disabled.contains(
                other as usize,
            ) by {
                assert(ui::is_enabled(app, other));
            }
        }
    }
}

/// The box in the header switches all moves, together.
pub proof fn lemma_box_switches_all_moves(app: UiView, layout: FrameLayout, x: u16, y: u16)
    requires
        layout.all_toggle.x + layout.all_toggle.width <= u16::MAX,
        layout.all_toggle.y + layout.all_toggle.height <= u16::MAX,
        layout.all_toggle.x <= x < layout.all_toggle.x + layout.all_toggle.width,
        layout.all_toggle.y + 1 <= y < layout.all_toggle.y + layout.all_toggle.height - 1,
    ensures
        ({
            let (after, action) = events::next(app, layout, point(MouseKind::LeftDown, x, y));
            action == UiAction::Continue && switched_together(
                app,
                after,
                |index: int| 0 <= index < app.plan.len(),
            )
        }),
{
    lemma_toggled_together(app, |index: int| 0 <= index < app.plan.len());
}

/// Some moves are shown as all on where none of them is off, as off where all of them are, or there
/// are none, and as partly on otherwise.
pub proof fn lemma_how_many_are_on(app: UiView, which: spec_fn(int) -> bool)
    ensures
        ui::selection_state(app, which) == SelectionState::Nothing <==> forall|index: int| #[trigger]
            which(index) ==> app.disabled.contains(index as usize),
        ui::selection_state(app, which) == SelectionState::All <==> (exists|index: int| #[trigger]
            which(index)) && forall|index: int| #[trigger]
            which(index) ==> !app.disabled.contains(index as usize),
{
    if forall|index: int| #[trigger] which(index) ==> app.disabled.contains(index as usize) {
        assert forall|index: int| #[trigger] which(index) implies !ui::is_enabled(
            app,
            index,
        ) by {}
    }
    if ui::selection_state(app, which) == SelectionState::Nothing {
        assert forall|index: int| #[trigger] which(index) implies app.disabled.contains(
            index as usize,
        ) by {
            assert(!ui::is_enabled(app, index));
        }
    }
    if ui::selection_state(app, which) == SelectionState::All {
        assert forall|index: int| #[trigger] which(index) implies !app.disabled.contains(
            index as usize,
        ) by {
            assert(ui::is_enabled(app, index));
        }
    }
    if (exists|index: int| #[trigger] which(index)) && forall|index: int| #[trigger]
        which(index) ==> !app.disabled.contains(index as usize) {
        let index = choose|index: int| #[trigger] which(index);
        assert(ui::is_enabled(app, index));
        assert forall|other: int| #[trigger] which(other) implies ui::is_enabled(app, other) by {}
    }
}

// ---------------------------------------------------------------------------------------------
// Clicks on the body

/// A rectangle that ends within the numbers of cells.
pub open spec fn fits(rect: Rect) -> bool {
    rect.x + rect.width <= u16::MAX && rect.y + rect.height <= u16::MAX
}

/// A cell lies in a rectangle.
pub open spec fn is_in(rect: Rect, x: u16, y: u16) -> bool {
    rect.x <= x < rect.x + rect.width && rect.y <= y < rect.y + rect.height
}

/// A cell is covered by a rectangle exactly if it lies in it.
pub proof fn lemma_covered_cells(rect: Rect, x: u16, y: u16)
    requires
        fits(rect),
    ensures
        geometry::covers(rect, x, y) <==> is_in(rect, x, y),
{
}

/// A click on a row in a pane that neither the box, the scrollbar nor an answer takes, selects the row
/// that stands there: in the middle pane its moves are switched, in the others its header is flipped.
/// The rows stand below the border and the heading of a pane, from the first one in view on.
pub proof fn lemma_click_on_a_row(
    app: UiView,
    layout: FrameLayout,
    pane: Pane,
    x: u16,
    line: int,
)
    requires
        ({
            let area = match pane {
                Pane::Input => layout.input,
                Pane::Toggle => layout.toggle,
                Pane::Output => layout.output,
            };
            let y = area.y + 2 + line;
            &&& fits(area) && fits(layout.input) && fits(layout.toggle) && fits(layout.output)
            &&& 0 <= line && line + 3 < area.height
            &&& area.x <= x < area.x + area.width
            &&& !geometry::covers_content(layout.all_toggle, x, y as u16)
            &&& geometry::scroll_hit(layout.output, app.rows().len(), x, y as u16)
                == ScrollHit::Miss
            &&& !geometry::covers_answer(layout.prompt, 13, x, y as u16)
            &&& !geometry::covers_answer(layout.prompt, 20, x, y as u16)
            &&& pane != Pane::Input ==> !is_in(layout.input, x, y as u16)
            &&& pane == Pane::Output ==> !is_in(layout.toggle, x, y as u16)
            &&& 0 <= app.list_offset && app.list_offset + line < app.rows().len()
        }),
    ensures
        ({
            let area = match pane {
                Pane::Input => layout.input,
                Pane::Toggle => layout.toggle,
                Pane::Output => layout.output,
            };
            let y = (area.y + 2 + line) as u16;
            let (after, action) = events::next(app, layout, point(MouseKind::LeftDown, x, y));
            let at = app.list_offset + line;
            let row = app.rows()[at];
            let chosen = UiView { selected: at, ..app };
            let open = match row {
                RowView::SlugHeader { expanded, .. } => expanded,
                RowView::GameHeader { expanded, .. } => expanded,
                RowView::Item { .. } => false,
            };
            &&& action == UiAction::Continue
            &&& pane == Pane::Toggle ==> switched_together(
                chosen,
                after,
                |index: int| ui::stands_for(app, row, index),
            )
            &&& pane != Pane::Toggle ==> with_header(app, row, !open, after) && after.disabled
                == app.disabled && after.plan == app.plan && after.confirmed == app.confirmed
            &&& pane != Pane::Toggle && at < after.rows().len() ==> after.selected == at
        }),
{
    let area = match pane {
        Pane::Input => layout.input,
        Pane::Toggle => layout.toggle,
        Pane::Output => layout.output,
    };
    let y = (area.y + 2 + line) as u16;
    lemma_covered_cells(layout.input, x, y);
    lemma_covered_cells(layout.toggle, x, y);
    lemma_covered_cells(layout.output, x, y);
    assert(geometry::pane_at(layout, x, y) == Some(pane));
    assert(geometry::line_at(area, y) == Some(line as nat));
    let at = app.list_offset + line;
    let row = app.rows()[at];
    let chosen = UiView { selected: at, ..app };
    assert(chosen.rows() == app.rows());
    let which = |index: int| ui::stands_for(chosen, row, index);
    let same = |index: int| ui::stands_for(app, row, index);
    assert(ui::same_moves(which, same));
    ui::lemma_same_moves(chosen, which, same);
    if pane == Pane::Toggle {
        let after = ui::row_toggled(chosen, row);
        assert(after == ui::toggled(chosen, same));
        assert(after.rows() == app.rows());
        lemma_toggled_together(chosen, same);
    }
}

/// A click on neither the box, the scrollbar nor an answer changes nothing where no row stands: outside
/// the panes, on a border or a heading, and below the last row.
pub proof fn lemma_click_where_no_row_stands(app: UiView, layout: FrameLayout, x: u16, y: u16)
    requires
        fits(layout.input),
        fits(layout.toggle),
        fits(layout.output),
        !geometry::covers_content(layout.all_toggle, x, y),
        geometry::scroll_hit(layout.output, app.rows().len(), x, y) == ScrollHit::Miss,
        !geometry::covers_answer(layout.prompt, 13, x, y),
        !geometry::covers_answer(layout.prompt, 20, x, y),
        forall|pane: Rect|
            (pane == layout.input || pane == layout.toggle || pane == layout.output)
                && #[trigger] is_in(pane, x, y) ==> y < pane.y + 2 || y + 1 >= pane.y + pane.height
                || app.list_offset + (y - pane.y - 2) >= app.rows().len(),
    ensures
        events::next(app, layout, point(MouseKind::LeftDown, x, y)) == (app, UiAction::Continue),
{
    lemma_covered_cells(layout.input, x, y);
    lemma_covered_cells(layout.toggle, x, y);
    lemma_covered_cells(layout.output, x, y);
}

/// A click on the answer yes confirms and leaves, one on the answer no leaves without; the answers are
/// five cells of the second line of the prompt, and the box and the scrollbar come before them.
pub proof fn lemma_click_on_an_answer(
    app: UiView,
    layout: FrameLayout,
    x: u16,
    y: u16,
)
    requires
        y == layout.prompt.y + 1,
        !geometry::covers_content(layout.all_toggle, x, y),
        geometry::scroll_hit(layout.output, app.rows().len(), x, y) == ScrollHit::Miss,
    ensures
        layout.prompt.x + 13 <= x < layout.prompt.x + 18 ==> events::next(
            app,
            layout,
            point(MouseKind::LeftDown, x, y),
        ) == (UiView { confirmed: true, ..app }, UiAction::Leave),
        layout.prompt.x + 20 <= x < layout.prompt.x + 25 ==> events::next(
            app,
            layout,
            point(MouseKind::LeftDown, x, y),
        ) == (UiView { confirmed: false, ..app }, UiAction::Leave),
        !(layout.prompt.x + 13 <= x < layout.prompt.x + 18) && !(layout.prompt.x + 20 <= x
            < layout.prompt.x + 25) ==> events::next(
            app,
            layout,
            point(MouseKind::LeftDown, x, y),
        ).1 == UiAction::Continue,
{
}

// ---------------------------------------------------------------------------------------------
// The scrollbar

/// The scrollbar is the right border of the output pane, without its two corners: a click there while
/// more rows are listed than have room asks for a share of the rows that are out of view, by how far
/// down the border it is; where all rows are in view the list goes to its beginning.
pub proof fn lemma_scrollbar_is_the_right_border(output: Rect, rows: nat, x: u16, y: u16)
    requires
        fits(output),
        output.width >= 3,
        output.height >= 4,
        0 < rows <= usize::MAX,
    ensures
        ({
            let on_border = x == output.x + output.width - 1 && output.y < y < output.y
                + output.height - 1;
            let hit = geometry::scroll_hit(output, rows, x, y);
            &&& !on_border ==> hit == ScrollHit::Miss
            &&& on_border && rows + 3 <= output.height ==> hit == ScrollHit::Top
            &&& on_border && rows + 3 > output.height ==> hit == (ScrollHit::Share {
                local_y: (y - output.y - 1) as u16,
                track: (output.height - 3) as u16,
                max_offset: (rows + 3 - output.height) as usize,
            })
        }),
{
}

/// A pane that is too small, or a list without rows, has no scrollbar.
pub proof fn lemma_no_scrollbar(output: Rect, rows: nat, x: u16, y: u16)
    requires
        output.width < 3 || output.height < 4 || rows == 0,
    ensures
        geometry::scroll_hit(output, rows, x, y) == ScrollHit::Miss,
{
}

/// A click on the scrollbar begins a drag and, like the drag after it, sends the list to its beginning
/// or asks for its share; apart from that it changes nothing.
pub proof fn lemma_click_on_the_scrollbar(app: UiView, layout: FrameLayout, x: u16, y: u16)
    requires
        !geometry::covers_content(layout.all_toggle, x, y),
        geometry::scroll_hit(layout.output, app.rows().len(), x, y) != ScrollHit::Miss,
    ensures
        ({
            let hit = geometry::scroll_hit(layout.output, app.rows().len(), x, y);
            let (after, action) = events::next(app, layout, point(MouseKind::LeftDown, x, y));
            let held = UiView { dragging: true, ..app };
            let (dragged, same) = events::next(held, layout, point(MouseKind::LeftDrag, x, y));
            &&& hit == ScrollHit::Top ==> after == (UiView { selected: 0, list_offset: 0, ..held })
                && action == UiAction::Continue
            &&& hit matches ScrollHit::Share { local_y, track, max_offset } ==> after == held
                && action == (UiAction::Scroll { local_y, track, max_offset })
            &&& dragged == after && same == action
        }),
{
    let held = UiView { dragging: true, ..app };
    assert(held.rows() == app.rows());
}

/// Going to a place in the list makes its row the first in view and selects it, as far as the list may
/// go and rows there are; nothing else changes.
pub proof fn lemma_going_to_a_place(app: UiView, offset: int, max_offset: int)
    requires
        0 <= offset,
        0 <= max_offset,
    ensures
        ({
            let after = events::scrolled_to(app, offset, max_offset);
            &&& after == UiView { list_offset: after.list_offset, selected: after.selected, ..app }
            &&& offset <= max_offset ==> after.list_offset == offset
            &&& offset > max_offset ==> after.list_offset == max_offset
            &&& after.list_offset < app.rows().len() ==> after.selected == after.list_offset
            &&& after.list_offset >= app.rows().len() > 0 ==> after.selected == app.rows().len() - 1
        }),
{
}

/// Work is canceled with escape, `q` or a click on the button, and with nothing else.
pub proof fn lemma_what_cancels(event: UiEvent, button: Rect)
    requires
        fits(button),
    ensures
        events::asks_to_cancel(event, button) <==> match event {
            UiEvent::Key { key, .. } => key == Key::Esc || key == Key::Char('q'),
            UiEvent::Mouse { kind, column, row } => kind == MouseKind::LeftDown && is_in(
                button,
                column,
                row,
            ),
            UiEvent::Other => false,
        },
{
}

// ---------------------------------------------------------------------------------------------
// The rows in view

/// The rows in view are those of the list from the first one in view on, one after the other, as many
/// as have room and there are.
pub proof fn lemma_rows_in_view(app: UiView, height: nat, k: int)
    requires
        0 <= app.list_offset,
    ensures
        ({
            let view = viewport::in_view(app, height);
            let rest = app.rows().len() - app.list_offset;
            &&& rest <= 0 ==> view.rows.len() == 0
            &&& rest > 0 ==> view.rows.len() == if rest < height {
                rest
            } else {
                height as int
            }
            &&& 0 <= k < view.rows.len() ==> view.rows[k] == app.rows()[app.list_offset + k]
            &&& view.row_count == app.rows().len()
            &&& view.height == height
            &&& view.rows.len() > 0 && app.selected >= app.list_offset ==> view.selected == Some(
                app.selected - app.list_offset,
            ) && view.selected_below_heading == Some(app.selected - app.list_offset + 1)
            &&& view.rows.len() == 0 ==> view.selected is None && view.selected_below_heading is None
        }),
{
}

/// The list is moved only as far as it takes to have the selected row in view: not at all where it is,
/// to it where it stands above, and to where it is the last in view where it stands below.
pub proof fn lemma_list_moves_as_little_as_it_takes(app: UiView, height: nat)
    requires
        height > 0,
        0 <= app.selected < app.rows().len(),
        0 <= app.list_offset,
    ensures
        ({
            let after = viewport::brought_into_view(app, height);
            &&& after == UiView { list_offset: after.list_offset, ..app }
            &&& app.list_offset <= app.selected < app.list_offset + height ==> after == app
            &&& app.selected < app.list_offset ==> after.list_offset == app.selected
            &&& app.selected >= app.list_offset + height ==> after.list_offset == app.selected + 1
                - height
        }),
{
}

/// A pane has room for all of its lines but three.
pub proof fn lemma_room_of_a_pane(pane: Rect)
    ensures
        pane.height >= 3 ==> viewport::room(pane) == pane.height - 3,
        pane.height < 3 ==> viewport::room(pane) == 0,
{
}

}
