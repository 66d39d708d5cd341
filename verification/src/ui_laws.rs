//! What holds of the preview whatever the user does.

use vstd::prelude::*;
use crate::events;
use crate::events::{Key, MouseKind, UiAction, UiEvent};
use crate::geometry;
use crate::geometry::FrameLayout;
use crate::row_laws;
use crate::rows;
use crate::rows::RowView;
use crate::ui;
use crate::ui::{SelectionState, UiView};

verus! {

/// A kind of moves that have numbers.
pub open spec fn numbered(which: spec_fn(int) -> bool) -> bool {
    forall|index: int| #[trigger] which(index) ==> 0 <= index <= usize::MAX
}

/// Switching moves leaves no mixture: they are all off if they were all on, and all on otherwise.
pub proof fn lemma_toggling_is_uniform(app: UiView, which: spec_fn(int) -> bool)
    requires
        numbered(which),
    ensures
        ui::selection_state(ui::toggled(app, which), which) == if ui::all_enabled(app, which) {
            SelectionState::Nothing
        } else {
            SelectionState::All
        },
{
    let after = ui::toggled(app, which);
    let enabled = !ui::all_enabled(app, which);
    assert forall|index: int| #[trigger] which(index) implies ui::is_enabled(after, index)
        == enabled by {
        assert(which((index as usize) as int));
    }
}

/// Switching moves twice changes nothing, unless they were a mixture.
pub proof fn lemma_toggling_twice_restores(app: UiView, which: spec_fn(int) -> bool)
    requires
        numbered(which),
        ui::selection_state(app, which) != SelectionState::Part,
    ensures
        ui::toggled(ui::toggled(app, which), which) == app,
{
    let once = ui::toggled(app, which);
    let twice = ui::toggled(once, which);
    lemma_toggling_is_uniform(app, which);
    assert forall|index: usize| twice.disabled.contains(index) == app.disabled.contains(index) by {
        if which(index as int) {
            assert(ui::is_enabled(once, index as int) == !ui::all_enabled(app, which));
            if ui::all_enabled(app, which) {
                assert(ui::is_enabled(app, index as int));
            } else {
                assert(!ui::is_enabled(app, index as int));
            }
        }
    }
    assert(twice.disabled =~= app.disabled);
}

/// Switching moves leaves all others as they are.
pub proof fn lemma_toggling_leaves_others_alone(
    app: UiView,
    which: spec_fn(int) -> bool,
    index: int,
)
    requires
        0 <= index <= usize::MAX,
        !which(index),
    ensures
        ui::is_enabled(ui::toggled(app, which), index) == ui::is_enabled(app, index),
{
}

/// Switching a row twice changes nothing, unless its moves were a mixture.
pub proof fn lemma_row_toggled_twice_restores(app: UiView, row: RowView)
    requires
        app.plan.len() <= usize::MAX,
        row matches RowView::Item { plan_index } ==> 0 <= plan_index < app.plan.len(),
        ui::selection_state(app, |index: int| ui::stands_for(app, row, index))
            != SelectionState::Part,
    ensures
        ui::row_toggled(ui::row_toggled(app, row), row) == app,
{
    let which = |index: int| ui::stands_for(app, row, index);
    let once = ui::row_toggled(app, row);
    let again = |index: int| ui::stands_for(once, row, index);
    assert(ui::same_moves(which, again));
    ui::lemma_same_moves(once, which, again);
    lemma_toggling_twice_restores(app, which);
}

/// A single move can be switched twice without a change, whatever it was.
pub proof fn lemma_item_toggled_twice_restores(app: UiView, plan_index: int)
    requires
        app.plan.len() <= usize::MAX,
        0 <= plan_index < app.plan.len(),
    ensures
        ui::row_toggled(
            ui::row_toggled(app, RowView::Item { plan_index }),
            RowView::Item { plan_index },
        ) == app,
{
    let row = RowView::Item { plan_index };
    let which = |index: int| ui::stands_for(app, row, index);
    assert(which(plan_index));
    assert(forall|index: int| #[trigger] which(index) ==> index == plan_index);
    lemma_row_toggled_twice_restores(app, row);
}

/// Flipping the selected header twice changes nothing, nor does flipping another row. A game must
/// not share what it is remembered by with another game of the plan.
pub proof fn lemma_section_toggled_twice_restores(app: UiView)
    requires
        app.selects_a_row(),
        app.rows().len() > 0,
        app.rows()[app.selected] matches RowView::GameHeader { slug, game, .. }
            ==> row_laws::key_is_unique(app.plan, app.output_root.parts, slug, game),
    ensures
        ui::section_toggled(ui::section_toggled(app)) == app,
{
    let row = app.rows()[app.selected];
    let once = ui::flipped(app, row);
    match row {
        RowView::SlugHeader { slug, count, expanded } => {
            row_laws::lemma_slug_header_stays(
                app.plan,
                app.output_root.parts,
                app.expanded_slugs,
                app.expanded_games,
                app.expanded_slugs,
                app.selected,
            );
            row_laws::lemma_slug_header_stays(
                app.plan,
                app.output_root.parts,
                app.expanded_slugs,
                app.expanded_games,
                once.expanded_slugs,
                app.selected,
            );
            assert(ui::section_toggled(app) == once);
            let twice = ui::flipped(once, once.rows()[app.selected]);
            assert(twice.expanded_slugs =~= app.expanded_slugs);
            assert(twice == app);
        },
        RowView::GameHeader { slug, game, .. } => {
            row_laws::lemma_game_header_stays(
                app.plan,
                app.output_root.parts,
                app.expanded_slugs,
                app.expanded_games,
                app.expanded_games,
                app.selected,
            );
            row_laws::lemma_game_header_stays(
                app.plan,
                app.output_root.parts,
                app.expanded_slugs,
                app.expanded_games,
                once.expanded_games,
                app.selected,
            );
            assert(ui::section_toggled(app) == once);
            let twice = ui::flipped(once, once.rows()[app.selected]);
            assert(twice.expanded_games =~= app.expanded_games);
            assert(twice == app);
        },
        RowView::Item { .. } => {},
    }
}

// ---------------------------------------------------------------------------------------------
// What every event keeps

/// A new preview selects a row and switches nothing off.
pub proof fn lemma_new_preview_is_sound(app: UiView)
    requires
        app.selected == 0,
        app.disabled == Set::<usize>::empty(),
    ensures
        app.selects_a_row(),
        app.switches_moves(),
{
}

proof fn lemma_moving_keeps_selection(app: UiView, steps: nat)
    requires
        app.selects_a_row(),
    ensures
        ui::moved_down_by(app, steps).selects_a_row(),
        ui::moved_up_by(app, steps).selects_a_row(),
        ui::moved_down_by(app, steps).disabled == app.disabled,
        ui::moved_up_by(app, steps).disabled == app.disabled,
        ui::moved_down_by(app, steps).plan == app.plan,
        ui::moved_up_by(app, steps).plan == app.plan,
        ui::moved_down_by(app, steps).rows() == app.rows(),
        ui::moved_up_by(app, steps).rows() == app.rows(),
        ui::moved_down_by(app, steps).confirmed == app.confirmed,
        ui::moved_up_by(app, steps).confirmed == app.confirmed,
    decreases steps,
{
    if steps > 0 {
        lemma_moving_keeps_selection(app, (steps - 1) as nat);
    }
}

proof fn lemma_expanding_keeps_selection(app: UiView)
    requires
        app.selects_a_row(),
    ensures
        ui::section_expanded(app).selects_a_row(),
{
    let after = ui::section_expanded(app);
    row_laws::lemma_expanding_adds_rows(
        app.plan,
        app.output_root.parts,
        app.expanded_slugs,
        app.expanded_games,
        after.expanded_slugs,
        after.expanded_games,
    );
}

proof fn lemma_toggling_switches_moves(app: UiView, which: spec_fn(int) -> bool)
    requires
        app.switches_moves(),
        forall|index: int| #[trigger] which(index) ==> index < app.plan.len(),
    ensures
        ui::toggled(app, which).switches_moves(),
{
    let after = ui::toggled(app, which);
    assert forall|index: usize| #[trigger] after.disabled.contains(index) implies (index as int)
        < after.plan.len() by {
        assert(which(index as int) || app.disabled.contains(index));
    }
}

proof fn lemma_row_toggling_switches_moves(app: UiView, at: int)
    requires
        app.switches_moves(),
        0 <= at < app.rows().len(),
    ensures
        ui::row_toggled(app, app.rows()[at]).switches_moves(),
{
    let row = app.rows()[at];
    row_laws::lemma_rows_point_into_plan(
        app.plan,
        app.output_root.parts,
        app.expanded_slugs,
        app.expanded_games,
    );
    assert(row matches RowView::Item { plan_index } ==> 0 <= plan_index < app.plan.len());
    lemma_toggling_switches_moves(app, |index: int| ui::stands_for(app, row, index));
}

/// Whatever the user does, a row stays selected, and what is switched off are moves of the plan.
pub proof fn lemma_events_keep_the_preview_sound(
    app: UiView,
    layout: FrameLayout,
    event: UiEvent,
)
    requires
        app.selects_a_row(),
        app.switches_moves(),
        app.list_offset >= 0,
    ensures
        events::next(app, layout, event).0.selects_a_row(),
        events::next(app, layout, event).0.switches_moves(),
        events::next(app, layout, event).0.plan == app.plan,
{
    lemma_moving_keeps_selection(app, events::PAGE_ROWS as nat);
    lemma_expanding_keeps_selection(app);
    if 0 <= app.selected < app.rows().len() {
        lemma_row_toggling_switches_moves(app, app.selected);
    }
    lemma_toggling_switches_moves(app, |index: int| 0 <= index < app.plan.len());
    if let UiEvent::Mouse { kind, column, row } = event {
        match geometry::pane_at(layout, column, row) {
            Some(pane) => match geometry::line_at(geometry::pane_rect(layout, pane), row) {
                Some(line) => {
                    let at = app.list_offset + line;
                    if at < app.rows().len() {
                        let chosen = UiView { selected: at, ..app };
                        assert(chosen.rows() == app.rows());
                        lemma_row_toggling_switches_moves(chosen, at);
                    }
                },
                None => {},
            },
            None => {},
        }
    }
}

/// Going to another place in the list keeps a row selected and switches nothing.
pub proof fn lemma_scrolling_keeps_the_preview_sound(app: UiView, offset: int, max_offset: int)
    requires
        0 <= offset,
        0 <= max_offset,
    ensures
        events::scrolled_to(app, offset, max_offset).selects_a_row(),
        events::scrolled_to(app, offset, max_offset).disabled == app.disabled,
        events::scrolled_to(app, offset, max_offset).plan == app.plan,
{
}

/// The answer yes, and nothing else.
pub open spec fn says_yes(layout: FrameLayout, event: UiEvent) -> bool {
    match event {
        UiEvent::Key { key, .. } => key == Key::Char('y'),
        UiEvent::Mouse { kind, column, row } => kind == MouseKind::LeftDown
            && geometry::covers_answer(layout.prompt, 13, column, row),
        UiEvent::Other => false,
    }
}

/// A transfer is confirmed by the answer yes alone, and that answer ends the preview.
pub proof fn lemma_only_yes_confirms(app: UiView, layout: FrameLayout, event: UiEvent)
    requires
        app.selects_a_row(),
        !app.confirmed,
    ensures
        events::next(app, layout, event).0.confirmed ==> says_yes(layout, event) && events::next(
            app,
            layout,
            event,
        ).1 == UiAction::Leave,
{
    lemma_moving_keeps_selection(app, events::PAGE_ROWS as nat);
}

}
