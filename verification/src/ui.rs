//! The preview of a plan: what is selected, expanded and switched off.

use std::collections::HashSet;
use vstd::prelude::*;
use crate::geometry::Rect;
use crate::model;
use crate::model::{MoveView, PlannedMove, Summary, TransferMode};
use crate::paths::{PathView, RomPath};
use crate::rows;
use crate::rows::{DisplayRow, RowView};
use crate::text;
use crate::text_set::TextSet;
use crate::transfer;
use crate::transfer::Fate;

verus! {

broadcast use vstd::std_specs::hash::group_hash_axioms;

/// What is shown.
pub struct AppView {
    pub source_root: RomPath,
    pub output_root: RomPath,
    pub plan: Vec<PlannedMove>,
    pub summary: Summary,
    pub transfer_mode: TransferMode,
}

/// What the user decided.
pub struct UiSelection {
    pub confirmed: bool,
    pub plan: Vec<PlannedMove>,
    pub disabled_plan_indices: HashSet<usize>,
}

/// The preview.
pub struct UiState {
    pub view: AppView,
    pub selected: usize,
    pub list_offset: usize,
    pub expanded_slugs: TextSet,
    pub expanded_games: TextSet,
    pub disabled_plan_indices: HashSet<usize>,
    pub confirmed_move: bool,
    pub frame_area: Rect,
    pub scrollbar_dragging: bool,
    pub output_horizontal_offset: usize,
}

/// How many of several moves are switched on.
#[derive(Debug, Clone, Copy, PartialEq, Eq, Structural)]
pub enum SelectionState {
    All,
    Part,
    Nothing,
}

/// What a [`UiState`] holds.
#[verifier::ext_equal]
pub struct UiView {
    pub source_root: PathView,
    pub output_root: PathView,
    pub plan: Seq<MoveView>,
    pub summary: Summary,
    pub transfer_mode: TransferMode,
    pub selected: int,
    pub list_offset: int,
    pub expanded_slugs: Set<Seq<char>>,
    pub expanded_games: Set<Seq<char>>,
    pub disabled: Set<usize>,
    pub confirmed: bool,
    pub frame_area: Rect,
    pub dragging: bool,
    pub output_offset: int,
}

impl View for UiState {
    type V = UiView;

    open spec fn view(&self) -> UiView {
        UiView {
            source_root: self.view.source_root@,
            output_root: self.view.output_root@,
            plan: model::plan_views(self.view.plan@),
            summary: self.view.summary,
            transfer_mode: self.view.transfer_mode,
            selected: self.selected as int,
            list_offset: self.list_offset as int,
            expanded_slugs: self.expanded_slugs@,
            expanded_games: self.expanded_games@,
            disabled: self.disabled_plan_indices@,
            confirmed: self.confirmed_move,
            frame_area: self.frame_area,
            dragging: self.scrollbar_dragging,
            output_offset: self.output_horizontal_offset as int,
        }
    }
}

impl UiView {
    /// The rows that are shown.
    pub open spec fn rows(self) -> Seq<RowView> {
        rows::display_rows(
            self.plan,
            self.output_root.parts,
            self.expanded_slugs,
            self.expanded_games,
        )
    }

    /// The selection is on a row, or at the beginning where there is none.
    pub open spec fn selects_a_row(self) -> bool {
        0 <= self.selected < self.rows().len() || (self.selected == 0 && self.rows().len() == 0)
    }

    /// What is switched off are moves of the plan.
    pub open spec fn switches_moves(self) -> bool {
        forall|index: usize| #[trigger]
            self.disabled.contains(index) ==> (index as int) < self.plan.len()
    }
}

// ---------------------------------------------------------------------------------------------
// Moving about

/// The selection goes down a row, if there is one.
pub open spec fn moved_down(app: UiView) -> UiView {
    if app.selected + 1 < app.rows().len() {
        UiView { selected: app.selected + 1, ..app }
    } else {
        app
    }
}

/// The selection goes up a row, if there is one.
pub open spec fn moved_up(app: UiView) -> UiView {
    if app.selected > 0 {
        UiView { selected: app.selected - 1, ..app }
    } else {
        app
    }
}

/// The selection goes down `steps` rows, as far as there are.
pub open spec fn moved_down_by(app: UiView, steps: nat) -> UiView
    decreases steps,
{
    if steps == 0 {
        app
    } else {
        moved_down(moved_down_by(app, (steps - 1) as nat))
    }
}

/// The selection goes up `steps` rows, as far as there are.
pub open spec fn moved_up_by(app: UiView, steps: nat) -> UiView
    decreases steps,
{
    if steps == 0 {
        app
    } else {
        moved_up(moved_up_by(app, (steps - 1) as nat))
    }
}

/// The selection is brought back to the last row where it is past it.
pub open spec fn clamped(app: UiView) -> UiView {
    if app.rows().len() == 0 {
        UiView { selected: 0, list_offset: 0, ..app }
    } else if app.selected >= app.rows().len() {
        UiView { selected: app.rows().len() - 1, ..app }
    } else {
        app
    }
}

/// The output pane goes to the left.
pub open spec fn scrolled_left(app: UiView, amount: int) -> UiView {
    UiView {
        output_offset: if app.output_offset < amount {
            0
        } else {
            app.output_offset - amount
        },
        ..app
    }
}

/// The output pane goes to the right.
pub open spec fn scrolled_right(app: UiView, amount: int) -> UiView {
    UiView {
        output_offset: if app.output_offset + amount > usize::MAX {
            usize::MAX as int
        } else {
            app.output_offset + amount
        },
        ..app
    }
}

// ---------------------------------------------------------------------------------------------
// Expanding

/// A header is expanded or collapsed; other rows cannot be.
pub open spec fn set_expanded(app: UiView, row: RowView, expanded: bool) -> UiView {
    match row {
        RowView::SlugHeader { slug, .. } => UiView {
            expanded_slugs: if expanded {
                app.expanded_slugs.insert(slug)
            } else {
                app.expanded_slugs.remove(slug)
            },
            ..app
        },
        RowView::GameHeader { slug, game, .. } => UiView {
            expanded_games: if expanded {
                app.expanded_games.insert(rows::key(slug, game))
            } else {
                app.expanded_games.remove(rows::key(slug, game))
            },
            ..app
        },
        RowView::Item { .. } => app,
    }
}

/// A row is an expanded header.
pub open spec fn is_expanded(row: RowView) -> bool {
    match row {
        RowView::SlugHeader { expanded, .. } => expanded,
        RowView::GameHeader { expanded, .. } => expanded,
        RowView::Item { .. } => false,
    }
}

/// A header is expanded if it is collapsed, and collapsed if it is expanded.
pub open spec fn flipped(app: UiView, row: RowView) -> UiView {
    set_expanded(app, row, !is_expanded(row))
}

/// The selected header is flipped.
pub open spec fn section_toggled(app: UiView) -> UiView {
    if 0 <= app.selected < app.rows().len() {
        clamped(flipped(app, app.rows()[app.selected]))
    } else {
        app
    }
}

/// The selected header is expanded.
pub open spec fn section_expanded(app: UiView) -> UiView {
    if 0 <= app.selected < app.rows().len() {
        set_expanded(app, app.rows()[app.selected], true)
    } else {
        app
    }
}

/// The selected header is collapsed.
pub open spec fn section_collapsed(app: UiView) -> UiView {
    if 0 <= app.selected < app.rows().len() {
        clamped(set_expanded(app, app.rows()[app.selected], false))
    } else {
        app
    }
}

// ---------------------------------------------------------------------------------------------
// Switching moves on and off

/// A move is switched on.
pub open spec fn is_enabled(app: UiView, index: int) -> bool {
    !app.disabled.contains(index as usize)
}

/// The moves that a row stands for. The header of files without a platform stands for none.
pub open spec fn stands_for(app: UiView, row: RowView, index: int) -> bool {
    match row {
        RowView::Item { plan_index } => index == plan_index,
        RowView::SlugHeader { slug, .. } => 0 <= index < app.plan.len()
            && app.plan[index].platform_slug == Some(slug),
        RowView::GameHeader { slug, game, .. } => 0 <= index < app.plan.len()
            && app.plan[index].platform_slug == Some(slug) && rows::game_name(
            app.plan[index],
            app.output_root.parts,
        ) == game,
    }
}

/// All moves of a kind are switched on.
pub open spec fn all_enabled(app: UiView, which: spec_fn(int) -> bool) -> bool {
    forall|index: int| #[trigger] which(index) ==> is_enabled(app, index)
}

/// The moves of a kind are switched on or off, and no others.
pub open spec fn set_enabled(app: UiView, which: spec_fn(int) -> bool, enabled: bool) -> UiView {
    UiView {
        disabled: Set::new(
            |index: usize|
                if which(index as int) {
                    !enabled
                } else {
                    app.disabled.contains(index)
                },
        ),
        ..app
    }
}

/// The moves of a kind are switched off if all are on, and on otherwise.
pub open spec fn toggled(app: UiView, which: spec_fn(int) -> bool) -> UiView {
    set_enabled(app, which, !all_enabled(app, which))
}

/// The moves that a row stands for are switched off if all are on, and on otherwise.
pub open spec fn row_toggled(app: UiView, row: RowView) -> UiView {
    toggled(app, |index: int| stands_for(app, row, index))
}

/// All moves are switched off if all are on, and on otherwise.
pub open spec fn all_toggled(app: UiView) -> UiView {
    toggled(app, |index: int| 0 <= index < app.plan.len())
}

/// The moves that the selected row stands for are switched.
pub open spec fn selected_toggled(app: UiView) -> UiView {
    if 0 <= app.selected < app.rows().len() {
        row_toggled(app, app.rows()[app.selected])
    } else {
        app
    }
}

/// How many moves of a kind are switched on: all, some or none. Of no moves none are.
pub open spec fn selection_state(app: UiView, which: spec_fn(int) -> bool) -> SelectionState {
    if forall|index: int| #[trigger] which(index) ==> !is_enabled(app, index) {
        SelectionState::Nothing
    } else if all_enabled(app, which) {
        SelectionState::All
    } else {
        SelectionState::Part
    }
}

impl UiState {
    /// A preview with nothing expanded or switched off.
    pub fn new(view: AppView) -> (result: UiState)
        ensures
            result@ == (UiView {
                source_root: view.source_root@,
                output_root: view.output_root@,
                plan: model::plan_views(view.plan@),
                summary: view.summary,
                transfer_mode: view.transfer_mode,
                selected: 0,
                list_offset: 0,
                expanded_slugs: Set::empty(),
                expanded_games: Set::empty(),
                disabled: Set::empty(),
                confirmed: false,
                frame_area: Rect { x: 0, y: 0, width: 0, height: 0 },
                dragging: false,
                output_offset: 0,
            }),
    {
        UiState {
            view,
            selected: 0,
            list_offset: 0,
            expanded_slugs: TextSet::new(),
            expanded_games: TextSet::new(),
            disabled_plan_indices: HashSet::new(),
            confirmed_move: false,
            frame_area: Rect { x: 0, y: 0, width: 0, height: 0 },
            scrollbar_dragging: false,
            output_horizontal_offset: 0,
        }
    }

    /// What the user decided.
    pub fn into_selection(self) -> (result: UiSelection)
        ensures
            result.confirmed == self@.confirmed,
            model::plan_views(result.plan@) == self@.plan,
            result.disabled_plan_indices@ == self@.disabled,
    {
        UiSelection {
            confirmed: self.confirmed_move,
            plan: self.view.plan,
            disabled_plan_indices: self.disabled_plan_indices,
        }
    }
}

/// The rows that are shown.
pub fn build_display_rows(app: &UiState) -> (result: Vec<DisplayRow>)
    ensures
        rows::row_views(result@) == app@.rows(),
{
    rows::build_rows(
        &app.view.plan,
        &app.view.output_root,
        &app.expanded_slugs,
        &app.expanded_games,
    )
}

/// Moves the selection down a row.
pub fn move_down(app: &mut UiState)
    ensures
        final(app)@ == moved_down(old(app)@),
{
    let rows: Vec<DisplayRow> = build_display_rows(app);
    assert(rows@.len() == app@.rows().len());
    if rows.len() > 0 && app.selected < rows.len() - 1 {
        app.selected = app.selected + 1;
    }
}

/// Moves the selection up a row.
pub fn move_up(app: &mut UiState)
    ensures
        final(app)@ == moved_up(old(app)@),
{
    if app.selected > 0 {
        app.selected = app.selected - 1;
    }
}

/// Moves the selection down `steps` rows.
pub fn move_down_by(app: &mut UiState, steps: usize)
    ensures
        final(app)@ == moved_down_by(old(app)@, steps as nat),
{
    let ghost before = app@;
    let mut done: usize = 0;
    while done < steps
        invariant
            done <= steps,
            app@ == moved_down_by(before, done as nat),
        decreases steps - done,
    {
        move_down(app);
        done = done + 1;
    }
}

/// Moves the selection up `steps` rows.
pub fn move_up_by(app: &mut UiState, steps: usize)
    ensures
        final(app)@ == moved_up_by(old(app)@, steps as nat),
{
    let ghost before = app@;
    let mut done: usize = 0;
    while done < steps
        invariant
            done <= steps,
            app@ == moved_up_by(before, done as nat),
        decreases steps - done,
    {
        move_up(app);
        done = done + 1;
    }
}

/// Brings the selection back to the last row where it is past it.
pub fn clamp_selected(app: &mut UiState)
    ensures
        final(app)@ == clamped(old(app)@),
{
    let rows: Vec<DisplayRow> = build_display_rows(app);
    assert(rows@.len() == app@.rows().len());
    if rows.len() == 0 {
        app.selected = 0;
        app.list_offset = 0;
        return;
    }
    if app.selected >= rows.len() {
        app.selected = rows.len() - 1;
    }
}

/// Moves the output pane to the left.
pub fn scroll_output_left(app: &mut UiState, amount: usize)
    ensures
        final(app)@ == scrolled_left(old(app)@, amount as int),
{
    app.output_horizontal_offset = app.output_horizontal_offset.saturating_sub(amount);
}

/// Moves the output pane to the right.
pub fn scroll_output_right(app: &mut UiState, amount: usize)
    ensures
        final(app)@ == scrolled_right(old(app)@, amount as int),
{
    app.output_horizontal_offset = app.output_horizontal_offset.saturating_add(amount);
}

/// Expands or collapses a header.
fn expand(app: &mut UiState, row: &DisplayRow, expanded: bool)
    ensures
        final(app)@ == set_expanded(old(app)@, row@, expanded),
{
    match row {
        DisplayRow::SlugHeader { slug, .. } => {
            if expanded {
                app.expanded_slugs.insert(slug.clone());
            } else {
                app.expanded_slugs.remove(slug.as_str());
            }
        },
        DisplayRow::GameHeader { slug, game, .. } => {
            let key: String = rows::game_key(slug.as_str(), game.as_str());
            if expanded {
                app.expanded_games.insert(key);
            } else {
                app.expanded_games.remove(key.as_str());
            }
        },
        DisplayRow::Item { .. } => {},
    }
}

/// Whether a row is an expanded header.
fn row_is_expanded(row: &DisplayRow) -> (result: bool)
    ensures
        result == is_expanded(row@),
{
    match row {
        DisplayRow::SlugHeader { expanded, .. } => *expanded,
        DisplayRow::GameHeader { expanded, .. } => *expanded,
        DisplayRow::Item { .. } => false,
    }
}

/// Flips a header.
pub fn flip_section(app: &mut UiState, row: &DisplayRow)
    ensures
        final(app)@ == flipped(old(app)@, row@),
{
    let expanded: bool = row_is_expanded(row);
    expand(app, row, !expanded);
}

/// Flips the selected header.
pub fn toggle_section(app: &mut UiState)
    ensures
        final(app)@ == section_toggled(old(app)@),
{
    let rows: Vec<DisplayRow> = build_display_rows(app);
    assert(rows@.len() == app@.rows().len());
    if app.selected >= rows.len() {
        return;
    }
    assert(app@.rows()[app.selected as int] == rows@[app.selected as int]@);
    flip_section(app, &rows[app.selected]);
    clamp_selected(app);
}

/// Expands the selected header.
pub fn expand_section(app: &mut UiState)
    ensures
        final(app)@ == section_expanded(old(app)@),
{
    let rows: Vec<DisplayRow> = build_display_rows(app);
    assert(rows@.len() == app@.rows().len());
    if app.selected >= rows.len() {
        return;
    }
    assert(app@.rows()[app.selected as int] == rows@[app.selected as int]@);
    expand(app, &rows[app.selected], true);
}

/// Collapses the selected header.
pub fn collapse_section(app: &mut UiState)
    ensures
        final(app)@ == section_collapsed(old(app)@),
{
    let rows: Vec<DisplayRow> = build_display_rows(app);
    assert(rows@.len() == app@.rows().len());
    if app.selected >= rows.len() {
        return;
    }
    assert(app@.rows()[app.selected as int] == rows@[app.selected as int]@);
    expand(app, &rows[app.selected], false);
    clamp_selected(app);
}

/// The numbers of a list.
pub open spec fn listed(indices: Seq<usize>) -> spec_fn(int) -> bool {
    |index: int| exists|k: int| 0 <= k < indices.len() && #[trigger] indices[k] == index
}

/// Numbers in ascending order.
pub open spec fn increasing(indices: Seq<usize>) -> bool {
    forall|one: int, other: int|
        0 <= one < other < indices.len() ==> #[trigger] indices[one] < #[trigger] indices[other]
}

/// Whether two kinds of moves are the same.
pub open spec fn same_moves(one: spec_fn(int) -> bool, other: spec_fn(int) -> bool) -> bool {
    forall|index: int| #[trigger] one(index) == #[trigger] other(index)
}

/// Switching moves goes by which they are, not by how they are told.
pub proof fn lemma_same_moves(
    app: UiView,
    one: spec_fn(int) -> bool,
    other: spec_fn(int) -> bool,
)
    requires
        same_moves(one, other),
    ensures
        all_enabled(app, one) == all_enabled(app, other),
        forall|enabled: bool| #[trigger]
            set_enabled(app, one, enabled) == set_enabled(app, other, enabled),
        toggled(app, one) == toggled(app, other),
        selection_state(app, one) == selection_state(app, other),
{
    assert forall|index: int| #[trigger] one(index) implies other(index) by {}
    assert forall|index: int| #[trigger] other(index) implies one(index) by {}
    assert forall|enabled: bool| #[trigger]
        set_enabled(app, one, enabled) == set_enabled(app, other, enabled) by {
        assert forall|index: usize|
            set_enabled(app, one, enabled).disabled.contains(index) == set_enabled(
                app,
                other,
                enabled,
            ).disabled.contains(index) by {
            assert(one(index as int) == other(index as int));
        }
        assert(set_enabled(app, one, enabled).disabled =~= set_enabled(
            app,
            other,
            enabled,
        ).disabled);
    }
}

/// Whether a move is switched on.
pub fn is_item_enabled(app: &UiState, plan_index: usize) -> (result: bool)
    ensures
        result == is_enabled(app@, plan_index as int),
{
    !app.disabled_plan_indices.contains(&plan_index)
}

/// Switches a move off if it is on, and on otherwise.
pub fn toggle_item_enabled(app: &mut UiState, plan_index: usize)
    ensures
        final(app)@ == row_toggled(old(app)@, RowView::Item { plan_index: plan_index as int }),
{
    let ghost before = app@;
    let ghost which = |index: int|
        stands_for(before, RowView::Item { plan_index: plan_index as int }, index);
    proof {
        assert(which(plan_index as int));
        assert(all_enabled(before, which) == is_enabled(before, plan_index as int));
    }
    if app.disabled_plan_indices.contains(&plan_index) {
        app.disabled_plan_indices.remove(&plan_index);
    } else {
        app.disabled_plan_indices.insert(plan_index);
    }
    assert(app@.disabled =~= toggled(before, which).disabled);
}

/// Switches moves on or off.
pub fn set_indices_enabled(app: &mut UiState, indices: &Vec<usize>, enabled: bool)
    ensures
        final(app)@ == set_enabled(old(app)@, listed(indices@), enabled),
{
    let ghost before = app@;
    let mut at: usize = 0;
    assert(app@.disabled =~= set_enabled(before, listed(indices@.take(0)), enabled).disabled);
    while at < indices.len()
        invariant
            at <= indices@.len(),
            app@ == set_enabled(before, listed(indices@.take(at as int)), enabled),
        decreases indices@.len() - at,
    {
        let index: usize = indices[at];
        let ghost passed = listed(indices@.take(at as int));
        let ghost now = listed(indices@.take(at + 1));
        proof {
            assert forall|other: int| #[trigger] now(other) == (passed(other) || other == index) by {
                if passed(other) {
                    let k = choose|k: int|
                        0 <= k < at && #[trigger] indices@.take(at as int)[k] == other;
                    assert(indices@.take(at + 1)[k] == other);
                }
                if now(other) {
                    let k = choose|k: int|
                        0 <= k < at + 1 && #[trigger] indices@.take(at + 1)[k] == other;
                    if k < at {
                        assert(indices@.take(at as int)[k] == other);
                    }
                }
                assert(indices@.take(at + 1)[at as int] == index);
            }
        }
        if enabled {
            app.disabled_plan_indices.remove(&index);
        } else {
            app.disabled_plan_indices.insert(index);
        }
        assert forall|other: usize|
            app@.disabled.contains(other) == set_enabled(before, now, enabled).disabled.contains(
                other,
            ) by {
            assert(now(other as int) == (passed(other as int) || other as int == index));
        }
        assert(app@.disabled =~= set_enabled(before, now, enabled).disabled);
        at = at + 1;
    }
    assert(indices@.take(indices@.len() as int) =~= indices@);
}

/// Whether all of these moves are switched on.
fn are_all_enabled(app: &UiState, indices: &Vec<usize>) -> (result: bool)
    ensures
        result == all_enabled(app@, listed(indices@)),
{
    let ghost which = listed(indices@);
    let mut at: usize = 0;
    while at < indices.len()
        invariant
            at <= indices@.len(),
            which == listed(indices@),
            forall|k: int| 0 <= k < at ==> is_enabled(app@, #[trigger] indices@[k] as int),
        decreases indices@.len() - at,
    {
        if !is_item_enabled(app, indices[at]) {
            assert(which(indices@[at as int] as int));
            return false;
        }
        at = at + 1;
    }
    true
}

/// The moves that are listed under a platform.
pub fn plan_indices_for_slug(app: &UiState, slug: &str) -> (result: Vec<usize>)
    ensures
        increasing(result@),
        forall|index: int| #[trigger]
            listed(result@)(index) <==> 0 <= index < app@.plan.len()
                && app@.plan[index].platform_slug == Some(slug@),
{
    let mut result: Vec<usize> = Vec::new();
    let mut at: usize = 0;
    while at < app.view.plan.len()
        invariant
            at <= app.view.plan@.len(),
            increasing(result@),
            forall|k: int| 0 <= k < result@.len() ==> #[trigger] result@[k] < at,
            forall|index: int| #[trigger]
                listed(result@)(index) <==> 0 <= index < at && app@.plan[index].platform_slug
                    == Some(slug@),
        decreases app.view.plan@.len() - at,
    {
        let ghost earlier = result@;
        assert(app@.plan[at as int] == app.view.plan@[at as int]@);
        let matches: bool = match &app.view.plan[at].platform_slug {
            Some(own) => text::same(own.as_str(), slug),
            None => false,
        };
        if matches {
            result.push(at);
            proof {
                lemma_listed_push(earlier, at);
            }
        }
        at = at + 1;
    }
    result
}

/// A list of numbers with one more.
proof fn lemma_listed_push(indices: Seq<usize>, added: usize)
    ensures
        forall|index: int| #[trigger]
            listed(indices.push(added))(index) == (listed(indices)(index) || index == added),
{
    assert forall|index: int| #[trigger]
        listed(indices.push(added))(index) == (listed(indices)(index) || index == added) by {
        if listed(indices)(index) {
            let k = choose|k: int| 0 <= k < indices.len() && #[trigger] indices[k] == index;
            assert(indices.push(added)[k] == index);
        }
        if listed(indices.push(added))(index) {
            let k = choose|k: int|
                0 <= k < indices.len() + 1 && #[trigger] indices.push(added)[k] == index;
            if k < indices.len() {
                assert(indices[k] == index);
            }
        }
        assert(indices.push(added)[indices.len() as int] == added);
    }
}

/// The moves that are listed under a game of a platform.
pub fn plan_indices_for_game(app: &UiState, slug: &str, game: &str) -> (result: Vec<usize>)
    ensures
        increasing(result@),
        forall|index: int| #[trigger]
            listed(result@)(index) <==> 0 <= index < app@.plan.len()
                && app@.plan[index].platform_slug == Some(slug@) && rows::game_name(
                app@.plan[index],
                app@.output_root.parts,
            ) == game@,
{
    let mut result: Vec<usize> = Vec::new();
    let mut at: usize = 0;
    while at < app.view.plan.len()
        invariant
            at <= app.view.plan@.len(),
            increasing(result@),
            forall|k: int| 0 <= k < result@.len() ==> #[trigger] result@[k] < at,
            forall|index: int| #[trigger]
                listed(result@)(index) <==> 0 <= index < at && app@.plan[index].platform_slug
                    == Some(slug@) && rows::game_name(
                    app@.plan[index],
                    app@.output_root.parts,
                ) == game@,
        decreases app.view.plan@.len() - at,
    {
        let ghost earlier = result@;
        assert(app@.plan[at as int] == app.view.plan@[at as int]@);
        let matches: bool = match &app.view.plan[at].platform_slug {
            Some(own) => text::same(own.as_str(), slug) && text::same(
                rows::infer_game_name(&app.view.plan[at], &app.view.output_root).as_str(),
                game,
            ),
            None => false,
        };
        if matches {
            result.push(at);
            proof {
                lemma_listed_push(earlier, at);
            }
        }
        at = at + 1;
    }
    result
}

/// The moves that a row stands for.
fn plan_indices_for_row(app: &UiState, row: &DisplayRow) -> (result: Vec<usize>)
    ensures
        same_moves(listed(result@), |index: int| stands_for(app@, row@, index)),
{
    match row {
        DisplayRow::Item { plan_index } => {
            let mut result: Vec<usize> = Vec::new();
            let ghost earlier = result@;
            result.push(*plan_index);
            proof {
                lemma_listed_push(earlier, *plan_index);
            }
            result
        },
        DisplayRow::SlugHeader { slug, .. } => plan_indices_for_slug(app, slug.as_str()),
        DisplayRow::GameHeader { slug, game, .. } => plan_indices_for_game(
            app,
            slug.as_str(),
            game.as_str(),
        ),
    }
}

/// Switches the moves that a row stands for off if all are on, and on otherwise.
pub fn toggle_row_enabled(app: &mut UiState, row: &DisplayRow)
    ensures
        final(app)@ == row_toggled(old(app)@, row@),
{
    let indices: Vec<usize> = plan_indices_for_row(app, row);
    proof {
        lemma_same_moves(app@, listed(indices@), |index: int| stands_for(app@, row@, index));
    }
    let should_enable: bool = !are_all_enabled(app, &indices);
    set_indices_enabled(app, &indices, should_enable);
}

/// Switches the moves that the selected row stands for.
pub fn toggle_selected_row_enabled(app: &mut UiState)
    ensures
        final(app)@ == selected_toggled(old(app)@),
{
    let rows: Vec<DisplayRow> = build_display_rows(app);
    assert(rows@.len() == app@.rows().len());
    if app.selected >= rows.len() {
        return;
    }
    assert(app@.rows()[app.selected as int] == rows@[app.selected as int]@);
    toggle_row_enabled(app, &rows[app.selected]);
}

/// The numbers of all moves.
fn all_indices(count: usize) -> (result: Vec<usize>)
    ensures
        same_moves(listed(result@), |index: int| 0 <= index < count),
{
    let mut result: Vec<usize> = Vec::new();
    let mut at: usize = 0;
    while at < count
        invariant
            at <= count,
            forall|index: int| #[trigger] listed(result@)(index) <==> 0 <= index < at,
        decreases count - at,
    {
        let ghost earlier = result@;
        result.push(at);
        proof {
            lemma_listed_push(earlier, at);
        }
        at = at + 1;
    }
    result
}

/// Switches all moves off if all are on, and on otherwise.
pub fn toggle_all_enabled(app: &mut UiState)
    ensures
        final(app)@ == all_toggled(old(app)@),
{
    let indices: Vec<usize> = all_indices(app.view.plan.len());
    proof {
        lemma_same_moves(app@, listed(indices@), |index: int| 0 <= index < app@.plan.len());
    }
    let should_enable: bool = !are_all_enabled(app, &indices);
    set_indices_enabled(app, &indices, should_enable);
}

/// How many of these moves are switched on.
pub fn selection_state_for_indices(app: &UiState, indices: &Vec<usize>) -> (result: SelectionState)
    ensures
        result == selection_state(app@, listed(indices@)),
{
    let ghost which = listed(indices@);
    let mut some_on: bool = false;
    let mut some_off: bool = false;
    let mut at: usize = 0;
    while at < indices.len()
        invariant
            at <= indices@.len(),
            some_on == exists|k: int|
                0 <= k < at && is_enabled(app@, #[trigger] indices@[k] as int),
            some_off == exists|k: int|
                0 <= k < at && !is_enabled(app@, #[trigger] indices@[k] as int),
        decreases indices@.len() - at,
    {
        if is_item_enabled(app, indices[at]) {
            some_on = true;
            assert(is_enabled(app@, indices@[at as int] as int));
        } else {
            some_off = true;
            assert(!is_enabled(app@, indices@[at as int] as int));
        }
        at = at + 1;
    }
    proof {
        if some_on {
            let k = choose|k: int|
                0 <= k < indices@.len() && is_enabled(app@, #[trigger] indices@[k] as int);
            assert(which(indices@[k] as int));
        }
        if some_off {
            let k = choose|k: int|
                0 <= k < indices@.len() && !is_enabled(app@, #[trigger] indices@[k] as int);
            assert(which(indices@[k] as int));
        }
    }
    if !some_on {
        SelectionState::Nothing
    } else if !some_off {
        SelectionState::All
    } else {
        SelectionState::Part
    }
}

/// How many of the moves that a row stands for are switched on.
pub fn selection_state_for_row(app: &UiState, row: &DisplayRow) -> (result: SelectionState)
    ensures
        result == selection_state(app@, |index: int| stands_for(app@, row@, index)),
{
    let indices: Vec<usize> = plan_indices_for_row(app, row);
    proof {
        lemma_same_moves(app@, listed(indices@), |index: int| stands_for(app@, row@, index));
    }
    selection_state_for_indices(app, &indices)
}

/// How many of all moves are switched on.
pub fn selection_state_for_all(app: &UiState) -> (result: SelectionState)
    ensures
        result == selection_state(app@, |index: int| 0 <= index < app@.plan.len()),
{
    let indices: Vec<usize> = all_indices(app.view.plan.len());
    proof {
        lemma_same_moves(app@, listed(indices@), |index: int| 0 <= index < app@.plan.len());
    }
    selection_state_for_indices(app, &indices)
}

/// How many moves are ready, and how many are passed over for want of a destination, for a conflict
/// and because they are switched off.
pub fn transfer_sanity_counts(app: &UiState) -> (result: (usize, usize, usize, usize))
    ensures
        ({
            let count = app@.plan.len();
            &&& result.0 == transfer::fated(app@.plan, app@.disabled, Fate::Ready, count)
            &&& result.1 == transfer::fated(app@.plan, app@.disabled, Fate::Unclassified, count)
            &&& result.2 == transfer::fated(app@.plan, app@.disabled, Fate::Conflict, count)
            &&& result.3 == transfer::fated(app@.plan, app@.disabled, Fate::Disabled, count)
        }),
{
    let ghost plan = app@.plan;
    let ghost disabled = app@.disabled;
    let mut ready: usize = 0;
    let mut unclassified: usize = 0;
    let mut conflicts: usize = 0;
    let mut switched_off: usize = 0;
    let mut at: usize = 0;
    while at < app.view.plan.len()
        invariant
            at <= app.view.plan@.len(),
            plan == app@.plan,
            disabled == app@.disabled,
            ready <= at && unclassified <= at && conflicts <= at && switched_off <= at,
            ready == transfer::fated(plan, disabled, Fate::Ready, at as nat),
            unclassified == transfer::fated(plan, disabled, Fate::Unclassified, at as nat),
            conflicts == transfer::fated(plan, disabled, Fate::Conflict, at as nat),
            switched_off == transfer::fated(plan, disabled, Fate::Disabled, at as nat),
        decreases app.view.plan@.len() - at,
    {
        assert(plan[at as int] == app.view.plan@[at as int]@);
        match transfer::fate_of(&app.view.plan[at], app.disabled_plan_indices.contains(&at)) {
            Fate::Disabled => {
                switched_off = switched_off + 1;
            },
            Fate::Unclassified => {
                unclassified = unclassified + 1;
            },
            Fate::Conflict => {
                conflicts = conflicts + 1;
            },
            Fate::Ready => {
                ready = ready + 1;
            },
        }
        at = at + 1;
    }
    (ready, unclassified, conflicts, switched_off)
}

}
