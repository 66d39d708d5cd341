//! Which rows of the preview are in view.

use vstd::prelude::*;
use crate::geometry;
use crate::geometry::{FrameLayout, Rect};
use crate::rows;
use crate::rows::{DisplayRow, RowView};
use crate::ui;
use crate::ui::{UiState, UiView};

verus! {

/// The rows in view.
#[derive(Debug)]
pub struct Viewport {
    pub rows: Vec<DisplayRow>,
    /// The line of the selected row, unless there is none.
    pub selected: Option<usize>,
    /// That line in the panes that begin with a heading of their own.
    pub selected_below_heading: Option<usize>,
    /// How many rows there are in all.
    pub row_count: usize,
    /// How many rows have room.
    pub height: usize,
}

/// What a [`Viewport`] holds.
#[verifier::ext_equal]
pub struct ViewportView {
    pub rows: Seq<RowView>,
    pub selected: Option<int>,
    pub selected_below_heading: Option<int>,
    pub row_count: nat,
    pub height: nat,
}

/// A number that may be missing.
pub open spec fn option_int(number: Option<usize>) -> Option<int> {
    match number {
        Some(number) => Some(number as int),
        None => None,
    }
}

impl View for Viewport {
    type V = ViewportView;

    open spec fn view(&self) -> ViewportView {
        ViewportView {
            rows: rows::row_views(self.rows@),
            selected: option_int(self.selected),
            selected_below_heading: option_int(self.selected_below_heading),
            row_count: self.row_count as nat,
            height: self.height as nat,
        }
    }
}

/// How many rows have room in a pane: all lines but its border and its heading.
pub open spec fn room(pane: Rect) -> nat {
    geometry::minus(pane.height, 3) as nat
}

/// The list is moved as little as brings the selected row into view.
pub open spec fn brought_into_view(app: UiView, height: nat) -> UiView {
    let app = ui::clamped(app);
    if app.selected < app.list_offset {
        UiView { list_offset: app.selected, ..app }
    } else if app.selected >= app.list_offset + height {
        UiView { list_offset: app.selected + 1 - height, ..app }
    } else {
        app
    }
}

/// The rows from `from` on, `height` at most.
pub open spec fn rows_in_view(shown: Seq<RowView>, from: int, height: nat) -> Seq<RowView> {
    if from >= shown.len() {
        Seq::empty()
    } else if from + height >= shown.len() {
        shown.skip(from)
    } else {
        shown.subrange(from, from + height)
    }
}

/// What is in view.
pub open spec fn in_view(app: UiView, height: nat) -> ViewportView {
    let visible = rows_in_view(app.rows(), app.list_offset, height);
    let line = if app.selected < app.list_offset {
        0
    } else {
        app.selected - app.list_offset
    };
    ViewportView {
        rows: visible,
        selected: if visible.len() > 0 {
            Some(line)
        } else {
            None
        },
        selected_below_heading: if visible.len() > 0 {
            Some(line + 1)
        } else {
            None
        },
        row_count: app.rows().len(),
        height,
    }
}

/// Copies the rows from `from` on, `height` at most.
fn copy_rows(all: &Vec<DisplayRow>, from: usize, height: usize) -> (result: Vec<DisplayRow>)
    ensures
        rows::row_views(result@) == rows_in_view(rows::row_views(all@), from as int, height as nat),
{
    let mut result: Vec<DisplayRow> = Vec::new();
    let length: usize = all.len();
    let end: usize = if from >= length {
        from
    } else if height >= length - from {
        length
    } else {
        from + height
    };
    let mut at: usize = from;
    assert(rows::row_views(result@) =~= Seq::<RowView>::empty());
    while at < end
        invariant
            from <= at <= end,
            from < end ==> end <= all@.len(),
            result@.len() == at - from,
            from < end ==> rows::row_views(result@) == rows::row_views(all@).subrange(
                from as int,
                at as int,
            ),
        decreases end - at,
    {
        let ghost earlier = result@;
        result.push(all[at].clone());
        assert(rows::row_views(result@) =~= rows::row_views(earlier).push(all@[at as int]@));
        at = at + 1;
        assert(rows::row_views(result@) =~= rows::row_views(all@).subrange(from as int, at as int));
    }
    assert(rows::row_views(result@) =~= rows_in_view(
        rows::row_views(all@),
        from as int,
        height as nat,
    ));
    result
}

/// Brings the selected row into view and says what is in view, or nothing where a pane has no room
/// for rows.
pub fn bring_into_view(app: &mut UiState, layout: &FrameLayout) -> (result: Option<Viewport>)
    ensures
        match result {
            Some(viewport) => {
                let height = room(layout.input);
                &&& height > 0
                &&& final(app)@ == brought_into_view(old(app)@, height)
                &&& viewport@ == in_view(final(app)@, height)
            },
            None => room(layout.input) == 0 && final(app)@ == old(app)@,
        },
{
    let height: usize = layout.input.height.saturating_sub(3) as usize;
    if height == 0 {
        return None;
    }
    ui::clamp_selected(app);
    if app.selected < app.list_offset {
        app.list_offset = app.selected;
    } else if app.selected - app.list_offset >= height {
        app.list_offset = app.selected - height + 1;
    }
    let all: Vec<DisplayRow> = ui::build_display_rows(app);
    let row_count: usize = all.len();
    assert(row_count == app@.rows().len());
    let visible: Vec<DisplayRow> = copy_rows(&all, app.list_offset, height);
    assert(visible@.len() == rows_in_view(app@.rows(), app.list_offset as int, height as nat).len());
    let line: usize = app.selected - app.list_offset;
    let shown: bool = visible.len() > 0;
    Some(
        Viewport {
            rows: visible,
            selected: if shown {
                Some(line)
            } else {
                None
            },
            selected_below_heading: if shown {
                Some(line + 1)
            } else {
                None
            },
            row_count,
            height,
        },
    )
}

// ---------------------------------------------------------------------------------------------
// Laws

/// The selected row is in view wherever there is a row and room for one.
pub proof fn lemma_selected_row_is_in_view(app: UiView, height: nat)
    requires
        height > 0,
        0 <= app.selected,
        0 <= app.list_offset,
        app.rows().len() > 0,
    ensures
        ({
            let after = brought_into_view(app, height);
            let view = in_view(after, height);
            &&& view.selected matches Some(line) && 0 <= line < view.rows.len() && view.rows[line]
                == after.rows()[after.selected]
            &&& view.rows.len() <= height
        }),
{
}

/// Bringing the selected row into view a second time changes nothing.
pub proof fn lemma_bringing_into_view_is_idempotent(app: UiView, height: nat)
    requires
        height > 0,
        0 <= app.selected,
        0 <= app.list_offset,
    ensures
        brought_into_view(brought_into_view(app, height), height) == brought_into_view(app, height),
        brought_into_view(app, height).selects_a_row(),
{
}

/// The panes have room for equally many rows, so that what the scrollbar goes by is what is in
/// view.
pub proof fn lemma_panes_have_equal_room(layout: FrameLayout, area: Rect)
    requires
        layout.is_aligned(area),
    ensures
        room(layout.input) == room(layout.output),
        room(layout.input) == room(layout.toggle),
{
}

}
