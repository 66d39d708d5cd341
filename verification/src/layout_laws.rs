//! Where things stand on the screen, in numbers of cells.

use vstd::prelude::*;
use crate::event_laws;
use crate::geometry;
use crate::geometry::{FrameLayout, LoadingLayout, Rect, TransferLayout};

verus! {

/// On a screen with at least twelve rows, the header has four, the footer three, and the body what is
/// between them; each is as wide as the screen.
pub proof fn lemma_rows_of_the_screen(layout: FrameLayout, area: Rect)
    requires
        layout.is_placed(area),
        event_laws::fits(area),
        area.height >= 12,
    ensures
        layout.header == (Rect { x: area.x, y: area.y, width: area.width, height: 4 }),
        layout.body == (Rect {
            x: area.x,
            y: (area.y + 4) as u16,
            width: area.width,
            height: (area.height - 7) as u16,
        }),
        layout.footer == (Rect {
            x: area.x,
            y: (area.y + area.height - 3) as u16,
            width: area.width,
            height: 3,
        }),
        layout.click_footer == layout.footer,
        layout.click_header.height == 3,
        layout.click_body.height == area.height - 6,
{
}

/// Left, middle and right of a strip: the middle has five cells, what is before it forty-six
/// hundredths of the strip, to the nearest cell, and what comes after it all the rest.
pub open spec fn are_columns(strip: Rect, left: Rect, middle: Rect, right: Rect) -> bool {
    &&& left.y == strip.y && middle.y == strip.y && right.y == strip.y
    &&& left.height == strip.height && middle.height == strip.height && right.height
        == strip.height
    &&& left.x == strip.x
    &&& middle.x == left.x + left.width
    &&& right.x == middle.x + middle.width
    &&& right.x + right.width == strip.x + strip.width
    &&& middle.width == 5
    &&& 46 * strip.width - 50 < 100 * left.width <= 46 * strip.width + 50
}

/// Header and body have the same columns: five cells in the middle for the boxes.
pub proof fn lemma_columns_of_the_screen(layout: FrameLayout, area: Rect)
    requires
        layout.is_placed(area),
        layout.is_aligned(area),
        event_laws::fits(area),
        area.width >= 10,
        area.height >= 12,
    ensures
        are_columns(layout.header, layout.source, layout.all_toggle, layout.destination),
        are_columns(layout.body, layout.input, layout.toggle, layout.output),
        layout.source.x == layout.input.x && layout.source.width == layout.input.width,
        layout.all_toggle.x == layout.toggle.x,
        layout.destination.x == layout.output.x && layout.destination.width == layout.output.width,
{
    lemma_rows_of_the_screen(layout, area);
}

/// On a screen with at least fifty-four columns the question has the last thirty-four of the footer,
/// and the counts what is before them.
pub proof fn lemma_question_at_the_right(layout: FrameLayout, area: Rect)
    requires
        layout.is_placed(area),
        layout.is_aligned(area),
        event_laws::fits(area),
        area.width >= 54,
        area.height >= 12,
    ensures
        layout.question == (Rect {
            x: (area.x + area.width - 34) as u16,
            y: (area.y + area.height - 3) as u16,
            width: 34,
            height: 3,
        }),
        layout.counts == (Rect {
            x: area.x,
            y: (area.y + area.height - 3) as u16,
            width: (area.width - 34) as u16,
            height: 3,
        }),
        layout.prompt == layout.question,
{
    lemma_rows_of_the_screen(layout, area);
}

/// A window is as large as asked, where the area has two cells more each way, and stands in its
/// middle: what is left over on the two sides differs by one cell at most.
pub proof fn lemma_window_in_the_middle(width: u16, height: u16, area: Rect)
    requires
        event_laws::fits(area),
        3 <= width,
        width + 2 <= area.width,
        3 <= height,
        height + 2 <= area.height,
    ensures
        ({
            let window = geometry::centered(width, height, area);
            let left = window.x - area.x;
            let right = area.width - width - left;
            let above = window.y - area.y;
            let below = area.height - height - above;
            &&& window.width == width && window.height == height
            &&& left <= right <= left + 1
            &&& above <= below <= above + 1
        }),
{
}

/// A window that would be too large gets what there is but two cells, and three at least.
pub proof fn lemma_window_too_large(width: u16, height: u16, area: Rect)
    requires
        width + 2 > area.width,
        height + 2 > area.height,
        width >= 3,
        height >= 3,
    ensures
        ({
            let window = geometry::centered(width, height, area);
            &&& area.width >= 5 ==> window.width == area.width - 2
            &&& area.width < 5 ==> window.width == 3
            &&& area.height >= 5 ==> window.height == area.height - 2
            &&& area.height < 5 ==> window.height == 3
        }),
{
}

/// The border of a window is one cell wide all around.
pub proof fn lemma_border_is_one_cell(area: Rect)
    requires
        event_laws::fits(area),
        area.width >= 2,
        area.height >= 2,
    ensures
        geometry::inside(area) == (Rect {
            x: (area.x + 1) as u16,
            y: (area.y + 1) as u16,
            width: (area.width - 2) as u16,
            height: (area.height - 2) as u16,
        }),
{
}

/// During work the window is four cells narrower than the screen, but seventy wide at least and no
/// wider than it may be, as far as there is room.
pub proof fn lemma_width_of_the_window(area: Rect, widest: u16, height: u16)
    requires
        widest >= 70,
    ensures
        ({
            let own = geometry::window(area, widest, height).width;
            &&& area.width >= widest + 4 ==> own == widest
            &&& 74 <= area.width < widest + 4 ==> own == area.width - 4
            &&& 72 <= area.width < 74 ==> own == 70
            &&& 5 <= area.width < 72 ==> own == area.width - 2
        }),
{
}

/// The window of a scan has its lines one below the other: three of text, the bar with three rows, and
/// the button; on a screen with room for it the window is ten rows high and at most a hundred and
/// forty cells wide.
pub proof fn lemma_lines_of_a_scan(layout: LoadingLayout, area: Rect)
    requires
        layout.splits(area),
        layout.is_placed(),
        event_laws::fits(area),
        area.height >= 12,
        area.width >= 5,
    ensures
        layout.modal.height == 10,
        area.width >= 144 ==> layout.modal.width == 140,
        layout.phase.y == layout.modal.y + 1 && layout.phase.height == 1,
        layout.phase_counter.y == layout.modal.y + 2 && layout.phase_counter.height == 1,
        layout.current.y == layout.modal.y + 3 && layout.current.height == 1,
        layout.bar.y == layout.modal.y + 4 && layout.bar.height == 3,
        layout.cancel == (Rect {
            x: (layout.modal.x + 1) as u16,
            y: (layout.modal.y + 7) as u16,
            width: (layout.modal.width - 2) as u16,
            height: 1,
        }),
{
    geometry::lemma_window_lies_on_screen(
        geometry::smaller(geometry::larger(geometry::minus(area.width, 4), 70), 140),
        geometry::smaller(10, geometry::minus(area.height, 2)),
        area,
    );
    let inner = geometry::inside(layout.modal);
    let lines = seq![
        layout.phase,
        layout.phase_counter,
        layout.current,
        layout.bar,
        layout.cancel,
        layout.rest,
    ];
    assert(lines == geometry::loading_rows(inner));
    assert(lines[0] == layout.phase && lines[1] == layout.phase_counter && lines[2]
        == layout.current && lines[3] == layout.bar && lines[4] == layout.cancel);
}

/// The window of a transfer has its lines one below the other: four of text, the bar with three rows,
/// and the button; on a screen with room for it the window is eleven rows high and at most a hundred
/// and fifty cells wide.
pub proof fn lemma_lines_of_a_transfer(layout: TransferLayout, area: Rect)
    requires
        layout.splits(area),
        layout.is_placed(),
        event_laws::fits(area),
        area.height >= 13,
        area.width >= 5,
    ensures
        layout.modal.height == 11,
        area.width >= 154 ==> layout.modal.width == 150,
        layout.phase.y == layout.modal.y + 1 && layout.phase.height == 1,
        layout.source.y == layout.modal.y + 2 && layout.source.height == 1,
        layout.destination.y == layout.modal.y + 3 && layout.destination.height == 1,
        layout.counters.y == layout.modal.y + 4 && layout.counters.height == 1,
        layout.bar.y == layout.modal.y + 5 && layout.bar.height == 3,
        layout.cancel == (Rect {
            x: (layout.modal.x + 1) as u16,
            y: (layout.modal.y + 8) as u16,
            width: (layout.modal.width - 2) as u16,
            height: 1,
        }),
{
    geometry::lemma_window_lies_on_screen(
        geometry::smaller(geometry::larger(geometry::minus(area.width, 4), 70), 150),
        geometry::smaller(11, geometry::minus(area.height, 2)),
        area,
    );
    let inner = geometry::inside(layout.modal);
    let lines = seq![
        layout.phase,
        layout.source,
        layout.destination,
        layout.counters,
        layout.bar,
        layout.cancel,
    ];
    assert(lines == geometry::transfer_rows(inner));
    assert(lines[0] == layout.phase && lines[1] == layout.source && lines[2]
        == layout.destination && lines[3] == layout.counters && lines[4] == layout.bar && lines[5]
        == layout.cancel);
}

}
