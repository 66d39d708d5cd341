//! Where things stand on the screen, and what a click hits.

use ratatui::layout;
use vstd::prelude::*;

verus! {

/// A rectangle of screen cells.
#[derive(Debug, Clone, Copy, PartialEq, Eq, Structural)]
pub struct Rect {
    pub x: u16,
    pub y: u16,
    pub width: u16,
    pub height: u16,
}

/// The direction in which an area is split.
#[derive(Debug, Clone, Copy, PartialEq, Eq, Structural)]
pub enum Direction {
    Horizontal,
    Vertical,
}

/// How large a part of an area is to be.
#[derive(Debug, Clone, Copy, PartialEq, Eq, Structural)]
pub enum Constraint {
    /// Exactly so many cells.
    Length(u16),
    /// At least so many cells.
    Min(u16),
    /// A share of the area.
    Percentage(u16),
}

/// The areas of the preview screen.
#[derive(Debug, Clone, Copy, PartialEq, Eq, Structural)]
pub struct FrameLayout {
    pub header: Rect,
    pub body: Rect,
    pub footer: Rect,
    /// The parts of the header.
    pub source: Rect,
    pub all_toggle: Rect,
    pub destination: Rect,
    /// The panes of the body.
    pub input: Rect,
    pub toggle: Rect,
    pub output: Rect,
    /// The parts of the footer.
    pub counts: Rect,
    pub question: Rect,
    /// The split of the screen that clicks on the answers go by.
    pub click_header: Rect,
    pub click_body: Rect,
    pub click_footer: Rect,
    pub click_counts: Rect,
    pub prompt: Rect,
}

/// The areas of the window that is shown during a scan.
#[derive(Debug, Clone, Copy, PartialEq, Eq, Structural)]
pub struct LoadingLayout {
    pub modal: Rect,
    pub phase: Rect,
    pub phase_counter: Rect,
    pub current: Rect,
    pub bar: Rect,
    pub cancel: Rect,
    pub rest: Rect,
}

/// The areas of the window that is shown during a transfer.
#[derive(Debug, Clone, Copy, PartialEq, Eq, Structural)]
pub struct TransferLayout {
    pub modal: Rect,
    pub phase: Rect,
    pub source: Rect,
    pub destination: Rect,
    pub counters: Rect,
    pub bar: Rect,
    pub cancel: Rect,
}

/// The panes of the body.
#[derive(Debug, Clone, Copy, PartialEq, Eq, Structural)]
pub enum Pane {
    Input,
    Output,
    Toggle,
}

/// What a click on the column of the scrollbar asks for.
#[derive(Debug, Clone, Copy, PartialEq, Eq, Structural)]
pub enum ScrollHit {
    /// Not on the scrollbar.
    Miss,
    /// All rows are in view: the list goes to its beginning.
    Top,
    /// The list goes to the share `local_y / track` of `max_offset`.
    Share { local_y: u16, track: u16, max_offset: usize },
}

// ---------------------------------------------------------------------------------------------
// Arithmetic on cells

/// A sum of cell numbers, which stops at the largest.
pub open spec fn plus(a: u16, b: u16) -> u16 {
    if a + b > u16::MAX {
        u16::MAX
    } else {
        (a + b) as u16
    }
}

/// A difference of cell numbers, which stops at zero.
pub open spec fn minus(a: u16, b: u16) -> u16 {
    if a < b {
        0
    } else {
        (a - b) as u16
    }
}

/// The smaller of two cell numbers.
pub open spec fn smaller(a: u16, b: u16) -> u16 {
    if a <= b {
        a
    } else {
        b
    }
}

/// The larger of two cell numbers.
pub open spec fn larger(a: u16, b: u16) -> u16 {
    if a <= b {
        b
    } else {
        a
    }
}

fn min_of(a: u16, b: u16) -> (result: u16)
    ensures
        result == smaller(a, b),
{
    if a <= b {
        a
    } else {
        b
    }
}

fn max_of(a: u16, b: u16) -> (result: u16)
    ensures
        result == larger(a, b),
{
    if a <= b {
        b
    } else {
        a
    }
}

// ---------------------------------------------------------------------------------------------
// Splitting areas

/// `chunks` is a way in which `ratatui::layout::Layout::split` may split `area`.
///
/// The solver behind it walks hash maps that are seeded anew in each process, so that one request
/// may have more than one outcome; this says that `chunks` is one of them.
pub uninterp spec fn split_outcome(
    direction: Direction,
    constraints: Seq<Constraint>,
    area: Rect,
    chunks: Seq<Rect>,
) -> bool;

/// A rectangle lies in another.
pub open spec fn lies_in(part: Rect, whole: Rect) -> bool {
    &&& whole.x <= part.x && plus(part.x, part.width) <= plus(whole.x, whole.width)
    &&& whole.y <= part.y && plus(part.y, part.height) <= plus(whole.y, whole.height)
}

/// A rectangle takes up all rows of another.
pub open spec fn same_rows(part: Rect, whole: Rect) -> bool {
    part.y == whole.y && part.height == whole.height
}

/// A rectangle takes up all columns of another.
pub open spec fn same_columns(part: Rect, whole: Rect) -> bool {
    part.x == whole.x && part.width == whole.width
}

/// How many cells of an area lie along the direction of a split.
pub open spec fn extent(direction: Direction, area: Rect) -> int {
    match direction {
        Direction::Horizontal => plus(area.x, area.width) - area.x,
        Direction::Vertical => plus(area.y, area.height) - area.y,
    }
}

/// The smaller of two sizes.
pub open spec fn at_most(size: int, limit: int) -> int {
    if size <= limit {
        size
    } else {
        limit
    }
}

/// What constraints ask for together: how many there are of each kind, and what these add up to.
pub struct Demand {
    pub mins: nat,
    pub least: int,
    pub lengths: nat,
    pub fixed: int,
    pub shares: nat,
    pub percent: int,
}

/// What the first `count` constraints ask for together.
pub open spec fn demand(constraints: Seq<Constraint>, count: nat) -> Demand
    decreases count,
{
    if count == 0 {
        Demand { mins: 0, least: 0, lengths: 0, fixed: 0, shares: 0, percent: 0 }
    } else {
        let before = demand(constraints, (count - 1) as nat);
        match constraints[count - 1] {
            Constraint::Min(cells) => Demand {
                mins: before.mins + 1,
                least: before.least + cells,
                ..before
            },
            Constraint::Length(cells) => Demand {
                lengths: before.lengths + 1,
                fixed: before.fixed + cells,
                ..before
            },
            Constraint::Percentage(percent) => Demand {
                shares: before.shares + 1,
                percent: before.percent + percent,
                ..before
            },
        }
    }
}

impl Demand {
    /// What the least sizes get of so many cells, in hundredths of a cell: they come first.
    pub open spec fn least_met(self, cells: int) -> int {
        at_most(100 * self.least, 100 * cells)
    }

    /// What the lengths get: they come second.
    pub open spec fn fixed_met(self, cells: int) -> int {
        at_most(100 * self.fixed, 100 * cells - self.least_met(cells))
    }

    /// What the shares get: they come last.
    pub open spec fn percent_met(self, cells: int) -> int {
        at_most(self.percent * cells, 100 * cells - self.least_met(cells) - self.fixed_met(cells))
    }

    /// What one constraint gets. The one with a least size takes what is left over as well.
    pub open spec fn size_for(self, constraint: Constraint, cells: int) -> int {
        match constraint {
            Constraint::Min(_) => 100 * cells - self.fixed_met(cells) - self.percent_met(cells),
            Constraint::Length(length) => at_most(
                100 * length,
                100 * cells - self.least_met(cells),
            ),
            Constraint::Percentage(_) => self.percent_met(cells),
        }
    }
}

/// Whether the order in which constraints are met settles the size of each: no more than one has a
/// least size, no more than one is a share, and the lengths are all met or there is just one or
/// nothing is left for them.
pub open spec fn is_settled(constraints: Seq<Constraint>, cells: int) -> bool {
    let all = demand(constraints, constraints.len());
    &&& all.mins <= 1 && all.shares <= 1 && all.least <= i16::MAX
    &&& all.lengths <= 1 || all.least + all.fixed <= cells || cells <= all.least
}

/// Where the constraint with the number `at` begins, in hundredths of a cell.
pub open spec fn edge(constraints: Seq<Constraint>, cells: int, at: nat) -> int
    decreases at,
{
    if at == 0 {
        0
    } else {
        edge(constraints, cells, (at - 1) as nat) + demand(
            constraints,
            constraints.len(),
        ).size_for(constraints[at - 1], cells)
    }
}

/// Hundredths of a cell as whole cells, a half being rounded up.
pub open spec fn rounded(hundredths: int) -> int {
    (hundredths + 50) / 100
}

/// The chunk that runs from one edge to the next, from the beginning of an area on.
pub open spec fn chunk(direction: Direction, area: Rect, from: int, to: int) -> Rect {
    match direction {
        Direction::Horizontal => Rect {
            x: (area.x + rounded(from)) as u16,
            width: (rounded(to) - rounded(from)) as u16,
            ..area
        },
        Direction::Vertical => Rect {
            y: (area.y + rounded(from)) as u16,
            height: (rounded(to) - rounded(from)) as u16,
            ..area
        },
    }
}

/// Splits an area with `ratatui::layout::Layout::split`, the layout having no margin or spacing.
///
/// It gives one chunk for each constraint, in their order. Each chunk lies in the area, and across
/// the direction of the split takes up all of it. Along that direction the solver meets least
/// sizes before lengths, lengths before shares, and shares before it lets one with a least size
/// grow, as the strengths of its constraints show; where that settles the size of each chunk, they
/// stand side by side from the beginning of the area on. How lengths that cannot all be met share
/// what there is, or several least sizes what is left over, is left unsaid: there the solver may
/// have more than one outcome.
#[verifier::external_body]
fn split_area(direction: Direction, constraints: &Vec<Constraint>, area: Rect) -> (chunks: Vec<
    Rect,
>)
    ensures
        split_outcome(direction, constraints@, area, chunks@),
        chunks@.len() == constraints@.len(),
        forall|k: int| 0 <= k < chunks@.len() ==> lies_in(#[trigger] chunks@[k], area),
        direction == Direction::Horizontal ==> forall|k: int|
            0 <= k < chunks@.len() ==> same_rows(#[trigger] chunks@[k], area),
        direction == Direction::Vertical ==> forall|k: int|
            0 <= k < chunks@.len() ==> same_columns(#[trigger] chunks@[k], area),
        is_settled(constraints@, extent(direction, area)) ==> forall|k: int|
            0 <= k < chunks@.len() ==> #[trigger] chunks@[k] == chunk(
                direction,
                area,
                edge(constraints@, extent(direction, area), k as nat),
                edge(constraints@, extent(direction, area), (k + 1) as nat),
            ),
{
    let along = match direction {
        Direction::Horizontal => layout::Direction::Horizontal,
        Direction::Vertical => layout::Direction::Vertical,
    };
    let wanted = constraints.iter().map(|constraint| match constraint {
        Constraint::Length(cells) => layout::Constraint::Length(*cells),
        Constraint::Min(cells) => layout::Constraint::Min(*cells),
        Constraint::Percentage(share) => layout::Constraint::Percentage(*share),
    });
    let whole = layout::Rect { x: area.x, y: area.y, width: area.width, height: area.height };
    let parts = layout::Layout::default().direction(along).constraints(wanted).split(whole);
    parts.iter().map(|part| Rect { x: part.x, y: part.y, width: part.width, height: part.height }).collect()
}

/// Header, body and footer of the preview screen.
pub open spec fn frame_constraints() -> Seq<Constraint> {
    seq![Constraint::Length(4), Constraint::Min(5), Constraint::Length(3)]
}

/// The three columns of header and body.
pub open spec fn pane_constraints() -> Seq<Constraint> {
    seq![Constraint::Percentage(46), Constraint::Length(5), Constraint::Min(0)]
}

/// Counts and question in the footer.
pub open spec fn footer_constraints() -> Seq<Constraint> {
    seq![Constraint::Min(20), Constraint::Length(34)]
}

/// The split of the screen that clicks on the answers go by.
pub open spec fn click_constraints() -> Seq<Constraint> {
    seq![Constraint::Length(3), Constraint::Min(5), Constraint::Length(3)]
}

/// The lines of the window that is shown during a scan.
pub open spec fn loading_constraints() -> Seq<Constraint> {
    seq![
        Constraint::Length(1),
        Constraint::Length(1),
        Constraint::Length(1),
        Constraint::Length(3),
        Constraint::Length(1),
        Constraint::Min(0),
    ]
}

/// The lines of the window that is shown during a transfer.
pub open spec fn transfer_constraints() -> Seq<Constraint> {
    seq![
        Constraint::Length(1),
        Constraint::Length(1),
        Constraint::Length(1),
        Constraint::Length(1),
        Constraint::Length(3),
        Constraint::Length(1),
    ]
}

/// A strip of an area across its rows: so many of its columns.
pub open spec fn columns_of(area: Rect, from: int, count: int) -> Rect {
    Rect { x: (area.x + from) as u16, width: count as u16, ..area }
}

/// A strip of an area across its columns: so many of its rows.
pub open spec fn rows_of(area: Rect, from: int, count: int) -> Rect {
    Rect { y: (area.y + from) as u16, height: count as u16, ..area }
}

/// The columns of header and body: five cells in the middle, which come first, and before them
/// forty-six hundredths of the width, as far as there is room.
pub open spec fn pane_columns(area: Rect) -> (Rect, Rect, Rect) {
    let wide = extent(Direction::Horizontal, area);
    let middle = at_most(5, wide);
    let left = at_most(rounded(46 * wide), wide - middle);
    (
        columns_of(area, 0, left),
        columns_of(area, left, middle),
        columns_of(area, left + middle, wide - left - middle),
    )
}

/// Counts and question in a footer: at least twenty cells for the counts, which come first, and
/// after them thirty-four, as far as there is room.
pub open spec fn footer_columns(area: Rect) -> (Rect, Rect) {
    let wide = extent(Direction::Horizontal, area);
    let last = at_most(34, wide - at_most(20, wide));
    (columns_of(area, 0, wide - last), columns_of(area, wide - last, last))
}

/// Whether a screen has room for a header of so many rows, a body of at least five and a footer of
/// three, or for nothing but the body.
pub open spec fn has_settled_rows(area: Rect, header: int) -> bool {
    let high = extent(Direction::Vertical, area);
    high >= header + 8 || high <= 5
}

/// The rows of such a screen: header, body and footer.
pub open spec fn screen_rows(area: Rect, header: int) -> (Rect, Rect, Rect) {
    let high = extent(Direction::Vertical, area);
    let (top, bottom) = if high <= 5 {
        (0int, 0int)
    } else {
        (header, 3int)
    };
    (
        rows_of(area, 0, top),
        rows_of(area, top, high - top - bottom),
        rows_of(area, high - bottom, bottom),
    )
}

/// The areas of a screen whose rows are settled.
pub open spec fn placed_frame(area: Rect) -> FrameLayout {
    let (header, body, footer) = screen_rows(area, 4);
    let (source, all_toggle, destination) = pane_columns(header);
    let (input, toggle, output) = pane_columns(body);
    let (counts, question) = footer_columns(footer);
    let (click_header, click_body, click_footer) = screen_rows(area, 3);
    let (click_counts, prompt) = footer_columns(click_footer);
    FrameLayout {
        header,
        body,
        footer,
        source,
        all_toggle,
        destination,
        input,
        toggle,
        output,
        counts,
        question,
        click_header,
        click_body,
        click_footer,
        click_counts,
        prompt,
    }
}

impl FrameLayout {
    /// The areas lie on the screen.
    pub open spec fn lies_on(self, area: Rect) -> bool {
        &&& lies_in(self.header, area) && lies_in(self.body, area) && lies_in(self.footer, area)
        &&& lies_in(self.source, area) && lies_in(self.all_toggle, area) && lies_in(
            self.destination,
            area,
        )
        &&& lies_in(self.input, area) && lies_in(self.toggle, area) && lies_in(self.output, area)
        &&& lies_in(self.counts, area) && lies_in(self.question, area)
        &&& lies_in(self.click_header, area) && lies_in(self.click_body, area) && lies_in(
            self.click_footer,
            area,
        )
        &&& lies_in(self.click_counts, area) && lies_in(self.prompt, area)
    }

    /// Header, body and footer are as wide as the screen, and what stands side by side in one of
    /// them is as high as it.
    pub open spec fn is_aligned(self, area: Rect) -> bool {
        &&& same_columns(self.header, area) && same_columns(self.body, area) && same_columns(
            self.footer,
            area,
        )
        &&& same_rows(self.source, self.header) && same_rows(self.all_toggle, self.header)
            && same_rows(self.destination, self.header)
        &&& same_rows(self.input, self.body) && same_rows(self.toggle, self.body) && same_rows(
            self.output,
            self.body,
        )
        &&& same_rows(self.counts, self.footer) && same_rows(self.question, self.footer)
        &&& same_columns(self.click_header, area) && same_columns(self.click_body, area)
            && same_columns(self.click_footer, area)
        &&& same_rows(self.click_counts, self.click_footer) && same_rows(
            self.prompt,
            self.click_footer,
        )
    }

    /// What stands side by side has its place; and so has what stands one below the other, where
    /// the rows of the screen are settled.
    pub open spec fn is_placed(self, area: Rect) -> bool {
        &&& (self.source, self.all_toggle, self.destination) == pane_columns(self.header)
        &&& (self.input, self.toggle, self.output) == pane_columns(self.body)
        &&& (self.counts, self.question) == footer_columns(self.footer)
        &&& (self.click_counts, self.prompt) == footer_columns(self.click_footer)
        &&& has_settled_rows(area, 4) ==> (self.header, self.body, self.footer) == screen_rows(
            area,
            4,
        )
        &&& has_settled_rows(area, 3) ==> (
            self.click_header,
            self.click_body,
            self.click_footer,
        ) == screen_rows(area, 3)
    }

    /// The areas come about by splitting the screen.
    pub open spec fn splits(self, area: Rect) -> bool {
        &&& split_outcome(
            Direction::Vertical,
            frame_constraints(),
            area,
            seq![self.header, self.body, self.footer],
        )
        &&& split_outcome(
            Direction::Horizontal,
            pane_constraints(),
            self.header,
            seq![self.source, self.all_toggle, self.destination],
        )
        &&& split_outcome(
            Direction::Horizontal,
            pane_constraints(),
            self.body,
            seq![self.input, self.toggle, self.output],
        )
        &&& split_outcome(
            Direction::Horizontal,
            footer_constraints(),
            self.footer,
            seq![self.counts, self.question],
        )
        &&& split_outcome(
            Direction::Vertical,
            click_constraints(),
            area,
            seq![self.click_header, self.click_body, self.click_footer],
        )
        &&& split_outcome(
            Direction::Horizontal,
            footer_constraints(),
            self.click_footer,
            seq![self.click_counts, self.prompt],
        )
    }
}

/// Splits an area in three.
fn split_in_three(
    direction: Direction,
    first: Constraint,
    second: Constraint,
    third: Constraint,
    area: Rect,
) -> (result: (Rect, Rect, Rect))
    ensures
        split_outcome(
            direction,
            seq![first, second, third],
            area,
            seq![result.0, result.1, result.2],
        ),
        lies_in(result.0, area),
        lies_in(result.1, area),
        lies_in(result.2, area),
        direction == Direction::Horizontal ==> same_rows(result.0, area) && same_rows(
            result.1,
            area,
        ) && same_rows(result.2, area),
        direction == Direction::Vertical ==> same_columns(result.0, area) && same_columns(
            result.1,
            area,
        ) && same_columns(result.2, area),
        is_settled(seq![first, second, third], extent(direction, area)) ==> ({
            let cells = extent(direction, area);
            let constraints = seq![first, second, third];
            let one = edge(constraints, cells, 1);
            let two = edge(constraints, cells, 2);
            &&& result.0 == chunk(direction, area, 0, one)
            &&& result.1 == chunk(direction, area, one, two)
            &&& result.2 == chunk(direction, area, two, edge(constraints, cells, 3))
        }),
{
    let mut constraints: Vec<Constraint> = Vec::new();
    constraints.push(first);
    constraints.push(second);
    constraints.push(third);
    assert(constraints@ =~= seq![first, second, third]);
    let chunks: Vec<Rect> = split_area(direction, &constraints, area);
    assert(chunks@ =~= seq![chunks@[0], chunks@[1], chunks@[2]]);
    assert(edge(constraints@, extent(direction, area), 0) == 0);
    (chunks[0], chunks[1], chunks[2])
}

/// Splits a footer.
fn split_footer(area: Rect) -> (result: (Rect, Rect))
    ensures
        split_outcome(
            Direction::Horizontal,
            footer_constraints(),
            area,
            seq![result.0, result.1],
        ),
        lies_in(result.0, area),
        lies_in(result.1, area),
        same_rows(result.0, area),
        same_rows(result.1, area),
        result == footer_columns(area),
{
    let mut constraints: Vec<Constraint> = Vec::new();
    constraints.push(Constraint::Min(20));
    constraints.push(Constraint::Length(34));
    assert(constraints@ =~= footer_constraints());
    let chunks: Vec<Rect> = split_area(Direction::Horizontal, &constraints, area);
    assert(chunks@ =~= seq![chunks@[0], chunks@[1]]);
    proof {
        let wide = extent(Direction::Horizontal, area);
        reveal_with_fuel(demand, 3);
        reveal_with_fuel(edge, 3);
        let all = demand(constraints@, 2);
        assert(all == (Demand {
            mins: 1,
            least: 20,
            lengths: 1,
            fixed: 34,
            shares: 0,
            percent: 0,
        }));
        assert(all.percent * wide == 0) by (nonlinear_arith)
            requires
                all.percent == 0,
        ;
    }
    (chunks[0], chunks[1])
}

/// Splits a header or body.
fn split_panes(area: Rect) -> (result: (Rect, Rect, Rect))
    ensures
        split_outcome(
            Direction::Horizontal,
            pane_constraints(),
            area,
            seq![result.0, result.1, result.2],
        ),
        lies_in(result.0, area),
        lies_in(result.1, area),
        lies_in(result.2, area),
        same_rows(result.0, area),
        same_rows(result.1, area),
        same_rows(result.2, area),
        result == pane_columns(area),
{
    let result: (Rect, Rect, Rect) = split_in_three(
        Direction::Horizontal,
        Constraint::Percentage(46),
        Constraint::Length(5),
        Constraint::Min(0),
        area,
    );
    proof {
        let wide = extent(Direction::Horizontal, area);
        let constraints = pane_constraints();
        reveal_with_fuel(demand, 4);
        reveal_with_fuel(edge, 4);
        let all = demand(constraints, 3);
        assert(all == (Demand {
            mins: 1,
            least: 0,
            lengths: 1,
            fixed: 5,
            shares: 1,
            percent: 46,
        }));
        assert(all.percent * wide == 46 * wide) by (nonlinear_arith)
            requires
                all.percent == 46,
        ;
    }
    result
}

/// Splits a screen into a header with this number of rows, a body and a footer.
fn split_screen(header: u16, area: Rect) -> (result: (Rect, Rect, Rect))
    requires
        header <= 4,
    ensures
        split_outcome(
            Direction::Vertical,
            seq![Constraint::Length(header), Constraint::Min(5), Constraint::Length(3)],
            area,
            seq![result.0, result.1, result.2],
        ),
        lies_in(result.0, area),
        lies_in(result.1, area),
        lies_in(result.2, area),
        same_columns(result.0, area),
        same_columns(result.1, area),
        same_columns(result.2, area),
        has_settled_rows(area, header as int) ==> result == screen_rows(area, header as int),
{
    let result: (Rect, Rect, Rect) = split_in_three(
        Direction::Vertical,
        Constraint::Length(header),
        Constraint::Min(5),
        Constraint::Length(3),
        area,
    );
    proof {
        let high = extent(Direction::Vertical, area);
        let constraints = seq![
            Constraint::Length(header),
            Constraint::Min(5),
            Constraint::Length(3),
        ];
        reveal_with_fuel(demand, 4);
        reveal_with_fuel(edge, 4);
        let all = demand(constraints, 3);
        assert(all == (Demand {
            mins: 1,
            least: 5,
            lengths: 2,
            fixed: header + 3,
            shares: 0,
            percent: 0,
        }));
        assert(all.percent * high == 0) by (nonlinear_arith)
            requires
                all.percent == 0,
        ;
    }
    result
}

/// Splits the preview screen.
pub fn frame_layout(area: Rect) -> (result: FrameLayout)
    ensures
        result.splits(area),
        result.lies_on(area),
        result.is_aligned(area),
        result.is_placed(area),
        has_settled_rows(area, 4) ==> result == placed_frame(area),
{
    let (header, body, footer) = split_screen(4, area);
    let (source, all_toggle, destination) = split_panes(header);
    let (input, toggle, output) = split_panes(body);
    let (counts, question) = split_footer(footer);
    let (click_header, click_body, click_footer) = split_screen(3, area);
    let (click_counts, prompt) = split_footer(click_footer);
    FrameLayout {
        header,
        body,
        footer,
        source,
        all_toggle,
        destination,
        input,
        toggle,
        output,
        counts,
        question,
        click_header,
        click_body,
        click_footer,
        click_counts,
        prompt,
    }
}

// ---------------------------------------------------------------------------------------------
// Windows in the middle of the screen

/// A rectangle of the given size in the middle of an area. It leaves a cell free on either side
/// where the area has room, and is never smaller than three cells.
pub open spec fn centered(width: u16, height: u16, area: Rect) -> Rect {
    let width = larger(smaller(width, minus(area.width, 2)), 3);
    let height = larger(smaller(height, minus(area.height, 2)), 3);
    Rect {
        x: plus(area.x, minus(area.width, width) / 2),
        y: plus(area.y, minus(area.height, height) / 2),
        width,
        height,
    }
}

/// What is inside the border of a rectangle.
pub open spec fn inside(area: Rect) -> Rect {
    Rect {
        x: plus(area.x, 1),
        y: plus(area.y, 1),
        width: minus(area.width, 2),
        height: minus(area.height, 2),
    }
}

/// The window that is shown during work: four cells narrower than the screen, within limits.
pub open spec fn window(area: Rect, widest: u16, height: u16) -> Rect {
    centered(
        smaller(larger(minus(area.width, 4), 70), widest),
        smaller(height, minus(area.height, 2)),
        area,
    )
}

/// A rectangle of the given size in the middle of an area.
pub fn centered_rect_fixed(width: u16, height: u16, area: Rect) -> (result: Rect)
    ensures
        result == centered(width, height, area),
{
    let width: u16 = max_of(min_of(width, area.width.saturating_sub(2)), 3);
    let height: u16 = max_of(min_of(height, area.height.saturating_sub(2)), 3);
    Rect {
        x: area.x.saturating_add(area.width.saturating_sub(width) / 2),
        y: area.y.saturating_add(area.height.saturating_sub(height) / 2),
        width,
        height,
    }
}

/// What is inside the border of a rectangle.
pub fn inner_modal(area: Rect) -> (result: Rect)
    ensures
        result == inside(area),
{
    Rect {
        x: area.x.saturating_add(1),
        y: area.y.saturating_add(1),
        width: area.width.saturating_sub(2),
        height: area.height.saturating_sub(2),
    }
}

/// The window that is shown during work.
fn modal_window(area: Rect, widest: u16, height: u16) -> (result: Rect)
    ensures
        result == window(area, widest, height),
{
    let width: u16 = min_of(max_of(area.width.saturating_sub(4), 70), widest);
    let height: u16 = min_of(height, area.height.saturating_sub(2));
    centered_rect_fixed(width, height, area)
}

/// Splits an area in six.
fn split_in_six(constraints: &Vec<Constraint>, area: Rect) -> (result: Vec<Rect>)
    requires
        constraints@.len() == 6,
    ensures
        result@.len() == 6,
        split_outcome(
            Direction::Vertical,
            constraints@,
            area,
            seq![result@[0], result@[1], result@[2], result@[3], result@[4], result@[5]],
        ),
        forall|k: int|
            0 <= k < 6 ==> lies_in(#[trigger] result@[k], area) && same_columns(result@[k], area),
        is_settled(constraints@, extent(Direction::Vertical, area)) ==> forall|k: int|
            0 <= k < 6 ==> #[trigger] result@[k] == chunk(
                Direction::Vertical,
                area,
                edge(constraints@, extent(Direction::Vertical, area), k as nat),
                edge(constraints@, extent(Direction::Vertical, area), (k + 1) as nat),
            ),
{
    let chunks: Vec<Rect> = split_area(Direction::Vertical, constraints, area);
    assert(chunks@ =~= seq![
        chunks@[0],
        chunks@[1],
        chunks@[2],
        chunks@[3],
        chunks@[4],
        chunks@[5],
    ]);
    chunks
}

/// The lines of a window with room for them during a scan: three, then a bar three rows high, the
/// button and what is left over.
pub open spec fn loading_rows(inner: Rect) -> Seq<Rect> {
    seq![
        rows_of(inner, 0, 1),
        rows_of(inner, 1, 1),
        rows_of(inner, 2, 1),
        rows_of(inner, 3, 3),
        rows_of(inner, 6, 1),
        rows_of(inner, 7, extent(Direction::Vertical, inner) - 7),
    ]
}

/// The lines of a window with room for them during a transfer: four, then a bar three rows high
/// and the button.
pub open spec fn transfer_rows(inner: Rect) -> Seq<Rect> {
    seq![
        rows_of(inner, 0, 1),
        rows_of(inner, 1, 1),
        rows_of(inner, 2, 1),
        rows_of(inner, 3, 1),
        rows_of(inner, 4, 3),
        rows_of(inner, 7, 1),
    ]
}

impl LoadingLayout {
    /// The lines lie inside the window, and are as wide as its inside.
    pub open spec fn is_aligned(self) -> bool {
        let inner = inside(self.modal);
        &&& lies_in(self.phase, inner) && same_columns(self.phase, inner)
        &&& lies_in(self.phase_counter, inner) && same_columns(self.phase_counter, inner)
        &&& lies_in(self.current, inner) && same_columns(self.current, inner)
        &&& lies_in(self.bar, inner) && same_columns(self.bar, inner)
        &&& lies_in(self.cancel, inner) && same_columns(self.cancel, inner)
        &&& lies_in(self.rest, inner) && same_columns(self.rest, inner)
    }

    /// The lines stand one below the other, where the window has room for them.
    pub open spec fn is_placed(self) -> bool {
        extent(Direction::Vertical, inside(self.modal)) >= 7 ==> seq![
            self.phase,
            self.phase_counter,
            self.current,
            self.bar,
            self.cancel,
            self.rest,
        ] == loading_rows(inside(self.modal))
    }

    /// The areas come about by splitting the inside of the window.
    pub open spec fn splits(self, area: Rect) -> bool {
        &&& self.modal == window(area, 140, 10)
        &&& split_outcome(
            Direction::Vertical,
            loading_constraints(),
            inside(self.modal),
            seq![self.phase, self.phase_counter, self.current, self.bar, self.cancel, self.rest],
        )
    }
}

impl TransferLayout {
    /// The lines lie inside the window, and are as wide as its inside.
    pub open spec fn is_aligned(self) -> bool {
        let inner = inside(self.modal);
        &&& lies_in(self.phase, inner) && same_columns(self.phase, inner)
        &&& lies_in(self.source, inner) && same_columns(self.source, inner)
        &&& lies_in(self.destination, inner) && same_columns(self.destination, inner)
        &&& lies_in(self.counters, inner) && same_columns(self.counters, inner)
        &&& lies_in(self.bar, inner) && same_columns(self.bar, inner)
        &&& lies_in(self.cancel, inner) && same_columns(self.cancel, inner)
    }

    /// The lines stand one below the other, where the window has room for them.
    pub open spec fn is_placed(self) -> bool {
        extent(Direction::Vertical, inside(self.modal)) >= 8 ==> seq![
            self.phase,
            self.source,
            self.destination,
            self.counters,
            self.bar,
            self.cancel,
        ] == transfer_rows(inside(self.modal))
    }

    /// The areas come about by splitting the inside of the window.
    pub open spec fn splits(self, area: Rect) -> bool {
        &&& self.modal == window(area, 150, 11)
        &&& split_outcome(
            Direction::Vertical,
            transfer_constraints(),
            inside(self.modal),
            seq![self.phase, self.source, self.destination, self.counters, self.bar, self.cancel],
        )
    }
}

/// The areas of the window that is shown during a scan.
pub fn loading_layout(area: Rect) -> (result: LoadingLayout)
    ensures
        result.splits(area),
        result.is_aligned(),
        result.is_placed(),
{
    let modal: Rect = modal_window(area, 140, 10);
    let mut constraints: Vec<Constraint> = Vec::new();
    constraints.push(Constraint::Length(1));
    constraints.push(Constraint::Length(1));
    constraints.push(Constraint::Length(1));
    constraints.push(Constraint::Length(3));
    constraints.push(Constraint::Length(1));
    constraints.push(Constraint::Min(0));
    assert(constraints@ =~= loading_constraints());
    let chunks: Vec<Rect> = split_in_six(&constraints, inner_modal(modal));
    proof {
        let high = extent(Direction::Vertical, inside(modal));
        reveal_with_fuel(demand, 7);
        reveal_with_fuel(edge, 7);
        let all = demand(constraints@, 6);
        assert(all == (Demand {
            mins: 1,
            least: 0,
            lengths: 5,
            fixed: 7,
            shares: 0,
            percent: 0,
        }));
        assert(all.percent * high == 0) by (nonlinear_arith)
            requires
                all.percent == 0,
        ;
    }
    LoadingLayout {
        modal,
        phase: chunks[0],
        phase_counter: chunks[1],
        current: chunks[2],
        bar: chunks[3],
        cancel: chunks[4],
        rest: chunks[5],
    }
}

/// The areas of the window that is shown during a transfer.
pub fn transfer_layout(area: Rect) -> (result: TransferLayout)
    ensures
        result.splits(area),
        result.is_aligned(),
        result.is_placed(),
{
    let modal: Rect = modal_window(area, 150, 11);
    let mut constraints: Vec<Constraint> = Vec::new();
    constraints.push(Constraint::Length(1));
    constraints.push(Constraint::Length(1));
    constraints.push(Constraint::Length(1));
    constraints.push(Constraint::Length(1));
    constraints.push(Constraint::Length(3));
    constraints.push(Constraint::Length(1));
    assert(constraints@ =~= transfer_constraints());
    let chunks: Vec<Rect> = split_in_six(&constraints, inner_modal(modal));
    proof {
        let high = extent(Direction::Vertical, inside(modal));
        reveal_with_fuel(demand, 7);
        reveal_with_fuel(edge, 7);
        let all = demand(constraints@, 6);
        assert(all == (Demand {
            mins: 0,
            least: 0,
            lengths: 6,
            fixed: 8,
            shares: 0,
            percent: 0,
        }));
        assert(all.percent * high == 0) by (nonlinear_arith)
            requires
                all.percent == 0,
        ;
    }
    TransferLayout {
        modal,
        phase: chunks[0],
        source: chunks[1],
        destination: chunks[2],
        counters: chunks[3],
        bar: chunks[4],
        cancel: chunks[5],
    }
}

/// The button that cancels a scan.
pub fn loading_cancel_button_rect(area: Rect) -> (result: Rect)
    ensures
        exists|layout: LoadingLayout| #[trigger] layout.splits(area) && result == layout.cancel,
        lies_in(result, inside(window(area, 140, 10))),
        same_columns(result, inside(window(area, 140, 10))),
        extent(Direction::Vertical, inside(window(area, 140, 10))) >= 7 ==> result == rows_of(
            inside(window(area, 140, 10)),
            6,
            1,
        ),
{
    let layout: LoadingLayout = loading_layout(area);
    layout.cancel
}

/// The button that cancels a transfer.
pub fn transfer_cancel_button_rect(area: Rect) -> (result: Rect)
    ensures
        exists|layout: TransferLayout| #[trigger] layout.splits(area) && result == layout.cancel,
        lies_in(result, inside(window(area, 150, 11))),
        same_columns(result, inside(window(area, 150, 11))),
        extent(Direction::Vertical, inside(window(area, 150, 11))) >= 8 ==> result == rows_of(
            inside(window(area, 150, 11)),
            7,
            1,
        ),
{
    let layout: TransferLayout = transfer_layout(area);
    layout.cancel
}

// ---------------------------------------------------------------------------------------------
// What a click hits

/// A cell lies in a rectangle.
pub open spec fn covers(rect: Rect, x: u16, y: u16) -> bool {
    rect.x <= x < plus(rect.x, rect.width) && rect.y <= y < plus(rect.y, rect.height)
}

/// Whether a cell lies in a rectangle.
pub fn contains(rect: Rect, x: u16, y: u16) -> (result: bool)
    ensures
        result == covers(rect, x, y),
{
    x >= rect.x && x < rect.x.saturating_add(rect.width) && y >= rect.y && y
        < rect.y.saturating_add(rect.height)
}

/// A cell lies in the answer that begins `from` cells into the prompt: five cells of its second
/// line.
pub open spec fn covers_answer(prompt: Rect, from: int, x: u16, y: u16) -> bool {
    prompt.x + from <= x < prompt.x + from + 5 && y == prompt.y + 1
}

/// Whether a click hits the answer that begins `from` cells into the prompt.
fn clicked_answer(prompt: Rect, from: u32, x: u16, y: u16) -> (result: bool)
    requires
        from <= 1000,
    ensures
        result == covers_answer(prompt, from as int, x, y),
{
    let left: u32 = prompt.x as u32 + from;
    x as u32 >= left && (x as u32) < left + 5 && y as u32 == prompt.y as u32 + 1
}

/// Whether a click hits the answer yes.
pub fn clicked_yes(layout: &FrameLayout, x: u16, y: u16) -> (result: bool)
    ensures
        result == covers_answer(layout.prompt, 13, x, y),
{
    clicked_answer(layout.prompt, 13, x, y)
}

/// Whether a click hits the answer no.
pub fn clicked_no(layout: &FrameLayout, x: u16, y: u16) -> (result: bool)
    ensures
        result == covers_answer(layout.prompt, 20, x, y),
{
    clicked_answer(layout.prompt, 20, x, y)
}

/// A cell lies in a box, between its borders above and below.
pub open spec fn covers_content(area: Rect, x: u16, y: u16) -> bool {
    let top = plus(area.y, 1);
    area.x <= x < plus(area.x, area.width) && top <= y < plus(top, minus(area.height, 2))
}

/// Whether a click hits the box that switches all moves on or off.
pub fn clicked_all_toggle(layout: &FrameLayout, x: u16, y: u16) -> (result: bool)
    ensures
        result == covers_content(layout.all_toggle, x, y),
{
    let center: Rect = layout.all_toggle;
    let top: u16 = center.y.saturating_add(1);
    x >= center.x && x < center.x.saturating_add(center.width) && y >= top && y
        < top.saturating_add(center.height.saturating_sub(2))
}

/// The pane that a cell lies in.
pub open spec fn pane_at(layout: FrameLayout, x: u16, y: u16) -> Option<Pane> {
    if covers(layout.input, x, y) {
        Some(Pane::Input)
    } else if covers(layout.toggle, x, y) {
        Some(Pane::Toggle)
    } else if covers(layout.output, x, y) {
        Some(Pane::Output)
    } else {
        None
    }
}

/// The area of a pane.
pub open spec fn pane_rect(layout: FrameLayout, pane: Pane) -> Rect {
    match pane {
        Pane::Input => layout.input,
        Pane::Toggle => layout.toggle,
        Pane::Output => layout.output,
    }
}

/// The line of a pane that a cell lies in, counted from the one below the border and the heading.
pub open spec fn line_at(pane: Rect, y: u16) -> Option<nat> {
    let top = plus(pane.y, 1);
    if top < y < plus(top, minus(pane.height, 2)) {
        Some((y - top - 1) as nat)
    } else {
        None
    }
}

/// The pane and the line of it that a click hits.
pub fn clicked_line(layout: &FrameLayout, x: u16, y: u16) -> (result: Option<(Pane, usize)>)
    ensures
        match result {
            Some((pane, line)) => pane_at(*layout, x, y) == Some(pane) && line_at(
                pane_rect(*layout, pane),
                y,
            ) == Some(line as nat),
            None => match pane_at(*layout, x, y) {
                Some(pane) => line_at(pane_rect(*layout, pane), y) is None,
                None => true,
            },
        },
{
    let (area, pane): (Rect, Pane) = if contains(layout.input, x, y) {
        (layout.input, Pane::Input)
    } else if contains(layout.toggle, x, y) {
        (layout.toggle, Pane::Toggle)
    } else if contains(layout.output, x, y) {
        (layout.output, Pane::Output)
    } else {
        return None;
    };
    let top: u16 = area.y.saturating_add(1);
    let height: u16 = area.height.saturating_sub(2);
    if y <= top || y >= top.saturating_add(height) {
        return None;
    }
    Some((pane, (y - top - 1) as usize))
}

/// What a click asks of the scrollbar at the right border of the output pane, while there are
/// `rows` rows.
pub open spec fn scroll_hit(output: Rect, rows: nat, x: u16, y: u16) -> ScrollHit {
    let column = plus(output.x, minus(output.width, 1));
    let top = plus(output.y, 1);
    let height = minus(output.height, 2);
    if rows == 0 || output.width < 3 || output.height < 4 {
        ScrollHit::Miss
    } else if x != column || !(top <= y < plus(top, height)) {
        ScrollHit::Miss
    } else if rows <= output.height - 3 {
        ScrollHit::Top
    } else {
        ScrollHit::Share {
            local_y: (y - top) as u16,
            track: (height - 1) as u16,
            max_offset: (rows - (output.height - 3)) as usize,
        }
    }
}

/// What a click asks of the scrollbar.
pub fn clicked_scrollbar(output: Rect, rows: usize, x: u16, y: u16) -> (result: ScrollHit)
    ensures
        result == scroll_hit(output, rows as nat, x, y),
{
    if rows == 0 || output.width < 3 || output.height < 4 {
        return ScrollHit::Miss;
    }
    let column: u16 = output.x.saturating_add(output.width - 1);
    let top: u16 = output.y.saturating_add(1);
    let height: u16 = output.height - 2;
    if x != column || y < top || y >= top.saturating_add(height) {
        return ScrollHit::Miss;
    }
    let viewport: usize = (output.height - 3) as usize;
    if rows <= viewport {
        return ScrollHit::Top;
    }
    ScrollHit::Share { local_y: y - top, track: height - 1, max_offset: rows - viewport }
}

// ---------------------------------------------------------------------------------------------
// Laws

/// A window in the middle of a screen with room for it lies on the screen, a cell away from each
/// border.
pub proof fn lemma_window_lies_on_screen(width: u16, height: u16, area: Rect)
    requires
        area.width >= 5,
        area.height >= 5,
        area.x + area.width <= u16::MAX,
        area.y + area.height <= u16::MAX,
    ensures
        ({
            let window = centered(width, height, area);
            &&& area.x + 1 <= window.x
            &&& window.x + window.width + 1 <= area.x + area.width
            &&& area.y + 1 <= window.y
            &&& window.y + window.height + 1 <= area.y + area.height
        }),
{
}

/// The panes cover the body, and nothing else.
pub proof fn lemma_panes_cover_the_body(layout: FrameLayout, area: Rect, x: u16, y: u16)
    requires
        layout.is_placed(area),
    ensures
        pane_at(layout, x, y) is Some <==> covers(layout.body, x, y),
{
}

/// No cell lies in two panes.
pub proof fn lemma_panes_are_apart(layout: FrameLayout, area: Rect, x: u16, y: u16)
    requires
        layout.is_placed(area),
    ensures
        !(covers(layout.input, x, y) && covers(layout.toggle, x, y)),
        !(covers(layout.input, x, y) && covers(layout.output, x, y)),
        !(covers(layout.toggle, x, y) && covers(layout.output, x, y)),
{
}

/// On a screen with room for it, the answers are part of the question as it is drawn.
pub proof fn lemma_answers_lie_in_the_question(layout: FrameLayout, area: Rect, x: u16, y: u16)
    requires
        layout.is_placed(area),
        layout.is_aligned(area),
        extent(Direction::Vertical, area) >= 12,
        extent(Direction::Horizontal, area) >= 54,
    ensures
        layout.prompt == layout.question,
        covers_answer(layout.prompt, 13, x, y) ==> covers(layout.question, x, y),
        covers_answer(layout.prompt, 20, x, y) ==> covers(layout.question, x, y),
{
}

/// No cell is both answers at once.
pub proof fn lemma_answers_are_apart(layout: FrameLayout, x: u16, y: u16)
    ensures
        !(covers_answer(layout.prompt, 13, x, y) && covers_answer(layout.prompt, 20, x, y)),
{
}

/// A click on the scrollbar asks for a share between nothing and all.
pub proof fn lemma_share_is_a_share(output: Rect, rows: nat, x: u16, y: u16)
    requires
        rows <= usize::MAX,
    ensures
        scroll_hit(output, rows, x, y) matches ScrollHit::Share { local_y, track, max_offset }
            ==> local_y <= track && 0 < track && 0 < max_offset < rows,
{
}

}
