//! What the user reads.

use vstd::prelude::*;
use crate::model::{Confidence, TransferMode};
use crate::paths;
use crate::paths::{PathView, RomPath};
use crate::progress::{LoadingUpdate, LoadingView, TransferUpdate, TransferView};
use crate::rows::{DisplayRow, RowView};
use crate::text;
use crate::transfer;
use crate::transfer::{Fate, TransferStats};
use crate::ui;
use crate::ui::{SelectionState, UiState, UiView};

verus! {

/// A color of text.
#[derive(Debug, Clone, Copy, PartialEq, Eq, Structural)]
pub enum Color {
    Green,
    Yellow,
    Red,
    Cyan,
    Magenta,
    DarkGray,
}

/// How text looks.
#[derive(Debug, Clone, Copy, PartialEq, Eq, Structural)]
pub struct TextStyle {
    /// The color, unless it is the usual one.
    pub color: Option<Color>,
    pub bold: bool,
    pub dim: bool,
}

/// A row of the input pane.
#[derive(Debug)]
pub struct InputRow {
    pub path: String,
    pub style: TextStyle,
    /// The word in the second column, and how it looks, unless it looks as the row does.
    pub confidence: &'static str,
    pub confidence_style: Option<TextStyle>,
}

/// What an [`InputRow`] holds.
#[verifier::ext_equal]
pub struct InputRowView {
    pub path: Seq<char>,
    pub style: TextStyle,
    pub confidence: Seq<char>,
    pub confidence_style: Option<TextStyle>,
}

impl View for InputRow {
    type V = InputRowView;

    open spec fn view(&self) -> InputRowView {
        InputRowView {
            path: self.path@,
            style: self.style,
            confidence: self.confidence@,
            confidence_style: self.confidence_style,
        }
    }
}

// ---------------------------------------------------------------------------------------------
// Looks

/// Text in a color.
pub open spec fn colored(color: Color) -> TextStyle {
    TextStyle { color: Some(color), bold: false, dim: false }
}

/// The box that shows how many moves are switched on.
pub open spec fn checkbox(state: SelectionState) -> Seq<char> {
    match state {
        SelectionState::All => "[x]"@,
        SelectionState::Part => "[-]"@,
        SelectionState::Nothing => "[ ]"@,
    }
}

/// How that box looks.
pub open spec fn checkbox_style(state: SelectionState) -> TextStyle {
    match state {
        SelectionState::All => TextStyle { color: Some(Color::Green), bold: true, dim: false },
        SelectionState::Part => TextStyle { color: Some(Color::Yellow), bold: true, dim: false },
        SelectionState::Nothing => TextStyle { color: Some(Color::Red), bold: false, dim: true },
    }
}

/// How a move looks.
pub open spec fn move_style(enabled: bool) -> TextStyle {
    if enabled {
        TextStyle { color: None, bold: false, dim: false }
    } else {
        TextStyle { color: Some(Color::DarkGray), bold: false, dim: true }
    }
}

/// The color of a confidence.
pub open spec fn confidence_color(confidence: Confidence) -> Color {
    match confidence {
        Confidence::Exact => Color::Green,
        Confidence::High => Color::Cyan,
        Confidence::Ambiguous => Color::Yellow,
        Confidence::Unknown => Color::Red,
    }
}

/// How the word for a confidence looks.
pub open spec fn word_style(confidence: Confidence, enabled: bool) -> TextStyle {
    TextStyle { color: Some(confidence_color(confidence)), bold: enabled, dim: !enabled }
}

/// The box that shows how many moves are switched on, and how it looks.
pub fn checkbox_text_style(state: SelectionState) -> (result: (&'static str, TextStyle))
    ensures
        result.0@ == checkbox(state),
        result.1 == checkbox_style(state),
{
    match state {
        SelectionState::All => (
            "[x]",
            TextStyle { color: Some(Color::Green), bold: true, dim: false },
        ),
        SelectionState::Part => (
            "[-]",
            TextStyle { color: Some(Color::Yellow), bold: true, dim: false },
        ),
        SelectionState::Nothing => (
            "[ ]",
            TextStyle { color: Some(Color::Red), bold: false, dim: true },
        ),
    }
}

/// The box of a row, and how it looks.
pub fn checkbox_for_row(app: &UiState, row: &DisplayRow) -> (result: (&'static str, TextStyle))
    ensures
        ({
            let state = ui::selection_state(app@, |index: int| ui::stands_for(app@, row@, index));
            result.0@ == checkbox(state) && result.1 == checkbox_style(state)
        }),
{
    checkbox_text_style(ui::selection_state_for_row(app, row))
}

/// How a move looks.
pub fn transfer_state_style(enabled: bool) -> (result: TextStyle)
    ensures
        result == move_style(enabled),
{
    if enabled {
        TextStyle { color: None, bold: false, dim: false }
    } else {
        TextStyle { color: Some(Color::DarkGray), bold: false, dim: true }
    }
}

/// How the word for a confidence looks.
pub fn confidence_style(confidence: Confidence, enabled: bool) -> (result: TextStyle)
    ensures
        result == word_style(confidence, enabled),
{
    let color: Color = match confidence {
        Confidence::Exact => Color::Green,
        Confidence::High => Color::Cyan,
        Confidence::Ambiguous => Color::Yellow,
        Confidence::Unknown => Color::Red,
    };
    TextStyle { color: Some(color), bold: enabled, dim: !enabled }
}

// ---------------------------------------------------------------------------------------------
// Paths

/// A path as Windows tells it to a user: without the marks of a verbatim path.
pub open spec fn without_verbatim(path: Seq<char>) -> Seq<char> {
    if text::is_at(path, "\\\\?\\UNC\\"@, 0) {
        "\\\\"@ + path.skip("\\\\?\\UNC\\"@.len() as int)
    } else if text::is_at(path, "\\\\?\\"@, 0) {
        path.skip("\\\\?\\"@.len() as int)
    } else {
        path
    }
}

/// A text with its slashes leaning backward.
pub open spec fn leaning_back(path: Seq<char>) -> Seq<char> {
    path.map_values(
        |ch: char|
            if ch == '/' {
                '\\'
            } else {
                ch
            },
    )
}

/// A path below a folder as it is shown: from that folder on, and beginning with a backslash.
pub open spec fn shown_below(root: PathView, path: PathView) -> Seq<char> {
    let relative = match paths::stripped(path, root.parts) {
        Some(relative) => relative,
        None => path,
    };
    let leaning = leaning_back(paths::shown(relative));
    if leaning == "."@ || leaning.len() == 0 {
        "\\"@
    } else if leaning[0] == '\\' {
        leaning
    } else {
        "\\"@ + leaning
    }
}

/// A text without its first `count` characters.
pub open spec fn without_first(text: Seq<char>, count: nat) -> Seq<char> {
    if count >= text.len() {
        Seq::empty()
    } else {
        text.skip(count as int)
    }
}

/// A text without its first `offset` characters.
pub fn horizontal_slice(input: &str, offset: usize) -> (result: String)
    ensures
        result@ == without_first(input@, offset as nat),
{
    let chars: Vec<char> = text::chars_of(input);
    let length: usize = chars.len();
    if offset >= length {
        let result: String = String::new();
        assert(result@ =~= Seq::<char>::empty());
        return result;
    }
    assert(chars@.subrange(offset as int, length as int) =~= chars@.skip(offset as int));
    text::text_of(&chars, offset, length)
}

/// A path without the marks of a verbatim path.
pub fn normalize_windows_display_path(input: &str) -> (result: String)
    ensures
        result@ == without_verbatim(input@),
{
    proof {
        reveal_strlit("\\\\?\\UNC\\");
        reveal_strlit("\\\\?\\");
    }
    if text::begins_with(input, "\\\\?\\UNC\\") {
        let rest: String = horizontal_slice(input, 8);
        let mut result: String = "\\\\".to_owned();
        result.append(rest.as_str());
        assert(rest@ =~= input@.skip(8));
        return result;
    }
    if text::begins_with(input, "\\\\?\\") {
        let rest: String = horizontal_slice(input, 4);
        assert(rest@ =~= input@.skip(4));
        return rest;
    }
    input.to_owned()
}

/// A folder as it is shown in the header.
pub fn display_path_for_ui(path: &RomPath) -> (result: String)
    ensures
        result@ == without_verbatim(paths::shown(path@)),
{
    let shown: String = path.display();
    normalize_windows_display_path(shown.as_str())
}

/// A text with its slashes leaning backward.
fn lean_back(path: &str) -> (result: String)
    ensures
        result@ == leaning_back(path@),
{
    let mut result: String = String::new();
    for ch in it: path.chars()
        invariant
            result@ == leaning_back(path@.take(it.index())),
            it.seq() == path@,
    {
        if ch == '/' {
            result.push('\\');
        } else {
            result.push(ch);
        }
        assert(path@.take(it.index() + 1) =~= path@.take(it.index()).push(ch));
        assert(result@ =~= leaning_back(path@.take(it.index() + 1)));
    }
    assert(path@.take(path@.len() as int) =~= path@);
    result
}

/// A path below a folder as it is shown.
pub fn relative_display(root: &RomPath, path: &RomPath) -> (result: String)
    ensures
        result@ == shown_below(root@, path@),
{
    let shown: String = match path.strip_prefix(root) {
        Some(relative) => relative.display(),
        None => path.display(),
    };
    let leaning: String = lean_back(shown.as_str());
    if text::same(leaning.as_str(), ".") || leaning.as_str().is_empty() {
        return "\\".to_owned();
    }
    proof {
        reveal_strlit("\\");
        assert("\\"@ =~= seq!['\\']);
        assert(text::is_at(leaning@, "\\"@, 0) == (leaning@[0] == '\\')) by {
            if leaning@[0] == '\\' {
                assert(leaning@.subrange(0, 1) =~= seq!['\\']);
            } else {
                assert(leaning@.subrange(0, 1)[0] != '\\');
            }
        }
    }
    if text::begins_with(leaning.as_str(), "\\") {
        return leaning;
    }
    let mut result: String = "\\".to_owned();
    result.append(leaning.as_str());
    result
}

// ---------------------------------------------------------------------------------------------
// Rows

/// The sign before a header.
pub open spec fn icon(expanded: bool) -> Seq<char> {
    if expanded {
        "▼"@
    } else {
        "▶"@
    }
}

/// A header: its sign, its name and how many moves it has.
pub open spec fn heading(expanded: bool, name: Seq<char>, count: nat) -> Seq<char> {
    icon(expanded) + " "@ + name + " ("@ + text::decimal(count) + ")"@
}

/// What follows the place of a file: why it goes there, and whether another file goes there too.
pub open spec fn remark(reason: Seq<char>, has_conflict: bool) -> Seq<char> {
    " | "@ + reason + " | "@ + if has_conflict {
        "[CONFLICT]"@
    } else {
        ""@
    }
}

/// A row of the output pane.
pub open spec fn output_text(app: UiView, row: RowView) -> Seq<char> {
    match row {
        RowView::SlugHeader { slug, count, expanded } => heading(expanded, slug, count),
        RowView::GameHeader { game, count, reason, has_conflict, expanded, .. } => "  "@ + heading(
            expanded,
            game,
            count,
        ) + remark(reason, has_conflict),
        RowView::Item { plan_index } => {
            let item = app.plan[plan_index];
            let place = match item.destination {
                Some(destination) => shown_below(app.output_root, destination),
                None => "Unclassified"@,
            };
            "    "@ + place + remark(item.reason, item.has_conflict)
        },
    }
}

/// How a row looks.
pub open spec fn row_style(app: UiView, row: RowView) -> TextStyle {
    match row {
        RowView::SlugHeader { .. } => colored(Color::Cyan),
        RowView::GameHeader { .. } => colored(Color::Magenta),
        RowView::Item { plan_index } => move_style(ui::is_enabled(app, plan_index)),
    }
}

/// A row of the input pane.
pub open spec fn input_row(app: UiView, row: RowView) -> InputRowView {
    match row {
        RowView::SlugHeader { slug, count, expanded } => InputRowView {
            path: heading(expanded, slug, count),
            style: row_style(app, row),
            confidence: ""@,
            confidence_style: None,
        },
        RowView::GameHeader { game, count, confidence, expanded, .. } => InputRowView {
            path: "  "@ + heading(expanded, game, count),
            style: row_style(app, row),
            confidence: confidence.word(),
            confidence_style: Some(word_style(confidence, true)),
        },
        RowView::Item { plan_index } => {
            let item = app.plan[plan_index];
            InputRowView {
                path: "    "@ + shown_below(app.source_root, item.source),
                style: row_style(app, row),
                confidence: item.confidence.word(),
                confidence_style: Some(
                    word_style(item.confidence, ui::is_enabled(app, plan_index)),
                ),
            }
        },
    }
}

/// A header: its sign, its name and how many moves it has.
fn heading_text(expanded: bool, name: &str, count: usize) -> (result: String)
    ensures
        result@ == heading(expanded, name@, count as nat),
{
    let sign: &str = if expanded {
        "▼"
    } else {
        "▶"
    };
    let count: String = text::decimal_text(count);
    let mut result: String = sign.to_owned();
    result.append(" ");
    result.append(name);
    result.append(" (");
    result.append(count.as_str());
    result.append(")");
    result
}

/// What follows the place of a file.
fn remark_text(reason: &str, has_conflict: bool) -> (result: String)
    ensures
        result@ == remark(reason@, has_conflict),
{
    let mut result: String = " | ".to_owned();
    result.append(reason);
    result.append(" | ");
    if has_conflict {
        result.append("[CONFLICT]");
    } else {
        result.append("");
    }
    result
}

/// A row of the output pane, and how it looks.
pub fn output_row_text(app: &UiState, row: &DisplayRow) -> (result: (String, TextStyle))
    requires
        row@ matches RowView::Item { plan_index } ==> plan_index < app@.plan.len(),
    ensures
        result.0@ == output_text(app@, row@),
        result.1 == row_style(app@, row@),
{
    match row {
        DisplayRow::SlugHeader { slug, count, expanded } => (
            heading_text(*expanded, slug.as_str(), *count),
            TextStyle { color: Some(Color::Cyan), bold: false, dim: false },
        ),
        DisplayRow::GameHeader { game, count, reason, has_conflict, expanded, .. } => {
            let header: String = heading_text(*expanded, game.as_str(), *count);
            let remark: String = remark_text(reason.as_str(), *has_conflict);
            let mut result: String = "  ".to_owned();
            result.append(header.as_str());
            result.append(remark.as_str());
            (result, TextStyle { color: Some(Color::Magenta), bold: false, dim: false })
        },
        DisplayRow::Item { plan_index } => {
            let item = &app.view.plan[*plan_index];
            assert(app@.plan[*plan_index as int] == item@);
            let place: String = match &item.destination {
                Some(destination) => relative_display(&app.view.output_root, destination),
                None => "Unclassified".to_owned(),
            };
            let remark: String = remark_text(item.reason.as_str(), item.has_conflict);
            let mut result: String = "    ".to_owned();
            result.append(place.as_str());
            result.append(remark.as_str());
            (result, transfer_state_style(ui::is_item_enabled(app, *plan_index)))
        },
    }
}

/// A row of the input pane.
pub fn input_row_text(app: &UiState, row: &DisplayRow) -> (result: InputRow)
    requires
        row@ matches RowView::Item { plan_index } ==> plan_index < app@.plan.len(),
    ensures
        result@ == input_row(app@, row@),
{
    match row {
        DisplayRow::SlugHeader { slug, count, expanded } => InputRow {
            path: heading_text(*expanded, slug.as_str(), *count),
            style: TextStyle { color: Some(Color::Cyan), bold: false, dim: false },
            confidence: "",
            confidence_style: None,
        },
        DisplayRow::GameHeader { game, count, confidence, expanded, .. } => {
            let header: String = heading_text(*expanded, game.as_str(), *count);
            let mut path: String = "  ".to_owned();
            path.append(header.as_str());
            InputRow {
                path,
                style: TextStyle { color: Some(Color::Magenta), bold: false, dim: false },
                confidence: confidence.as_str(),
                confidence_style: Some(confidence_style(*confidence, true)),
            }
        },
        DisplayRow::Item { plan_index } => {
            let item = &app.view.plan[*plan_index];
            assert(app@.plan[*plan_index as int] == item@);
            let enabled: bool = ui::is_item_enabled(app, *plan_index);
            let source: String = relative_display(&app.view.source_root, &item.source);
            let mut path: String = "    ".to_owned();
            path.append(source.as_str());
            InputRow {
                path,
                style: transfer_state_style(enabled),
                confidence: item.confidence.as_str(),
                confidence_style: Some(confidence_style(item.confidence, enabled)),
            }
        },
    }
}

// ---------------------------------------------------------------------------------------------
// The footer

/// What would become of the moves.
pub open spec fn sanity_line(app: UiView) -> Seq<char> {
    let count = app.plan.len();
    app.transfer_mode.label() + " sanity check: ready "@ + text::decimal(
        transfer::fated(app.plan, app.disabled, Fate::Ready, count),
    ) + " | skipped disabled "@ + text::decimal(
        transfer::fated(app.plan, app.disabled, Fate::Disabled, count),
    ) + " | conflicts "@ + text::decimal(
        transfer::fated(app.plan, app.disabled, Fate::Conflict, count),
    ) + " | unclassified "@ + text::decimal(
        transfer::fated(app.plan, app.disabled, Fate::Unclassified, count),
    )
}

/// How many moves are not switched off.
pub open spec fn enabled_count(app: UiView) -> nat {
    if app.disabled.len() > app.plan.len() {
        0
    } else {
        (app.plan.len() - app.disabled.len()) as nat
    }
}

/// What the scan came to, and how much of it is switched on.
pub open spec fn counts_line(app: UiView) -> Seq<char> {
    "Scanned: "@ + text::decimal(app.summary.scanned_files as nat) + " | Classified: "@
        + text::decimal(app.summary.planned_moves as nat) + " | Unclassified: "@ + text::decimal(
        app.summary.unclassified as nat,
    ) + " | Conflicts: "@ + text::decimal(app.summary.conflicts as nat) + " | Skipped: "@
        + text::decimal(app.summary.skipped as nat) + " | Enabled: "@ + text::decimal(
        enabled_count(app),
    ) + " | Disabled: "@ + text::decimal(app.disabled.len())
}

/// Adds a label and a number to a text.
fn append_count(line: &mut String, label: &str, count: usize)
    ensures
        final(line)@ == old(line)@ + label@ + text::decimal(count as nat),
{
    let digits: String = text::decimal_text(count);
    line.append(label);
    line.append(digits.as_str());
}

/// The two lines of the footer.
pub fn footer_lines(app: &UiState) -> (result: (String, String))
    ensures
        result.0@ == sanity_line(app@),
        result.1@ == counts_line(app@),
{
    let (ready, unclassified, conflicts, disabled) = ui::transfer_sanity_counts(app);
    let mut sanity: String = app.view.transfer_mode.prompt_label().to_owned();
    append_count(&mut sanity, " sanity check: ready ", ready);
    append_count(&mut sanity, " | skipped disabled ", disabled);
    append_count(&mut sanity, " | conflicts ", conflicts);
    append_count(&mut sanity, " | unclassified ", unclassified);
    let total_items: usize = app.view.plan.len();
    let disabled_items: usize = app.disabled_plan_indices.len();
    let enabled_items: usize = total_items.saturating_sub(disabled_items);
    let scanned: String = text::decimal_text(app.view.summary.scanned_files);
    let mut counts: String = "Scanned: ".to_owned();
    counts.append(scanned.as_str());
    append_count(&mut counts, " | Classified: ", app.view.summary.planned_moves);
    append_count(&mut counts, " | Unclassified: ", app.view.summary.unclassified);
    append_count(&mut counts, " | Conflicts: ", app.view.summary.conflicts);
    append_count(&mut counts, " | Skipped: ", app.view.summary.skipped);
    append_count(&mut counts, " | Enabled: ", enabled_items);
    append_count(&mut counts, " | Disabled: ", disabled_items);
    (sanity, counts)
}

/// What the user is asked at the end.
pub fn question(mode: TransferMode) -> (result: String)
    ensures
        result@ == mode.label() + "? "@,
{
    let mut result: String = mode.prompt_label().to_owned();
    result.append("? ");
    result
}

// ---------------------------------------------------------------------------------------------
// Windows

/// The lines of the window that is shown during a scan.
#[derive(Debug)]
pub struct LoadingLines {
    pub phase: String,
    pub phase_counter: String,
    pub current: String,
    pub progress: String,
}

/// The lines of the window that is shown during a transfer.
#[derive(Debug)]
pub struct TransferLines {
    pub phase: String,
    pub source: String,
    pub destination: String,
    pub counters: String,
    pub progress: String,
}

/// A number, but one at least.
pub open spec fn at_least_one(number: nat) -> nat {
    if number == 0 {
        1
    } else {
        number
    }
}

impl LoadingLines {
    /// The lines tell how far a scan has got.
    pub open spec fn tell(self, state: LoadingView) -> bool {
        &&& self.phase@ == "Phase: "@ + state.phase
        &&& self.phase_counter@ == "Phase "@ + text::decimal(at_least_one(state.phase_index)) + "/"@
            + text::decimal(at_least_one(state.phase_total))
        &&& self.current@ == "Current: "@ + without_verbatim(state.current)
        &&& self.progress@ == "Phase progress "@ + text::decimal(state.processed) + "/"@
            + text::decimal(state.total)
    }
}

impl TransferLines {
    /// The lines tell how far a transfer has got.
    pub open spec fn tell(self, state: TransferView, title: Seq<char>) -> bool {
        &&& self.phase@ == "Phase: "@ + state.phase
        &&& self.source@ == "Source: "@ + without_verbatim(state.source)
        &&& self.destination@ == "Destination: "@ + without_verbatim(state.destination)
        &&& self.counters@ == "Processed: "@ + text::decimal(state.processed) + " / "@
            + text::decimal(state.total) + " | Transferred: "@ + text::decimal(state.transferred)
            + " | Skipped: "@ + text::decimal(state.skipped)
        &&& self.progress@ == title + " progress "@ + text::decimal(state.processed) + "/"@
            + text::decimal(state.total)
    }
}

/// A label and what it is about.
fn labeled(label: &str, about: &str) -> (result: String)
    ensures
        result@ == label@ + about@,
{
    let mut result: String = label.to_owned();
    result.append(about);
    result
}

/// Two numbers after a label, with a separator between them.
fn labeled_pair(label: &str, first: usize, separator: &str, second: usize) -> (result: String)
    ensures
        result@ == label@ + text::decimal(first as nat) + separator@ + text::decimal(
            second as nat,
        ),
{
    let digits: String = text::decimal_text(first);
    let mut result: String = labeled(label, digits.as_str());
    append_count(&mut result, separator, second);
    result
}

/// The lines of the window that is shown during a scan.
pub fn loading_lines(state: &LoadingUpdate) -> (result: LoadingLines)
    ensures
        result.tell(state@),
{
    let index: usize = if state.phase_index == 0 {
        1
    } else {
        state.phase_index
    };
    let total: usize = if state.phase_total == 0 {
        1
    } else {
        state.phase_total
    };
    let current: String = normalize_windows_display_path(state.current.as_str());
    LoadingLines {
        phase: labeled("Phase: ", state.phase.as_str()),
        phase_counter: labeled_pair("Phase ", index, "/", total),
        current: labeled("Current: ", current.as_str()),
        progress: labeled_pair("Phase progress ", state.processed, "/", state.total),
    }
}

/// The lines of the window that is shown during a transfer.
pub fn transfer_lines(state: &TransferUpdate, title: &str) -> (result: TransferLines)
    ensures
        result.tell(state@, title@),
{
    let source: String = normalize_windows_display_path(state.source.as_str());
    let destination: String = normalize_windows_display_path(state.destination.as_str());
    let mut counters: String = labeled_pair("Processed: ", state.processed, " / ", state.total);
    append_count(&mut counters, " | Transferred: ", state.transferred);
    append_count(&mut counters, " | Skipped: ", state.skipped);
    let mut progress: String = title.to_owned();
    append_count(&mut progress, " progress ", state.processed);
    append_count(&mut progress, "/", state.total);
    TransferLines {
        phase: labeled("Phase: ", state.phase.as_str()),
        source: labeled("Source: ", source.as_str()),
        destination: labeled("Destination: ", destination.as_str()),
        counters,
        progress,
    }
}

/// What stands on the button that cancels work.
pub open spec fn cancel_text(cancelled: bool) -> Seq<char> {
    if cancelled {
        "Canceling..."@
    } else {
        "[ Cancel ]"@
    }
}

/// What stands on the button that cancels work.
pub fn cancel_label(cancelled: bool) -> (result: &'static str)
    ensures
        result@ == cancel_text(cancelled),
{
    if cancelled {
        "Canceling..."
    } else {
        "[ Cancel ]"
    }
}

// ---------------------------------------------------------------------------------------------
// Last words

/// How a run ends, if nothing goes wrong.
#[derive(Debug, Clone, Copy, PartialEq, Eq, Structural)]
pub enum Ending {
    ScanCanceled,
    /// The user did not confirm the transfer.
    Declined,
    TransferCanceled,
    Complete(TransferStats),
}

/// What the user is told at the end.
pub open spec fn last_words(mode: TransferMode, ending: Ending) -> Seq<char> {
    match ending {
        Ending::ScanCanceled => "Scan canceled. No files were transferred."@,
        Ending::Declined => mode.label() + " canceled. No files were transferred."@,
        Ending::TransferCanceled => mode.label() + " canceled during transfer."@,
        Ending::Complete(stats) => mode.label() + " complete: "@ + text::decimal(
            stats.transferred as nat,
        ) + " transferred | "@ + text::decimal(stats.skipped as nat)
            + " skipped (unclassified/conflict/disabled)"@,
    }
}

/// What the user is told at the end.
pub fn ending_message(mode: TransferMode, ending: Ending) -> (result: String)
    ensures
        result@ == last_words(mode, ending),
{
    match ending {
        Ending::ScanCanceled => "Scan canceled. No files were transferred.".to_owned(),
        Ending::Declined => labeled(
            mode.prompt_label(),
            " canceled. No files were transferred.",
        ),
        Ending::TransferCanceled => labeled(mode.prompt_label(), " canceled during transfer."),
        Ending::Complete(stats) => {
            let mut result: String = mode.prompt_label().to_owned();
            append_count(&mut result, " complete: ", stats.transferred);
            append_count(&mut result, " transferred | ", stats.skipped);
            result.append(" skipped (unclassified/conflict/disabled)");
            result
        },
    }
}

// ---------------------------------------------------------------------------------------------
// Laws

/// A path below a folder is shown from a backslash on, and without slashes that lean forward.
pub proof fn lemma_shown_from_backslash(root: PathView, path: PathView)
    ensures
        shown_below(root, path).len() > 0,
        shown_below(root, path)[0] == '\\',
        !shown_below(root, path).contains('/'),
{
    reveal_strlit("\\");
    assert("\\"@ =~= seq!['\\']);
}

/// The part of `disabled` below `count`.
spec fn below(disabled: Set<usize>, count: nat) -> Set<usize> {
    disabled.filter(|index: usize| (index as int) < count)
}

proof fn lemma_disabled_below(plan: Seq<crate::model::MoveView>, disabled: Set<usize>, count: nat)
    requires
        disabled.finite(),
        count <= usize::MAX,
    ensures
        transfer::fated(plan, disabled, Fate::Disabled, count) == below(disabled, count).len(),
        below(disabled, count).finite(),
    decreases count,
{
    if count == 0 {
        assert(below(disabled, 0) =~= Set::<usize>::empty());
    } else {
        let last = (count - 1) as usize;
        lemma_disabled_below(plan, disabled, (count - 1) as nat);
        if disabled.contains(last) {
            assert(below(disabled, count) =~= below(disabled, (count - 1) as nat).insert(last));
        } else {
            assert(below(disabled, count) =~= below(disabled, (count - 1) as nat));
        }
    }
}

/// Both lines of the footer show the same number of moves as switched off, and all others are
/// shown as switched on.
pub proof fn lemma_footer_agrees_with_itself(app: UiView)
    requires
        app.switches_moves(),
        app.disabled.finite(),
        app.plan.len() <= usize::MAX,
    ensures
        transfer::fated(app.plan, app.disabled, Fate::Disabled, app.plan.len())
            == app.disabled.len(),
        enabled_count(app) == transfer::fated(app.plan, app.disabled, Fate::Ready, app.plan.len())
            + transfer::fated(app.plan, app.disabled, Fate::Conflict, app.plan.len())
            + transfer::fated(app.plan, app.disabled, Fate::Unclassified, app.plan.len()),
{
    lemma_disabled_below(app.plan, app.disabled, app.plan.len());
    assert(below(app.disabled, app.plan.len()) =~= app.disabled);
    transfer::lemma_fates_are_complete(app.plan, app.disabled, app.plan.len());
}

}
