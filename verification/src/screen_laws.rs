//! What the user reads, character by character, and what it does not depend on.

use vstd::prelude::*;
use crate::model::{Confidence, TransferMode};
use crate::paths;
use crate::paths::{PartView, PathView};
use crate::progress;
use crate::progress::{LoadingView, TransferView};
use crate::rows::RowView;
use crate::scanner::ProgressView;
use crate::screen;
use crate::screen::{Color, Ending, LoadingLines, TextStyle, TransferLines};
use crate::text;
use crate::text_laws;
use crate::transfer::TransferStats;
use crate::ui::{SelectionState, UiView};

verus! {

// ---------------------------------------------------------------------------------------------
// Looks

/// The box has a cross where all moves are on, a dash where some are, and nothing where none is; it
/// is green, yellow or red, and dim in the last case only.
pub proof fn lemma_boxes_tell_the_states_apart(state: SelectionState)
    ensures
        screen::checkbox(state).len() == 3,
        screen::checkbox(state)[0] == '[',
        screen::checkbox(state)[2] == ']',
        screen::checkbox(state)[1] == 'x' <==> state == SelectionState::All,
        screen::checkbox(state)[1] == '-' <==> state == SelectionState::Part,
        screen::checkbox(state)[1] == ' ' <==> state == SelectionState::Nothing,
        screen::checkbox_style(state).color == Some(Color::Green) <==> state
            == SelectionState::All,
        screen::checkbox_style(state).color == Some(Color::Yellow) <==> state
            == SelectionState::Part,
        screen::checkbox_style(state).color == Some(Color::Red) <==> state
            == SelectionState::Nothing,
        screen::checkbox_style(state).dim <==> state == SelectionState::Nothing,
        screen::checkbox_style(state).bold <==> state != SelectionState::Nothing,
{
    reveal_strlit("[x]");
    reveal_strlit("[-]");
    reveal_strlit("[ ]");
}

/// Each confidence has a word and a color of its own; the word is bold where the move is on, and dim
/// where it is off.
pub proof fn lemma_words_tell_confidences_apart(one: Confidence, other: Confidence, enabled: bool)
    ensures
        one.word() == other.word() <==> one == other,
        screen::word_style(one, enabled).color == screen::word_style(other, enabled).color <==> one
            == other,
        screen::word_style(one, enabled).bold == enabled,
        screen::word_style(one, enabled).dim == !enabled,
        one == Confidence::Exact ==> one.word() == seq!['e', 'x', 'a', 'c', 't'],
        one == Confidence::High ==> one.word() == seq!['h', 'i', 'g', 'h'],
        one == Confidence::Ambiguous ==> one.word() == seq![
            'a',
            'm',
            'b',
            'i',
            'g',
            'u',
            'o',
            'u',
            's',
        ],
        one == Confidence::Unknown ==> one.word() == seq!['u', 'n', 'k', 'n', 'o', 'w', 'n'],
        screen::word_style(one, enabled).color == Some(Color::Green) <==> one == Confidence::Exact,
        screen::word_style(one, enabled).color == Some(Color::Cyan) <==> one == Confidence::High,
        screen::word_style(one, enabled).color == Some(Color::Yellow) <==> one
            == Confidence::Ambiguous,
        screen::word_style(one, enabled).color == Some(Color::Red) <==> one == Confidence::Unknown,
{
    reveal_strlit("exact");
    reveal_strlit("high");
    reveal_strlit("ambiguous");
    reveal_strlit("unknown");
    assert("exact"@ =~= seq!['e', 'x', 'a', 'c', 't']);
    assert("high"@ =~= seq!['h', 'i', 'g', 'h']);
    assert("ambiguous"@ =~= seq!['a', 'm', 'b', 'i', 'g', 'u', 'o', 'u', 's']);
    assert("unknown"@ =~= seq!['u', 'n', 'k', 'n', 'o', 'w', 'n']);
    assert("exact"@[0] == 'e' && "high"@[0] == 'h' && "ambiguous"@[0] == 'a' && "unknown"@[0]
        == 'u');
}

/// What is asked names the way in which files are transferred.
pub proof fn lemma_question_names_the_mode(mode: TransferMode)
    ensures
        mode == TransferMode::Copy ==> mode.label() == seq![
            'C',
            'o',
            'p',
            'y',
            ' ',
            'F',
            'i',
            'l',
            'e',
            's',
        ],
        mode == TransferMode::Move ==> mode.label() == seq![
            'M',
            'o',
            'v',
            'e',
            ' ',
            'F',
            'i',
            'l',
            'e',
            's',
        ],
{
    reveal_strlit("Copy Files");
    reveal_strlit("Move Files");
    assert("Copy Files"@ =~= seq!['C', 'o', 'p', 'y', ' ', 'F', 'i', 'l', 'e', 's']);
    assert("Move Files"@ =~= seq!['M', 'o', 'v', 'e', ' ', 'F', 'i', 'l', 'e', 's']);
}

/// A row of a move that is off is gray and dim, one that is on has its usual look; headers of
/// platforms and games have colors of their own, whatever is on or off.
pub proof fn lemma_looks_of_rows(app: UiView, row: RowView)
    ensures
        row matches RowView::Item { plan_index } ==> 0 <= plan_index <= usize::MAX ==> (
        app.disabled.contains(plan_index as usize) ==> screen::row_style(app, row) == (TextStyle {
            color: Some(Color::DarkGray),
            bold: false,
            dim: true,
        })) && (!app.disabled.contains(plan_index as usize) ==> screen::row_style(app, row) == (
        TextStyle { color: None, bold: false, dim: false })),
        row is SlugHeader ==> screen::row_style(app, row) == (TextStyle {
            color: Some(Color::Cyan),
            bold: false,
            dim: false,
        }),
        row is GameHeader ==> screen::row_style(app, row) == (TextStyle {
            color: Some(Color::Magenta),
            bold: false,
            dim: false,
        }),
{
}

// ---------------------------------------------------------------------------------------------
// Paths

/// A verbatim share is shown as a share, another verbatim path without its mark, and any other path
/// as it is.
pub proof fn lemma_marks_are_left_out(rest: Seq<char>, path: Seq<char>)
    ensures
        screen::without_verbatim(seq!['\\', '\\', '?', '\\', 'U', 'N', 'C', '\\'] + rest) == seq![
            '\\',
            '\\',
        ] + rest,
        !text_laws::stands_at(rest, seq!['U', 'N', 'C', '\\'], 0) ==> screen::without_verbatim(
            seq!['\\', '\\', '?', '\\'] + rest,
        ) == rest,
        !text_laws::stands_at(path, seq!['\\', '\\', '?', '\\'], 0) ==> screen::without_verbatim(
            path,
        ) == path,
{
    reveal_strlit("\\\\?\\UNC\\");
    reveal_strlit("\\\\?\\");
    reveal_strlit("\\\\");
    let share = seq!['\\', '\\', '?', '\\', 'U', 'N', 'C', '\\'];
    let mark = seq!['\\', '\\', '?', '\\'];
    assert("\\\\?\\UNC\\"@ =~= share);
    assert("\\\\?\\"@ =~= mark);
    assert("\\\\"@ =~= seq!['\\', '\\']);
    assert((share + rest).subrange(0, 8) =~= share);
    assert((share + rest).skip(8) =~= rest);
    assert((mark + rest).subrange(0, 4) =~= mark);
    assert((mark + rest).skip(4) =~= rest);
    if text::is_at(mark + rest, share, 0) {
        let own = (mark + rest).subrange(0, 8);
        assert(own == share);
        let name = seq!['U', 'N', 'C', '\\'];
        assert forall|k: int| 0 <= k < name.len() implies rest[k] == #[trigger] name[k] by {
            assert(rest[k] == own[k + 4]);
            assert(share[k + 4] == name[k]);
        }
        assert(text_laws::stands_at(rest, name, 0));
    }
    if text::is_at(path, mark, 0) {
        let own = path.subrange(0, 4);
        assert forall|k: int| 0 <= k < mark.len() implies path[0 + k] == #[trigger] mark[k] by {
            assert(path[k] == own[k]);
        }
    }
    if text::is_at(path, share, 0) {
        let own = path.subrange(0, 8);
        assert forall|k: int| 0 <= k < mark.len() implies path[0 + k] == #[trigger] mark[k] by {
            assert(path[k] == own[k]);
            assert(share[k] == mark[k]);
        }
    }
}

/// Slashes lean backward, and every other character stays.
pub proof fn lemma_slashes_lean_back(path: Seq<char>, k: int)
    requires
        0 <= k < path.len(),
    ensures
        screen::leaning_back(path).len() == path.len(),
        path[k] == '/' ==> screen::leaning_back(path)[k] == '\\',
        path[k] != '/' ==> screen::leaning_back(path)[k] == path[k],
{
}

/// A backslash and then a name, for each name in turn.
pub open spec fn after_backslashes(names: Seq<Seq<char>>) -> Seq<char>
    decreases names.len(),
{
    if names.len() == 0 {
        Seq::empty()
    } else {
        after_backslashes(names.drop_last()) + seq!['\\'] + names.last()
    }
}

/// A name without separators.
pub open spec fn is_whole(name: Seq<char>) -> bool {
    !name.contains('/') && !name.contains('\\')
}

/// What lies below a folder is shown from that folder on, with a backslash before each name.
pub proof fn lemma_shown_from_its_folder(
    root: PathView,
    path: PathView,
    names: Seq<Seq<char>>,
)
    requires
        root.parts.len() > 0,
        !(root.parts.last() is Prefix),
        names.len() > 0,
        names[0].len() > 0,
        names != seq![seq!['.']],
        forall|k: int| 0 <= k < names.len() ==> is_whole(#[trigger] names[k]),
        path.parts == root.parts + names.map_values(|name: Seq<char>| PartView::Name(name)),
        path.gaps.len() >= path.parts.len(),
        forall|k: int|
            root.parts.len() < k < path.parts.len() ==> #[trigger] path.gaps[k] == seq!['\\']
                || path.gaps[k] == seq!['/'],
    ensures
        screen::shown_below(root, path) == after_backslashes(names),
{
    let rest = names.map_values(|name: Seq<char>| PartView::Name(name));
    let base = root.parts.len() as int;
    assert(path.parts.take(base) =~= root.parts);
    assert(path.parts.skip(base) =~= rest);
    let relative = paths::stripped(path, root.parts).unwrap();
    assert(path.parts[base - 1] == root.parts.last());
    assert(path.parts.last() == rest.last());
    assert(relative.parts == rest);
    assert(relative.tail =~= Seq::<char>::empty());
    assert forall|k: int| 0 < k < names.len() implies relative.gaps[k] == seq!['\\']
        || relative.gaps[k] == seq!['/'] by {
        assert(paths::gaps_of(path)[base + k] == path.gaps[base + k]);
    }
    lemma_names_lean_back(relative.style, names, relative.gaps);
    let written = paths::written(relative.style, rest, relative.gaps);
    assert(paths::shown(relative) =~= written);
    let leaning = screen::leaning_back(written);
    assert(after_backslashes(names) == seq!['\\'] + leaning);
    lemma_first_name_first(names);
    reveal_strlit(".");
    reveal_strlit("\\");
    assert("\\"@ =~= seq!['\\']);
    assert("."@ =~= seq!['.']);
    assert(leaning =~= (seq!['\\'] + leaning).skip(1));
    assert(leaning[0] == names[0][0]);
    assert(names[0][0] != '\\') by {
        if names[0][0] == '\\' {
            assert(names[0].contains('\\'));
        }
    }
    if leaning == "."@ {
        assert(seq!['\\'] + leaning =~= seq!['\\', '.']);
        lemma_alone_if_short(names);
    }
}

proof fn lemma_first_name_first(names: Seq<Seq<char>>)
    requires
        names.len() > 0,
    ensures
        after_backslashes(names).len() >= 1 + names[0].len(),
        forall|k: int|
            0 <= k < names[0].len() ==> after_backslashes(names)[1 + k] == #[trigger] names[0][k],
        names.len() > 1 ==> after_backslashes(names).len() >= 2 + names[0].len(),
    decreases names.len(),
{
    if names.len() == 1 {
        assert(names.drop_last() =~= Seq::<Seq<char>>::empty());
        assert(after_backslashes(names) =~= seq!['\\'] + names[0]);
    } else {
        lemma_first_name_first(names.drop_last());
        assert(names.drop_last()[0] == names[0]);
    }
}

proof fn lemma_alone_if_short(names: Seq<Seq<char>>)
    requires
        names.len() > 0,
        names[0].len() > 0,
        after_backslashes(names) == seq!['\\', '.'],
    ensures
        names == seq![seq!['.']],
{
    lemma_first_name_first(names);
    assert(names[0][0] == after_backslashes(names)[1 + 0int]);
    assert(names[0] =~= seq!['.']);
    assert(names =~= seq![seq!['.']]);
}

proof fn lemma_names_lean_back(
    style: crate::paths::PathStyle,
    names: Seq<Seq<char>>,
    gaps: Seq<Seq<char>>,
)
    requires
        names.len() > 0,
        gaps.len() >= names.len(),
        gaps[0].len() == 0,
        forall|k: int| 0 <= k < names.len() ==> is_whole(#[trigger] names[k]),
        forall|k: int|
            0 < k < names.len() ==> #[trigger] gaps[k] == seq!['\\'] || gaps[k] == seq!['/'],
    ensures
        after_backslashes(names) == seq!['\\'] + screen::leaning_back(
            paths::written(
                style,
                names.map_values(|name: Seq<char>| PartView::Name(name)),
                gaps,
            ),
        ),
    decreases names.len(),
{
    let parts = names.map_values(|name: Seq<char>| PartView::Name(name));
    let less = names.drop_last();
    assert(parts.drop_last() =~= less.map_values(|name: Seq<char>| PartView::Name(name)));
    let name = names.last();
    assert(is_whole(names[names.len() - 1]));
    let whole = paths::written(style, parts, gaps);
    let before = paths::written(style, parts.drop_last(), gaps);
    let gap = paths::gap_at(gaps, parts.len() - 1);
    assert(paths::part_written(style, parts.last()) == name);
    assert(whole == before + gap + name);
    assert forall|k: int| 0 <= k < name.len() implies name[k] != '/' by {
        if name[k] == '/' {
            assert(name.contains('/'));
        }
    }
    assert(screen::leaning_back(name) =~= name);
    if names.len() == 1 {
        assert(parts.drop_last() =~= Seq::<PartView>::empty());
        assert(whole =~= name);
        assert(less =~= Seq::<Seq<char>>::empty());
        assert(after_backslashes(less) =~= Seq::<char>::empty());
        assert(after_backslashes(names) =~= seq!['\\'] + name);
    } else {
        assert forall|k: int| 0 <= k < less.len() implies is_whole(#[trigger] less[k]) by {
            assert(is_whole(names[k]));
        }
        lemma_names_lean_back(style, less, gaps);
        assert(gap == gaps[names.len() - 1]);
        assert(screen::leaning_back(gap) =~= seq!['\\']);
        assert(screen::leaning_back(whole) =~= screen::leaning_back(before)
            + screen::leaning_back(gap) + screen::leaning_back(name));
        assert(after_backslashes(names) =~= seq!['\\'] + screen::leaning_back(whole));
    }
}

/// The folder itself is shown as a backslash.
pub proof fn lemma_folder_itself_is_a_backslash(root: PathView)
    requires
        root.parts.len() == 0 || !(root.parts.last() is Prefix),
    ensures
        screen::shown_below(root, root) == seq!['\\'],
{
    reveal_strlit("\\");
    assert("\\"@ =~= seq!['\\']);
    assert(root.parts.take(root.parts.len() as int) =~= root.parts);
    let relative = paths::stripped(root, root.parts).unwrap();
    assert(relative.parts =~= Seq::<PartView>::empty());
    assert(paths::shown(relative) =~= Seq::<char>::empty());
    assert(screen::leaning_back(paths::shown(relative)) =~= Seq::<char>::empty());
}

/// What lies elsewhere is shown as a whole.
pub proof fn lemma_elsewhere_is_shown_as_a_whole(root: PathView, path: PathView, at: int)
    requires
        0 <= at < root.parts.len(),
        at < path.parts.len() ==> !crate::path_laws::same_or_prefixes(path.parts[at], root.parts[at]),
        paths::shown(path).len() > 1,
    ensures
        paths::shown(path)[0] == '/' || paths::shown(path)[0] == '\\' ==> screen::shown_below(
            root,
            path,
        ) == screen::leaning_back(paths::shown(path)),
        paths::shown(path)[0] != '/' && paths::shown(path)[0] != '\\' ==> screen::shown_below(
            root,
            path,
        ) == seq!['\\'] + screen::leaning_back(paths::shown(path)),
{
    crate::path_laws::lemma_elsewhere(path.parts, root.parts, at);
    reveal_strlit(".");
    reveal_strlit("\\");
    assert("\\"@ =~= seq!['\\']);
    assert("."@.len() == 1);
}

/// Scrolling to the side leaves out as many characters as it goes, and no others.
pub proof fn lemma_first_characters_are_left_out(before: Seq<char>, after: Seq<char>, more: nat)
    ensures
        screen::without_first(before + after, before.len()) == after,
        screen::without_first(after, after.len() + more) == Seq::<char>::empty(),
{
    assert((before + after).skip(before.len() as int) =~= after);
    if after.len() == 0 {
        assert(after =~= Seq::<char>::empty());
    }
}

// ---------------------------------------------------------------------------------------------
// Rows

/// A header has a sign that points down where it is expanded and to the right where it is not, then
/// its name, and how many moves it has in brackets; a game's header stands two cells to the right.
pub proof fn lemma_headers(
    app: UiView,
    slug: Seq<char>,
    game: Seq<char>,
    count: nat,
    expanded: bool,
    confidence: Confidence,
    reason: Seq<char>,
    has_conflict: bool,
)
    ensures
        ({
            let sign = if expanded {
                '▼'
            } else {
                '▶'
            };
            let platform = RowView::SlugHeader { slug, count, expanded };
            let own = RowView::GameHeader {
                slug,
                game,
                count,
                confidence,
                reason,
                has_conflict,
                expanded,
            };
            let named = seq![sign, ' '] + slug + seq![' ', '('] + text::decimal(count) + seq![')'];
            let called = seq![' ', ' ', sign, ' '] + game + seq![' ', '('] + text::decimal(count)
                + seq![')'];
            &&& screen::output_text(app, platform) == named
            &&& screen::input_row(app, platform).path == named
            &&& screen::input_row(app, platform).confidence.len() == 0
            &&& screen::input_row(app, platform).confidence_style is None
            &&& screen::input_row(app, own).path == called
            &&& screen::input_row(app, own).confidence == confidence.word()
            &&& screen::input_row(app, own).confidence_style == Some(
                screen::word_style(confidence, true),
            )
            &&& screen::output_text(app, own) == called + tells(reason, has_conflict)
        }),
{
    lemma_remark(reason, has_conflict);
    reveal_strlit("▼");
    reveal_strlit("▶");
    reveal_strlit(" ");
    reveal_strlit("  ");
    reveal_strlit(" (");
    reveal_strlit(")");
    reveal_strlit("");
    let sign = if expanded {
        '▼'
    } else {
        '▶'
    };
    assert(screen::icon(expanded) =~= seq![sign]);
    let named = seq![sign, ' '] + slug + seq![' ', '('] + text::decimal(count) + seq![')'];
    assert(screen::heading(expanded, slug, count) =~= named);
    let called = seq![' ', ' ', sign, ' '] + game + seq![' ', '('] + text::decimal(count) + seq![
        ')',
    ];
    assert("  "@ + screen::heading(expanded, game, count) =~= called);
}

/// Why files go where they go, and whether another file goes there too.
pub open spec fn tells(reason: Seq<char>, has_conflict: bool) -> Seq<char> {
    let told = seq![' ', '|', ' '] + reason + seq![' ', '|', ' '];
    if has_conflict {
        told + seq!['[', 'C', 'O', 'N', 'F', 'L', 'I', 'C', 'T', ']']
    } else {
        told
    }
}

proof fn lemma_remark(reason: Seq<char>, has_conflict: bool)
    ensures
        screen::remark(reason, has_conflict) == tells(reason, has_conflict),
{
    reveal_strlit(" | ");
    reveal_strlit("[CONFLICT]");
    reveal_strlit("");
    assert("[CONFLICT]"@ =~= seq!['[', 'C', 'O', 'N', 'F', 'L', 'I', 'C', 'T', ']']);
    assert(screen::remark(reason, has_conflict) =~= tells(reason, has_conflict));
}

/// The row of a move shows where the file is and where it goes, four cells to the right, why, and
/// whether it is in conflict; a file without a destination is said to be unclassified.
pub proof fn lemma_rows_of_moves(app: UiView, at: int)
    requires
        0 <= at < app.plan.len(),
        app.plan.len() <= usize::MAX,
    ensures
        ({
            let row = RowView::Item { plan_index: at };
            let item = app.plan[at];
            let enabled = !app.disabled.contains(at as usize);
            let room = seq![' ', ' ', ' ', ' '];
            &&& item.destination matches Some(place) ==> screen::output_text(app, row) == room
                + screen::shown_below(app.output_root, place) + tells(
                item.reason,
                item.has_conflict,
            )
            &&& item.destination is None ==> screen::output_text(app, row) == room + seq![
                'U',
                'n',
                'c',
                'l',
                'a',
                's',
                's',
                'i',
                'f',
                'i',
                'e',
                'd',
            ] + tells(item.reason, item.has_conflict)
            &&& screen::input_row(app, row).path == room + screen::shown_below(
                app.source_root,
                item.source,
            )
            &&& screen::input_row(app, row).confidence == item.confidence.word()
            &&& screen::input_row(app, row).confidence_style == Some(
                screen::word_style(item.confidence, enabled),
            )
        }),
{
    let item = app.plan[at];
    lemma_remark(item.reason, item.has_conflict);
    reveal_strlit("    ");
    reveal_strlit("Unclassified");
    assert("    "@ =~= seq![' ', ' ', ' ', ' ']);
    assert("Unclassified"@ =~= seq!['U', 'n', 'c', 'l', 'a', 's', 's', 'i', 'f', 'i', 'e', 'd']);
}

// ---------------------------------------------------------------------------------------------
// Counts

/// The footer's first line counts the moves by what is to become of them, and the second tells the
/// counts of the plan and how many of its moves are on and off.
pub proof fn lemma_footer_counts(app: UiView)
    requires
        app.disabled.len() <= app.plan.len(),
    ensures
        ({
            let fated = |fate: crate::transfer::Fate|
                text::decimal(
                    crate::transfer::fated(app.plan, app.disabled, fate, app.plan.len()),
                );
            &&& screen::sanity_line(app) == app.transfer_mode.label() + " sanity check: ready "@
                + fated(crate::transfer::Fate::Ready) + " | skipped disabled "@ + fated(
                crate::transfer::Fate::Disabled,
            ) + " | conflicts "@ + fated(crate::transfer::Fate::Conflict) + " | unclassified "@
                + fated(crate::transfer::Fate::Unclassified)
            &&& screen::counts_line(app) == "Scanned: "@ + text::decimal(
                app.summary.scanned_files as nat,
            ) + " | Classified: "@ + text::decimal(app.summary.planned_moves as nat)
                + " | Unclassified: "@ + text::decimal(app.summary.unclassified as nat)
                + " | Conflicts: "@ + text::decimal(app.summary.conflicts as nat) + " | Skipped: "@
                + text::decimal(app.summary.skipped as nat) + " | Enabled: "@ + text::decimal(
                (app.plan.len() - app.disabled.len()) as nat,
            ) + " | Disabled: "@ + text::decimal(app.disabled.len())
        }),
{
}

/// The windows tell how far work has got; a scan that has not begun is in the first phase of one.
pub proof fn lemma_windows_tell_the_progress(
    loading: LoadingLines,
    scan: LoadingView,
    moving: TransferLines,
    run: TransferView,
    title: Seq<char>,
)
    requires
        loading.tell(scan),
        moving.tell(run, title),
    ensures
        loading.phase@ == "Phase: "@ + scan.phase,
        scan.phase_index > 0 && scan.phase_total > 0 ==> loading.phase_counter@ == "Phase "@
            + text::decimal(scan.phase_index) + "/"@ + text::decimal(scan.phase_total),
        scan.phase_index == 0 && scan.phase_total == 0 ==> loading.phase_counter@ == "Phase "@
            + text::decimal(1) + "/"@ + text::decimal(1),
        loading.current@ == "Current: "@ + screen::without_verbatim(scan.current),
        loading.progress@ == "Phase progress "@ + text::decimal(scan.processed) + "/"@
            + text::decimal(scan.total),
        moving.phase@ == "Phase: "@ + run.phase,
        moving.source@ == "Source: "@ + screen::without_verbatim(run.source),
        moving.destination@ == "Destination: "@ + screen::without_verbatim(run.destination),
        moving.counters@ == "Processed: "@ + text::decimal(run.processed) + " / "@ + text::decimal(
            run.total,
        ) + " | Transferred: "@ + text::decimal(run.transferred) + " | Skipped: "@ + text::decimal(
            run.skipped,
        ),
        moving.progress@ == title + " progress "@ + text::decimal(run.processed) + "/"@
            + text::decimal(run.total),
{
}

/// Finding files is the first of two phases and classifying them the second. Files are counted from
/// one on, and a file is inspected as a zip file exactly if its name ends in `.zip`, in any case.
pub proof fn lemma_phases_of_a_scan(
    found: ProgressView,
    folder: Seq<PartView>,
    source: PathView,
    stem: Seq<char>,
    extension: Seq<char>,
    at: nat,
    total: nat,
)
    requires
        source.parts == folder.push(PartView::Name(stem.push('.') + extension)),
        stem.len() > 0,
        !extension.contains('.'),
    ensures
        progress::while_scanning(found) == (LoadingView {
            phase: "Scanning folders"@,
            phase_index: 1,
            phase_total: 2,
            current: paths::shown(found.current_path),
            processed: found.processed,
            total: found.total,
        }),
        progress::while_classifying(source, at, total) == (LoadingView {
            phase: if text_laws::is_written_small(extension, seq!['z', 'i', 'p']) {
                "Inspecting zip/classifying"@
            } else {
                "Classifying files"@
            },
            phase_index: 2,
            phase_total: 2,
            current: paths::shown(source),
            processed: at + 1,
            total,
        }),
{
    crate::path_laws::lemma_extension_of_the_name(folder, stem, extension);
    reveal_strlit("zip");
    assert("zip"@ =~= seq!['z', 'i', 'p']);
    let lower = paths::lower_extension(source.parts);
    if text_laws::is_written_small(extension, seq!['z', 'i', 'p']) {
        text_laws::lemma_written_small_in_one_way(extension, lower);
        text_laws::lemma_written_small_in_one_way(extension, seq!['z', 'i', 'p']);
    }
}

/// A file without an extension is no zip file, nor is one whose extension is no text.
pub proof fn lemma_phase_without_an_extension(source: PathView, at: nat, total: nat)
    requires
        paths::extension(source.parts) is None,
    ensures
        progress::while_classifying(source, at, total) == (LoadingView {
            phase: "Classifying files"@,
            phase_index: 2,
            phase_total: 2,
            current: paths::shown(source),
            processed: at + 1,
            total,
        }),
{
    reveal_strlit("zip");
    assert("zip"@.len() == 3);
}

/// Before work begins nothing is done, and there is nothing to do yet.
pub proof fn lemma_before_work()
    ensures
        progress::before_scan() == (LoadingView {
            phase: "Starting"@,
            phase_index: 0,
            phase_total: 0,
            current: "Preparing scan..."@,
            processed: 0,
            total: 0,
        }),
        progress::before_transfer() == (TransferView {
            phase: "Starting"@,
            source: "Preparing transfer..."@,
            destination: Seq::empty(),
            processed: 0,
            total: 0,
            transferred: 0,
            skipped: 0,
        }),
{
}

/// What the button says, before and after it was asked for.
pub proof fn lemma_cancel_button(cancelled: bool)
    ensures
        cancelled ==> screen::cancel_text(cancelled) == "Canceling..."@,
        !cancelled ==> screen::cancel_text(cancelled) == seq![
            '[',
            ' ',
            'C',
            'a',
            'n',
            'c',
            'e',
            'l',
            ' ',
            ']',
        ],
{
    reveal_strlit("[ Cancel ]");
    assert("[ Cancel ]"@ =~= seq!['[', ' ', 'C', 'a', 'n', 'c', 'e', 'l', ' ', ']']);
}

/// The last words name the mode and how the run ended; only those of a complete run count files, and
/// those of a scan that was canceled do not depend on the mode.
pub proof fn lemma_last_words(mode: TransferMode, stats: TransferStats)
    ensures
        screen::last_words(mode, Ending::ScanCanceled)
            == "Scan canceled. No files were transferred."@,
        screen::last_words(mode, Ending::Declined) == mode.label()
            + " canceled. No files were transferred."@,
        screen::last_words(mode, Ending::TransferCanceled) == mode.label()
            + " canceled during transfer."@,
        screen::last_words(mode, Ending::Complete(stats)) == mode.label() + " complete: "@
            + text::decimal(stats.transferred as nat) + " transferred | "@ + text::decimal(
            stats.skipped as nat,
        ) + " skipped (unclassified/conflict/disabled)"@,
{
}

}
