//! What holds of reading and joining paths with prefixes.

use vstd::prelude::*;
use crate::path_laws;
use crate::paths;
use crate::paths::{PartView, PathStyle, PathView};
use crate::text;
use crate::text::Breaks;
use crate::text_laws;

verus! {

/// A separator of Windows paths.
pub open spec fn is_slash(ch: char) -> bool {
    ch == '/' || ch == '\\'
}

/// A letter that can stand for a drive.
pub open spec fn is_drive_letter(ch: char) -> bool {
    'a' <= ch <= 'z' || 'A' <= ch <= 'Z'
}

/// A text without separators.
pub open spec fn is_unbroken(text: Seq<char>) -> bool {
    forall|k: int| 0 <= k < text.len() ==> !is_slash(#[trigger] text[k])
}

/// What is read below the root: the parts after it.
pub open spec fn below_root(rest: Seq<char>) -> Seq<PartView> {
    paths::parsed(PathStyle::Windows, seq!['\\'] + rest).skip(1)
}

/// What does not begin with a second separator.
pub open spec fn begins_single(rest: Seq<char>) -> bool {
    rest.len() == 0 || !is_slash(rest[0])
}

proof fn lemma_next_break(
    before: Seq<char>,
    middle: Seq<char>,
    after: Seq<char>,
    at: int,
    breaks: Breaks,
)
    requires
        0 <= at <= middle.len(),
        forall|k: int|
            0 <= k < middle.len() ==> !text::breaks_at(breaks, #[trigger] middle[k]),
        after.len() == 0 || text::breaks_at(breaks, after[0]),
    ensures
        paths::next_break(before + middle + after, before.len() + at, breaks) == before.len()
            + middle.len(),
    decreases middle.len() - at,
{
    let whole = before + middle + after;
    let from = before.len() + at;
    if at < middle.len() {
        assert(whole[from] == middle[at]);
        lemma_next_break(before, middle, after, at + 1, breaks);
    } else if after.len() > 0 {
        assert(whole[from] == after[0]);
    }
}

/// What is read after a prefix that ends before a separator.
proof fn lemma_read_below(prefix: Seq<char>, slash: char, rest: Seq<char>, breaks: Breaks)
    requires
        is_slash(slash),
        breaks == Breaks::BothSlashes,
        prefix.len() > 0,
    ensures
        forall|rooted: bool|
            #[trigger] paths::read_after(
                PathStyle::Windows,
                prefix.push(slash) + rest,
                prefix.len() as int,
                breaks,
                rooted,
                false,
            ).parts == seq![PartView::Prefix(prefix), PartView::Root] + paths::name_parts(
                text::pieces(rest, breaks),
                false,
                false,
            ),
{
    let whole = prefix.push(slash) + rest;
    let end = prefix.len() as int;
    assert(whole.take(end) =~= prefix);
    assert(whole.skip(end)[0] == slash);
    assert(whole.skip(end).take(1).len() == 1);
    assert(whole.skip(end).skip(1) =~= rest);
    assert(seq![PartView::Prefix(prefix)].push(PartView::Root) =~= seq![
        PartView::Prefix(prefix),
        PartView::Root,
    ]);
}

proof fn lemma_below_root_is_names(rest: Seq<char>)
    requires
        begins_single(rest),
    ensures
        below_root(rest) == paths::name_parts(text::pieces(rest, Breaks::BothSlashes), false, false),
        paths::parsed(PathStyle::Windows, seq!['\\'] + rest) == seq![PartView::Root] + below_root(
            rest,
        ),
        paths::parsed(PathStyle::Windows, seq!['/'] + rest) == seq![PartView::Root] + below_root(
            rest,
        ),
{
    let names = paths::name_parts(text::pieces(rest, Breaks::BothSlashes), false, false);
    lemma_rooted('\\', rest);
    lemma_rooted('/', rest);
    assert((seq![PartView::Root] + names).skip(1) =~= names);
}

proof fn lemma_rooted(slash: char, rest: Seq<char>)
    requires
        begins_single(rest),
        is_slash(slash),
    ensures
        paths::parsed(PathStyle::Windows, seq![slash] + rest) == seq![PartView::Root]
            + paths::name_parts(text::pieces(rest, Breaks::BothSlashes), false, false),
{
    let whole = seq![slash] + rest;
    if whole.len() >= 2 {
        assert(whole[1] == rest[0]);
    }
    assert(paths::prefix_of(whole) is None);
    assert(whole.skip(0) =~= whole);
    assert(whole.take(1).len() == 1);
    assert(whole.skip(0).skip(1) =~= rest);
    assert(Seq::<PartView>::empty().push(PartView::Root) =~= seq![PartView::Root]);
}

/// A letter and a colon are a drive: a separator after them is its root, whichever of the two it is,
/// and what follows is read as below a root.
pub proof fn lemma_drive_and_root(letter: char, slash: char, rest: Seq<char>)
    requires
        is_drive_letter(letter),
        is_slash(slash),
        begins_single(rest),
    ensures
        paths::parsed(PathStyle::Windows, seq![letter, ':', slash] + rest) == seq![
            PartView::Prefix(seq![letter, ':']),
            PartView::Root,
        ] + below_root(rest),
        paths::parsed(PathStyle::Windows, seq![letter, ':']) == seq![
            PartView::Prefix(seq![letter, ':']),
        ],
{
    let drive = seq![letter, ':'];
    let whole = drive.push(slash) + rest;
    assert(whole =~= seq![letter, ':', slash] + rest);
    assert(whole[0] == letter && whole[1] == ':');
    lemma_read_below(drive, slash, rest, Breaks::BothSlashes);
    lemma_below_root_is_names(rest);
    let nothing = Seq::<char>::empty();
    assert(drive.skip(2) =~= nothing);
    assert(nothing.skip(0) =~= nothing);
    assert(drive.take(2) =~= drive);
    text_laws::lemma_unbroken_is_one_piece(nothing, Breaks::BothSlashes);
    assert(paths::parsed(PathStyle::Windows, drive) =~= seq![PartView::Prefix(drive)]);
}

/// A name right after a drive is relative to where the drive stands: there is no root between them.
pub proof fn lemma_name_right_after_a_drive(letter: char, name: Seq<char>)
    requires
        is_drive_letter(letter),
        path_laws::is_plain_name(name),
    ensures
        paths::parsed(PathStyle::Windows, seq![letter, ':'] + name) == seq![
            PartView::Prefix(seq![letter, ':']),
            PartView::Name(name),
        ],
{
    let drive = seq![letter, ':'];
    let whole = drive + name;
    lemma_plain_is_unbroken(name);
    assert(whole[0] == letter && whole[1] == ':');
    assert(whole.skip(2) =~= name);
    assert(whole.take(2) =~= drive);
    assert(name.skip(0) =~= name);
    text_laws::lemma_unbroken_is_one_piece(name, Breaks::BothSlashes);
    reveal_with_fuel(paths::name_parts, 2);
    assert(seq![name].drop_last() =~= Seq::<Seq<char>>::empty());
    assert(paths::name_parts(seq![name], false, false) =~= seq![PartView::Name(name)]);
    assert(paths::parsed(PathStyle::Windows, whole) =~= seq![
        PartView::Prefix(drive),
        PartView::Name(name),
    ]);
}

proof fn lemma_plain_is_unbroken(name: Seq<char>)
    requires
        path_laws::is_plain_name(name),
    ensures
        is_unbroken(name),
        forall|k: int|
            0 <= k < name.len() ==> !text::breaks_at(Breaks::BothSlashes, #[trigger] name[k]),
        forall|k: int|
            0 <= k < name.len() ==> !text::breaks_at(Breaks::Backslashes, #[trigger] name[k]),
{
    assert forall|k: int| 0 <= k < name.len() implies !is_slash(#[trigger] name[k]) by {
        if is_slash(name[k]) {
            assert(name.contains(name[k]));
        }
    }
}

/// Two separators, a server, a separator and a share are a prefix that is rooted by itself.
pub proof fn lemma_share_is_a_prefix(
    one: char,
    two: char,
    server: Seq<char>,
    three: char,
    share: Seq<char>,
    slash: char,
    rest: Seq<char>,
)
    requires
        is_slash(one) && is_slash(two) && is_slash(three) && is_slash(slash),
        server.len() > 0 && is_unbroken(server),
        server != seq!['?'] && server != seq!['.'],
        share.len() > 0 && is_unbroken(share),
        begins_single(rest),
    ensures
        ({
            let prefix = seq![one, two] + server + seq![three] + share;
            &&& paths::parsed(PathStyle::Windows, prefix.push(slash) + rest) == seq![
                PartView::Prefix(prefix),
                PartView::Root,
            ] + below_root(rest)
            &&& paths::parsed(PathStyle::Windows, prefix) == seq![
                PartView::Prefix(prefix),
                PartView::Root,
            ]
        }),
{
    let prefix = seq![one, two] + server + seq![three] + share;
    let after = seq![slash] + rest;
    lemma_share_prefix(one, two, server, three, share, after);
    let whole = prefix.push(slash) + rest;
    assert(prefix + after =~= whole);
    lemma_read_below(prefix, slash, rest, Breaks::BothSlashes);
    lemma_below_root_is_names(rest);
    assert(paths::prefix_of(whole) == Some(
        (paths::PrefixView::Share { server, share }, prefix.len() as int),
    ));
    assert(paths::read(PathStyle::Windows, whole) == paths::read_after(
        PathStyle::Windows,
        whole,
        prefix.len() as int,
        Breaks::BothSlashes,
        true,
        false,
    ));
    let nothing = Seq::<char>::empty();
    lemma_share_prefix(one, two, server, three, share, nothing);
    assert(prefix + nothing =~= prefix);
    let end = prefix.len() as int;
    assert(prefix.take(end) =~= prefix);
    assert(prefix.skip(end) =~= nothing);
    assert(nothing.skip(0) =~= nothing);
    text_laws::lemma_unbroken_is_one_piece(nothing, Breaks::BothSlashes);
    assert(paths::read(PathStyle::Windows, prefix) == paths::read_after(
        PathStyle::Windows,
        prefix,
        end,
        Breaks::BothSlashes,
        true,
        false,
    ));
    assert(paths::parsed(PathStyle::Windows, prefix) =~= seq![
        PartView::Prefix(prefix),
        PartView::Root,
    ]);
}

proof fn lemma_share_prefix(
    one: char,
    two: char,
    server: Seq<char>,
    three: char,
    share: Seq<char>,
    after: Seq<char>,
)
    requires
        is_slash(one) && is_slash(two) && is_slash(three),
        server.len() > 0 && is_unbroken(server),
        server != seq!['?'] && server != seq!['.'],
        share.len() > 0 && is_unbroken(share),
        after.len() == 0 || is_slash(after[0]),
    ensures
        ({
            let prefix = seq![one, two] + server + seq![three] + share;
            paths::prefix_of(prefix + after) == Some(
                (paths::PrefixView::Share { server, share }, prefix.len() as int),
            )
        }),
{
    let breaks = Breaks::BothSlashes;
    let start = seq![one, two];
    let prefix = start + server + seq![three] + share;
    let whole = prefix + after;
    assert(whole[0] == one && whole[1] == two);
    assert(whole[2] == server[0]);
    if server.len() == 1 {
        assert(whole[2] != '?') by {
            if server[0] == '?' {
                assert(server =~= seq!['?']);
            }
        }
        assert(whole[2] != '.') by {
            if server[0] == '.' {
                assert(server =~= seq!['.']);
            }
        }
    } else {
        assert(whole[3] == server[1]);
        assert(!is_slash(server[1]));
    }
    let tail = seq![three] + share + after;
    assert(whole =~= start + server + tail);
    assert(tail[0] == three);
    lemma_next_break(start, server, tail, 0, breaks);
    let first = start + server + seq![three];
    assert(whole =~= first + share + after);
    lemma_next_break(first, share, after, 0, breaks);
    assert(whole.subrange(2, 2int + server.len()) =~= server);
    assert(whole.subrange(first.len() as int, (first.len() + share.len()) as int) =~= share);
}

/// What follows a separator is read as below a root, whichever of the two it is, where the path begins
/// with neither a separator nor a drive alone.
pub proof fn lemma_names_after_either_separator(before: Seq<char>, slash: char, after: Seq<char>)
    requires
        before.len() > 0,
        !is_slash(before[0]),
        before.len() == 2 ==> before[1] != ':',
        is_slash(slash),
        begins_single(after),
    ensures
        paths::parsed(PathStyle::Windows, before.push(slash) + after) == paths::parsed(
            PathStyle::Windows,
            before,
        ) + below_root(after),
{
    let whole = before.push(slash) + after;
    let breaks = Breaks::BothSlashes;
    lemma_below_root_is_names(after);
    let names = text::pieces(after, breaks);
    assert(whole[0] == before[0]);
    if before.len() >= 2 {
        assert(whole[1] == before[1]);
    } else {
        assert(whole[1] == slash);
    }
    let end = if before.len() >= 2 && is_drive_letter(before[0]) && before[1] == ':' {
        2int
    } else {
        0
    };
    assert(whole.take(end) =~= before.take(end));
    let rest = whole.skip(end);
    let own = before.skip(end);
    assert(rest =~= own.push(slash) + after);
    assert(own.len() > 0);
    assert(rest[0] == own[0]);
    let rooted = is_slash(own[0]);
    let from = if rooted {
        1int
    } else {
        0
    };
    assert(rest.take(1).len() == 1 && own.take(1).len() == 1);
    assert(rest.skip(from) =~= own.skip(from).push(slash) + after);
    text_laws::lemma_pieces_on_both_sides(own.skip(from), slash, after, breaks);
    let first = text::pieces(own.skip(from), breaks);
    let leading = end == 0 && !rooted;
    if leading {
        assert(own.skip(0) =~= own);
        path_laws::lemma_begins_with_a_piece(own, breaks);
    }
    path_laws::lemma_parts_of_names_in_turn(first, names, leading);
    assert(paths::parsed(PathStyle::Windows, whole) =~= paths::parsed(PathStyle::Windows, before)
        + below_root(after));
}

/// Below a root one name is read as what it is: two dots stand for the folder above, and one dot for
/// nothing.
pub proof fn lemma_single_names_below_a_root(name: Seq<char>)
    requires
        path_laws::is_plain_name(name),
    ensures
        below_root(name) == seq![PartView::Name(name)],
        below_root(seq!['.']) == Seq::<PartView>::empty(),
        below_root(seq!['.', '.']) == seq![PartView::Parent],
        below_root(Seq::empty()) == Seq::<PartView>::empty(),
{
    let breaks = Breaks::BothSlashes;
    let dot = seq!['.'];
    let dots = seq!['.', '.'];
    let nothing = Seq::<char>::empty();
    lemma_plain_is_unbroken(name);
    reveal_with_fuel(paths::name_parts, 2);
    lemma_below_root_is_names(name);
    lemma_below_root_is_names(dot);
    lemma_below_root_is_names(dots);
    lemma_below_root_is_names(nothing);
    text_laws::lemma_unbroken_is_one_piece(name, breaks);
    text_laws::lemma_unbroken_is_one_piece(dot, breaks);
    text_laws::lemma_unbroken_is_one_piece(dots, breaks);
    text_laws::lemma_unbroken_is_one_piece(nothing, breaks);
    assert(seq![name].drop_last() =~= Seq::<Seq<char>>::empty());
    assert(seq![dot].drop_last() =~= Seq::<Seq<char>>::empty());
    assert(seq![dots].drop_last() =~= Seq::<Seq<char>>::empty());
    assert(dots.len() != dot.len());
    assert(paths::name_parts(seq![name], false, false) =~= seq![PartView::Name(name)]);
    assert(paths::name_parts(seq![dots], false, false) =~= seq![PartView::Parent]);
}

/// After a verbatim drive only backslashes separate: a name may hold slashes.
pub proof fn lemma_verbatim_drive(letter: char, name: Seq<char>)
    requires
        is_drive_letter(letter),
        name.len() > 0,
        !name.contains('\\'),
        name != seq!['.'],
        name != seq!['.', '.'],
    ensures
        paths::parsed(PathStyle::Windows, seq!['\\', '\\', '?', '\\', letter, ':', '\\'] + name)
            == seq![
            PartView::Prefix(seq!['\\', '\\', '?', '\\', letter, ':']),
            PartView::Root,
            PartView::Name(name),
        ],
        paths::begins_verbatim(
            seq![PartView::Prefix(seq!['\\', '\\', '?', '\\', letter, ':'])],
        ),
{
    let prefix = seq!['\\', '\\', '?', '\\', letter, ':'];
    let whole = seq!['\\', '\\', '?', '\\', letter, ':', '\\'] + name;
    let breaks = Breaks::Backslashes;
    assert(whole.take(6) =~= prefix);
    assert(whole.skip(6)[0] == '\\');
    assert(whole.skip(6).take(1).len() == 1);
    assert(whole.skip(6).skip(1) =~= name);
    assert forall|k: int| 0 <= k < name.len() implies !text::breaks_at(
        breaks,
        #[trigger] name[k],
    ) by {
        if name[k] == '\\' {
            assert(name.contains(name[k]));
        }
    }
    text_laws::lemma_unbroken_is_one_piece(name, breaks);
    reveal_with_fuel(paths::name_parts, 2);
    assert(seq![name].drop_last() =~= Seq::<Seq<char>>::empty());
    assert(paths::name_parts(seq![name], false, true) =~= seq![PartView::Name(name)]);
    assert(paths::parsed(PathStyle::Windows, whole) =~= seq![
        PartView::Prefix(prefix),
        PartView::Root,
        PartView::Name(name),
    ]);
}

// ---------------------------------------------------------------------------------------------
// Joining

/// A rooted path that is joined to one with a prefix keeps that prefix; a dot in front of a joined path
/// stands for nothing; and anything is kept as it is where there is nothing to join it to.
pub proof fn lemma_joined_parts(base: Seq<PartView>, other: Seq<PartView>)
    requires
        !paths::begins_verbatim(base),
        other.len() > 0,
    ensures
        base.len() > 0 && base[0] is Prefix && other[0] is Root ==> paths::resolved(base, other)
            == seq![base[0]] + other,
        base.len() > 0 && other[0] is Current ==> paths::resolved(base, other) == base
            + other.skip(1),
        base.len() == 0 ==> paths::resolved(base, other) == other,
        base.len() > 0 && (other[0] is Parent || other[0] is Name || other[0] is Opaque)
            ==> paths::resolved(base, other) == base + other,
        paths::resolved(base, Seq::empty()) == base,
{
    if base.len() == 0 {
        assert(base + other =~= other);
    }
}

/// A name that is appended to a Unix path is written after a slash, unless the path ends in one or is
/// empty.
pub proof fn lemma_name_is_written_after_a_slash(base: PathView, name: Seq<char>)
    requires
        base.style == PathStyle::Unix,
        !paths::begins_verbatim(base.parts),
        base.parts.len() == 0 || !(base.parts[0] is Prefix),
    ensures
        ({
            let joined = paths::shown(paths::extended(base, PartView::Name(name)));
            &&& paths::shown(base).len() > 0 && paths::shown(base).last() != '/' ==> joined
                == paths::shown(base).push('/') + name
            &&& paths::shown(base).len() > 0 && paths::shown(base).last() == '/' ==> joined
                == paths::shown(base) + name
            &&& paths::shown(base).len() == 0 ==> joined == name
        }),
{
    let other = paths::plain_path(base.style, seq![PartView::Name(name)]);
    lemma_plain_name_shown(base.style, name);
    paths::lemma_joined_as_written(base, other);
    if paths::shown(base).len() == 0 {
        assert(paths::shown(base) + name =~= name);
    }
}

/// A name that is appended to a Windows path is written after a backslash, unless the path ends in a
/// separator or is empty or a drive.
pub proof fn lemma_name_is_written_after_a_backslash(base: PathView, name: Seq<char>)
    requires
        base.style == PathStyle::Windows,
        !paths::begins_verbatim(base.parts),
        base.parts.len() != 1 || !(base.parts[0] is Prefix),
    ensures
        ({
            let joined = paths::shown(paths::extended(base, PartView::Name(name)));
            &&& paths::shown(base).len() > 0 && !is_slash(paths::shown(base).last()) ==> joined
                == paths::shown(base).push('\\') + name
            &&& paths::shown(base).len() > 0 && is_slash(paths::shown(base).last()) ==> joined
                == paths::shown(base) + name
            &&& paths::shown(base).len() == 0 ==> joined == name
        }),
{
    let other = paths::plain_path(base.style, seq![PartView::Name(name)]);
    lemma_plain_name_shown(base.style, name);
    paths::lemma_joined_as_written(base, other);
    if paths::shown(base).len() == 0 {
        assert(paths::shown(base) + name =~= name);
    }
}

proof fn lemma_plain_name_shown(style: PathStyle, name: Seq<char>)
    ensures
        paths::shown(paths::plain_path(style, seq![PartView::Name(name)])) == name,
{
    let parts = seq![PartView::Name(name)];
    reveal_with_fuel(paths::written, 2);
    assert(parts.drop_last() =~= Seq::<PartView>::empty());
    assert(paths::shown(paths::plain_path(style, parts)) =~= name);
}

}
