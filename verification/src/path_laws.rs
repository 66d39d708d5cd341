//! What holds of paths, part by part.

use vstd::prelude::*;
use crate::paths;
use crate::paths::{PartView, PathStyle, PathView};
use crate::text;
use crate::text::Breaks;
use crate::text_laws;

verus! {

// ---------------------------------------------------------------------------------------------
// Which paths are the same, and which lie below others

/// Two parts that are the same, or two prefixes, which may be written in more than one way.
pub open spec fn same_or_prefixes(one: PartView, other: PartView) -> bool {
    one == other || (one is Prefix && other is Prefix)
}

/// Paths of the same parts are the same, whatever is written between them; and paths that are the
/// same have the same parts, but for how a prefix is written.
pub proof fn lemma_same_by_parts(one: PathView, other: PathView)
    requires
        one.style == other.style,
    ensures
        one.parts == other.parts ==> paths::same_place(one, other),
        paths::same_place(one, other) ==> one.parts.len() == other.parts.len() && forall|k: int|
            0 <= k < one.parts.len() ==> same_or_prefixes(#[trigger] one.parts[k], other.parts[k]),
{
    if paths::same_place(one, other) {
        let ids = paths::identities(one.parts);
        assert(ids.len() == one.parts.len());
        assert(paths::identities(other.parts).len() == other.parts.len());
        assert forall|k: int| 0 <= k < one.parts.len() implies same_or_prefixes(
            #[trigger] one.parts[k],
            other.parts[k],
        ) by {
            assert(ids[k] == paths::identity(one.parts[k]));
            assert(paths::identities(other.parts)[k] == paths::identity(other.parts[k]));
        }
    }
}

/// A drive: an ASCII letter and a colon.
pub open spec fn is_drive(text: Seq<char>) -> bool {
    text.len() == 2 && ('a' <= text[0] <= 'z' || 'A' <= text[0] <= 'Z') && text[1] == ':'
}

/// Two paths on drives that are otherwise made of the same parts are the same exactly when the
/// letters of their drives are, whatever their case.
pub proof fn lemma_case_of_drive_is_idle(
    one: Seq<char>,
    other: Seq<char>,
    rest: Seq<PartView>,
    first: PathView,
    second: PathView,
)
    requires
        is_drive(one),
        is_drive(other),
        first.style == second.style,
        first.parts == seq![PartView::Prefix(one)] + rest,
        second.parts == seq![PartView::Prefix(other)] + rest,
    ensures
        paths::same_place(first, second) <==> text_laws::same_letter(one[0], other[0]),
{
    let a = paths::identities(first.parts);
    let b = paths::identities(second.parts);
    assert(a[0] == paths::identity(PartView::Prefix(one)));
    assert(b[0] == paths::identity(PartView::Prefix(other)));
    assert(!text::breaks_at(Breaks::BothSlashes, one[0]));
    assert(!text::breaks_at(Breaks::BothSlashes, other[0]));
    if text_laws::same_letter(one[0], other[0]) {
        assert(a =~= b);
    }
}

/// What stands in a folder lies under it, and is found below it as it stands there.
pub proof fn lemma_below_its_folder(base: Seq<PartView>, rest: Seq<PartView>)
    ensures
        paths::lies_under(base + rest, base),
        paths::relative_to(base + rest, base) == Some(rest),
{
    assert((base + rest).take(base.len() as int) =~= base);
    assert((base + rest).skip(base.len() as int) =~= rest);
}

/// A path that is shorter than a folder, or differs from it in a part that is no prefix, does not
/// lie under it.
pub proof fn lemma_elsewhere(parts: Seq<PartView>, base: Seq<PartView>, at: int)
    requires
        0 <= at < base.len(),
        at < parts.len() ==> !same_or_prefixes(parts[at], base[at]),
    ensures
        !paths::lies_under(parts, base),
        paths::relative_to(parts, base) is None,
{
    if paths::lies_under(parts, base) {
        let own = paths::identities(parts.take(base.len() as int));
        assert(own[at] == paths::identity(parts[at]));
        assert(paths::identities(base)[at] == paths::identity(base[at]));
    }
}

// ---------------------------------------------------------------------------------------------
// Names

/// A path that ends in a name has it as its file name, and no other path has one.
pub proof fn lemma_file_name_is_the_last_part(parts: Seq<PartView>)
    ensures
        parts.len() > 0 && (parts.last() is Name || parts.last() is Opaque)
            ==> paths::file_name(parts) == Some(parts.last()),
        parts.len() == 0 || !(parts.last() is Name || parts.last() is Opaque)
            ==> paths::file_name(parts) is None,
        forall|name: Seq<char>|
            paths::file_name_text(parts) == Some(name) <==> parts.len() > 0 && parts.last()
                == PartView::Name(name),
{
}

/// What stands after the last dot of a name is its extension, and what stands before that dot its
/// stem; a name may begin with a dot without having an extension.
pub proof fn lemma_extension_after_the_last_dot(stem: Seq<char>, extension: Seq<char>)
    requires
        !extension.contains('.'),
    ensures
        stem.len() > 0 ==> paths::name_extension(stem.push('.') + extension) == Some(extension),
        stem.len() > 0 ==> paths::name_stem(stem.push('.') + extension) == stem,
        paths::name_extension(seq!['.'] + extension) is None,
        paths::name_stem(seq!['.'] + extension) == seq!['.'] + extension,
        paths::name_extension(extension) is None,
        paths::name_stem(extension) == extension,
{
    lemma_last_dot(stem, extension);
    lemma_last_dot(Seq::empty(), extension);
    let name = stem.push('.') + extension;
    assert(name.skip((stem.len() + 1) as int) =~= extension);
    assert(name.take(stem.len() as int) =~= stem);
    assert(Seq::<char>::empty().push('.') + extension =~= seq!['.'] + extension);
    lemma_no_dot(extension);
}

proof fn lemma_last_dot(stem: Seq<char>, extension: Seq<char>)
    requires
        !extension.contains('.'),
    ensures
        paths::last_dot(stem.push('.') + extension) == stem.len(),
    decreases extension.len(),
{
    let name = stem.push('.') + extension;
    if extension.len() == 0 {
        assert(name =~= stem.push('.'));
    } else {
        assert(extension[extension.len() - 1] != '.');
        assert(name.last() == extension.last());
        let less = extension.drop_last();
        assert(name.drop_last() =~= stem.push('.') + less);
        assert(!less.contains('.')) by {
            if less.contains('.') {
                let k = choose|k: int| 0 <= k < less.len() && less[k] == '.';
                assert(extension[k] == '.');
            }
        }
        lemma_last_dot(stem, less);
    }
}

proof fn lemma_no_dot(text: Seq<char>)
    requires
        !text.contains('.'),
    ensures
        paths::last_dot(text) == -1,
    decreases text.len(),
{
    if text.len() > 0 {
        assert(text[text.len() - 1] != '.');
        let less = text.drop_last();
        assert(!less.contains('.')) by {
            if less.contains('.') {
                let k = choose|k: int| 0 <= k < less.len() && less[k] == '.';
                assert(text[k] == '.');
            }
        }
        lemma_no_dot(less);
    }
}

/// A file has the extension of its name, whatever folder it stands in.
pub proof fn lemma_extension_of_the_name(
    folder: Seq<PartView>,
    stem: Seq<char>,
    extension: Seq<char>,
)
    requires
        stem.len() > 0,
        !extension.contains('.'),
    ensures
        ({
            let path = folder.push(PartView::Name(stem.push('.') + extension));
            &&& paths::extension(path) == Some(extension)
            &&& paths::file_stem(path) == Some(stem)
            &&& text_laws::is_written_small(extension, paths::lower_extension(path))
        }),
{
    lemma_extension_after_the_last_dot(stem, extension);
    text_laws::lemma_lower_letter_by_letter(extension);
}

/// A file whose name has no dot, or none but in front, has no extension, and its stem is its name.
pub proof fn lemma_no_extension(folder: Seq<PartView>, name: Seq<char>)
    requires
        !name.contains('.'),
    ensures
        ({
            let plain = folder.push(PartView::Name(name));
            let hidden = folder.push(PartView::Name(seq!['.'] + name));
            &&& paths::extension(plain) is None
            &&& paths::extension(hidden) is None
            &&& paths::lower_extension(plain) == Seq::<char>::empty()
            &&& paths::lower_extension(hidden) == Seq::<char>::empty()
            &&& paths::file_stem(plain) == Some(name)
            &&& paths::file_stem(hidden) == Some(seq!['.'] + name)
        }),
{
    lemma_extension_after_the_last_dot(Seq::empty(), name);
}

/// The part that stands `above` levels above the end of a path is a name, and so far up the path
/// neither a prefix nor a root stands in between.
pub open spec fn is_named_level(parts: Seq<PartView>, above: int, name: Seq<char>) -> bool {
    &&& 0 <= above < parts.len()
    &&& parts[parts.len() - 1 - above] == PartView::Name(name)
    &&& forall|k: int|
        parts.len() - above <= k < parts.len() ==> !((#[trigger] parts[k]) is Prefix
            || parts[k] is Root)
}

/// The names that are looked at for folder hints are those of the file and of the folders above
/// it, as many levels as there are to be, written small.
pub proof fn lemma_levels_are_file_and_folders(
    parts: Seq<PartView>,
    levels: nat,
    looked_at: Seq<char>,
)
    ensures
        paths::level_names(parts, levels).contains(looked_at) <==> exists|above: int, name: Seq<
            char,
        >|
            #![trigger is_named_level(parts, above, name)]
            above < levels && is_named_level(parts, above, name) && text_laws::is_written_small(
                name,
                looked_at,
            ),
    decreases levels,
{
    let all = paths::level_names(parts, levels);
    if levels == 0 {
        assert(!all.contains(looked_at));
    } else {
        let own = match paths::file_name_text(parts) {
            Some(text) => seq![text::lower(text)],
            None => Seq::empty(),
        };
        let less = parts.drop_last();
        let up = paths::level_names(less, (levels - 1) as nat);
        if paths::has_parent(parts) {
            lemma_levels_are_file_and_folders(less, (levels - 1) as nat, looked_at);
            assert(all == own + up);
        }
        if all.contains(looked_at) {
            let k = choose|k: int| 0 <= k < all.len() && all[k] == looked_at;
            if k < own.len() {
                let name = paths::file_name_text(parts).unwrap();
                text_laws::lemma_lower_letter_by_letter(name);
                assert(is_named_level(parts, 0, name));
            } else {
                assert(up[k - own.len()] == looked_at);
                assert(up.contains(looked_at));
                let (above, name) = choose|above: int, name: Seq<char>|
                    #![trigger is_named_level(less, above, name)]
                    above < levels - 1 && is_named_level(less, above, name)
                        && text_laws::is_written_small(name, looked_at);
                assert(is_named_level(parts, above + 1, name)) by {
                    assert forall|k: int| parts.len() - above - 1 <= k < parts.len() implies !((
                    #[trigger] parts[k]) is Prefix || parts[k] is Root) by {
                        if k < less.len() {
                            assert(less[k] == parts[k]);
                        }
                    }
                }
            }
        }
        if exists|above: int, name: Seq<char>|
            #![trigger is_named_level(parts, above, name)]
            above < levels && is_named_level(parts, above, name) && text_laws::is_written_small(
                name,
                looked_at,
            ) {
            let (above, name) = choose|above: int, name: Seq<char>|
                #![trigger is_named_level(parts, above, name)]
                above < levels && is_named_level(parts, above, name)
                    && text_laws::is_written_small(name, looked_at);
            text_laws::lemma_written_small_in_one_way(name, looked_at);
            if above == 0 {
                assert(own == seq![looked_at]);
                assert(all[0] == looked_at);
            } else {
                assert(!(parts[parts.len() - 1] is Prefix || parts[parts.len() - 1] is Root));
                assert(is_named_level(less, above - 1, name)) by {
                    assert forall|k: int| less.len() - (above - 1) <= k < less.len() implies !((
                    #[trigger] less[k]) is Prefix || less[k] is Root) by {
                        assert(less[k] == parts[k]);
                    }
                }
                assert(up.contains(looked_at));
                let k = choose|k: int| 0 <= k < up.len() && up[k] == looked_at;
                assert(all[own.len() + k] == looked_at);
            }
        }
    }
}

// ---------------------------------------------------------------------------------------------
// The texts of parts

/// The texts of parts that follow others follow theirs.
pub proof fn lemma_texts_in_turn(style: PathStyle, one: Seq<PartView>, other: Seq<PartView>)
    ensures
        paths::texts(style, one + other) == paths::texts(style, one) + paths::texts(style, other),
    decreases other.len(),
{
    if other.len() == 0 {
        assert(one + other =~= one);
        assert(paths::texts(style, one) + paths::texts(style, other) =~= paths::texts(style, one));
    } else {
        assert((one + other).drop_last() =~= one + other.drop_last());
        lemma_texts_in_turn(style, one, other.drop_last());
        assert(paths::texts(style, one + other) =~= paths::texts(style, one) + paths::texts(
            style,
            other,
        ));
    }
}

/// The text of a name or prefix is that name or prefix, that of the other parts what they are
/// written as, and a name that is not text has none.
pub proof fn lemma_text_of_one_part(style: PathStyle, part: PartView)
    ensures
        paths::texts(style, seq![part]) == match part {
            PartView::Name(text) => seq![text],
            PartView::Prefix(text) => seq![text],
            PartView::Root => seq![
                seq![
                    if style == PathStyle::Windows {
                        '\\'
                    } else {
                        '/'
                    },
                ],
            ],
            PartView::Current => seq![seq!['.']],
            PartView::Parent => seq![seq!['.', '.']],
            PartView::Opaque(_) => Seq::empty(),
        },
{
    assert(seq![part].drop_last() =~= Seq::<PartView>::empty());
    assert(paths::texts(style, Seq::empty()) =~= Seq::<Seq<char>>::empty());
    reveal_with_fuel(paths::texts, 2);
    assert(paths::texts(style, seq![part]) =~= match paths::part_text(style, part) {
        Some(text) => seq![text],
        None => Seq::empty(),
    });
}

/// A text that occurs among those of parts is that of one of them.
pub proof fn lemma_text_of_some_part(style: PathStyle, parts: Seq<PartView>, wanted: Seq<char>)
    ensures
        paths::texts(style, parts).contains(wanted) <==> exists|k: int|
            0 <= k < parts.len() && paths::texts(style, seq![#[trigger] parts[k]]) == seq![wanted],
    decreases parts.len(),
{
    let all = paths::texts(style, parts);
    if parts.len() > 0 {
        let less = parts.drop_last();
        let last = seq![parts.last()];
        assert(parts =~= less + last);
        lemma_texts_in_turn(style, less, last);
        lemma_text_of_some_part(style, less, wanted);
        lemma_text_of_one_part(style, parts.last());
        let own = paths::texts(style, last);
        let before = paths::texts(style, less);
        assert(own.len() <= 1);
        if all.contains(wanted) {
            let k = choose|k: int| 0 <= k < all.len() && all[k] == wanted;
            if k < before.len() {
                assert(before[k] == wanted);
                assert(before.contains(wanted));
                let j = choose|j: int|
                    0 <= j < less.len() && paths::texts(style, seq![#[trigger] less[j]])
                        == seq![wanted];
                assert(parts[j] == less[j]);
            } else {
                assert(own[k - before.len()] == wanted);
                assert(own =~= seq![wanted]);
                assert(parts[parts.len() - 1] == parts.last());
            }
        }
        if exists|k: int|
            0 <= k < parts.len() && paths::texts(style, seq![#[trigger] parts[k]])
                == seq![wanted] {
            let k = choose|k: int|
                0 <= k < parts.len() && paths::texts(style, seq![#[trigger] parts[k]])
                    == seq![wanted];
            if k < less.len() {
                assert(less[k] == parts[k]);
                assert(before.contains(wanted));
                let j = choose|j: int| 0 <= j < before.len() && before[j] == wanted;
                assert(all[j] == wanted);
            } else {
                assert(seq![wanted][0] == wanted);
                assert(all[before.len() as int] == wanted);
            }
        }
    } else {
        assert(!all.contains(wanted));
    }
}

// ---------------------------------------------------------------------------------------------
// Joining

/// A path that has its place by itself is not taken relative to another.
pub proof fn lemma_place_of_its_own(base: Seq<PartView>, other: Seq<PartView>)
    requires
        other.len() > 0,
    ensures
        other[0] is Prefix ==> paths::resolved(base, other) == other,
        other[0] is Root && (base.len() == 0 || !(base[0] is Prefix)) ==> paths::resolved(
            base,
            other,
        ) == other,
{
}

/// A path with more names has them after its own parts, unless it is nothing but a prefix, which
/// may need a separator first.
pub proof fn lemma_names_are_appended(base: Seq<PartView>, names: Seq<PartView>)
    requires
        base.len() != 1 || !(base[0] is Prefix),
        forall|k: int|
            0 <= k < names.len() ==> (#[trigger] names[k]) is Name || names[k] is Opaque,
    ensures
        paths::resolved(base, names) == base + names,
{
    if paths::begins_verbatim(base) {
        lemma_names_walked(base, names);
    }
    assert(names.len() > 0 ==> (names[0] is Name || names[0] is Opaque));
    if names.len() == 0 {
        assert(base + names =~= base);
    }
}

proof fn lemma_names_walked(base: Seq<PartView>, names: Seq<PartView>)
    requires
        forall|k: int|
            0 <= k < names.len() ==> (#[trigger] names[k]) is Name || names[k] is Opaque,
    ensures
        paths::walked(base, names) == base + names,
    decreases names.len(),
{
    if names.len() == 0 {
        assert(base + names =~= base);
    } else {
        let less = names.drop_last();
        assert forall|k: int| 0 <= k < less.len() implies (#[trigger] less[k]) is Name
            || less[k] is Opaque by {
            assert(less[k] == names[k]);
        }
        lemma_names_walked(base, less);
        assert(names[names.len() - 1] is Name || names[names.len() - 1] is Opaque);
        assert((base + less).push(names.last()) =~= base + names);
    }
}

/// A path with one more name has it after its own parts.
pub proof fn lemma_name_is_appended(base: PathView, name: PartView)
    requires
        base.parts.len() != 1 || !(base.parts[0] is Prefix),
        name is Name || name is Opaque,
    ensures
        paths::extended(base, name).parts == base.parts.push(name),
        paths::extended(base, name).style == base.style,
{
    lemma_names_are_appended(base.parts, seq![name]);
    assert(base.parts + seq![name] =~= base.parts.push(name));
}

// ---------------------------------------------------------------------------------------------
// Reading

/// A text that is one plain name: no separator or colon stands in it, and it is neither of the two
/// names that stand for a folder itself and the one above it.
pub open spec fn is_plain_name(name: Seq<char>) -> bool {
    &&& name.len() > 0
    &&& !name.contains('/') && !name.contains('\\') && !name.contains(':')
    &&& name != seq!['.'] && name != seq!['.', '.']
}

/// A plain name is read as that name.
pub proof fn lemma_plain_name_is_one_part(style: PathStyle, name: Seq<char>)
    requires
        is_plain_name(name),
    ensures
        paths::parsed(style, name) == seq![PartView::Name(name)],
{
    assert forall|k: int| 0 <= k < name.len() implies name[k] != '/' && name[k] != '\\' && name[k]
        != ':' by {
        if name[k] == '/' || name[k] == '\\' || name[k] == ':' {
            assert(name.contains(name[k]));
        }
    }
    assert(name.skip(0) =~= name);
    assert(name.skip(0).skip(0) =~= name);
    assert(paths::prefix_of(name) is None);
    let breaks = paths::style_breaks(style);
    text_laws::lemma_unbroken_is_one_piece(name, breaks);
    assert(seq![name].drop_last() =~= Seq::<Seq<char>>::empty());
    assert(seq![name].last() == name);
    reveal_with_fuel(paths::name_parts, 2);
    assert(paths::name_parts(seq![name], true, false) =~= seq![PartView::Name(name)]);
    assert(paths::parsed(style, name) =~= seq![PartView::Name(name)]);
}

/// On Unix a slash in front is the root, and what follows it is read as names.
proof fn lemma_unix_root_and_names(rest: Seq<char>)
    ensures
        paths::parsed(PathStyle::Unix, seq!['/'] + rest) == seq![PartView::Root]
            + paths::name_parts(text::pieces(rest, Breaks::Slashes), false, false),
        paths::parsed(PathStyle::Unix, Seq::empty()) == Seq::<PartView>::empty(),
{
    let text = seq!['/'] + rest;
    assert(text.skip(0) =~= text);
    assert(text.take(1).len() == 1);
    assert(text.skip(0).skip(1) =~= rest);
    assert(Seq::<PartView>::empty().push(PartView::Root) =~= seq![PartView::Root]);
    let nothing = Seq::<char>::empty();
    assert(nothing.skip(0) =~= nothing);
    assert(nothing.skip(0).skip(0) =~= nothing);
    text_laws::lemma_unbroken_is_one_piece(nothing, Breaks::Slashes);
    assert(paths::parsed(PathStyle::Unix, nothing) =~= Seq::<PartView>::empty());
}

/// On Unix what follows a slash is read as it is below the root.
pub proof fn lemma_unix_names_after_a_slash(before: Seq<char>, after: Seq<char>)
    requires
        before.len() > 0,
    ensures
        paths::parsed(PathStyle::Unix, before.push('/') + after) == paths::parsed(
            PathStyle::Unix,
            before,
        ) + paths::parsed(PathStyle::Unix, seq!['/'] + after).skip(1),
{
    let whole = before.push('/') + after;
    let breaks = Breaks::Slashes;
    lemma_unix_root_and_names(after);
    let names = text::pieces(after, breaks);
    let below = paths::name_parts(names, false, false);
    assert((seq![PartView::Root] + below).skip(1) =~= below);
    assert(whole.skip(0) =~= whole);
    assert(before.skip(0) =~= before);
    let rooted = before[0] == '/';
    let from = if rooted {
        1int
    } else {
        0
    };
    assert(whole[0] == before[0]);
    assert(whole.take(1).len() == 1 && before.take(1).len() == 1);
    assert(whole.skip(from) =~= before.skip(from).push('/') + after);
    text_laws::lemma_pieces_on_both_sides(before.skip(from), '/', after, breaks);
    let first = text::pieces(before.skip(from), breaks);
    if rooted {
        lemma_parts_of_names_in_turn(first, names, false);
    } else {
        assert(before.skip(0)[0] != '/');
        lemma_begins_with_a_piece(before, breaks);
        lemma_parts_of_names_in_turn(first, names, true);
    }
    assert(paths::parsed(PathStyle::Unix, whole) =~= paths::parsed(PathStyle::Unix, before)
        + below);
}

/// A text that does not begin with a break has a piece.
pub(crate) proof fn lemma_begins_with_a_piece(text: Seq<char>, breaks: Breaks)
    requires
        text.len() > 0,
        !text::breaks_at(breaks, text[0]),
    ensures
        text::pieces(text, breaks).len() > 0,
    decreases text.len(),
{
    if text.len() > 1 {
        assert(text.drop_last()[0] == text[0]);
        lemma_begins_with_a_piece(text.drop_last(), breaks);
    } else {
        assert(text.last() == text[0]);
    }
}

/// Names that follow others are read as if none but them were there.
pub(crate) proof fn lemma_parts_of_names_in_turn(
    one: Seq<Seq<char>>,
    other: Seq<Seq<char>>,
    leading: bool,
)
    requires
        leading ==> one.len() > 0,
    ensures
        paths::name_parts(one + other, leading, false) == paths::name_parts(one, leading, false)
            + paths::name_parts(other, false, false),
    decreases other.len(),
{
    let both = one + other;
    if other.len() == 0 {
        assert(both =~= one);
        assert(paths::name_parts(one, leading, false) + paths::name_parts(other, false, false)
            =~= paths::name_parts(one, leading, false));
    } else {
        assert(both.drop_last() =~= one + other.drop_last());
        lemma_parts_of_names_in_turn(one, other.drop_last(), leading);
        assert(paths::name_parts(both, leading, false) =~= paths::name_parts(one, leading, false)
            + paths::name_parts(other, false, false));
    }
}

/// On Unix one name is read as what it is: dots stand for the folder itself and the one above it,
/// and the first of them for nothing unless the path begins with it.
pub proof fn lemma_unix_single_names(name: Seq<char>)
    requires
        is_plain_name(name),
    ensures
        paths::parsed(PathStyle::Unix, seq!['/'] + name) == seq![
            PartView::Root,
            PartView::Name(name),
        ],
        paths::parsed(PathStyle::Unix, seq!['/', '.']) == seq![PartView::Root],
        paths::parsed(PathStyle::Unix, seq!['/', '.', '.']) == seq![
            PartView::Root,
            PartView::Parent,
        ],
        paths::parsed(PathStyle::Unix, seq!['.']) == seq![PartView::Current],
        paths::parsed(PathStyle::Unix, seq!['.', '.']) == seq![PartView::Parent],
        paths::parsed(PathStyle::Unix, seq!['/']) == seq![PartView::Root],
        paths::parsed(PathStyle::Unix, Seq::empty()) == Seq::<PartView>::empty(),
{
    let breaks = Breaks::Slashes;
    let dot = seq!['.'];
    let dots = seq!['.', '.'];
    let nothing = Seq::<char>::empty();
    assert forall|k: int| 0 <= k < name.len() implies !text::breaks_at(
        breaks,
        #[trigger] name[k],
    ) by {
        if name[k] == '/' {
            assert(name.contains(name[k]));
        }
    }
    reveal_with_fuel(paths::name_parts, 2);
    lemma_unix_root_and_names(name);
    lemma_unix_root_and_names(dot);
    lemma_unix_root_and_names(dots);
    lemma_unix_root_and_names(nothing);
    text_laws::lemma_unbroken_is_one_piece(name, breaks);
    text_laws::lemma_unbroken_is_one_piece(dot, breaks);
    text_laws::lemma_unbroken_is_one_piece(dots, breaks);
    text_laws::lemma_unbroken_is_one_piece(nothing, breaks);
    assert(seq![name].drop_last() =~= Seq::<Seq<char>>::empty());
    assert(seq![dot].drop_last() =~= Seq::<Seq<char>>::empty());
    assert(seq![dots].drop_last() =~= Seq::<Seq<char>>::empty());
    assert(dots.len() != dot.len());
    assert(seq![PartView::Root] + paths::name_parts(seq![name], false, false) =~= seq![
        PartView::Root,
        PartView::Name(name),
    ]);
    assert(seq!['/'] + dot =~= seq!['/', '.']);
    assert(seq!['/'] + dots =~= seq!['/', '.', '.']);
    assert(seq!['/'] + nothing =~= seq!['/']);
    assert(seq![PartView::Root] + paths::name_parts(seq![dot], false, false) =~= seq![
        PartView::Root,
    ]);
    assert(seq![PartView::Root] + paths::name_parts(seq![dots], false, false) =~= seq![
        PartView::Root,
        PartView::Parent,
    ]);
    assert(seq![PartView::Root] + paths::name_parts(Seq::empty(), false, false) =~= seq![
        PartView::Root,
    ]);
    assert(dot.skip(0) =~= dot && dot.skip(0).skip(0) =~= dot);
    assert(dots.skip(0) =~= dots && dots.skip(0).skip(0) =~= dots);
    assert(paths::parsed(PathStyle::Unix, dot) =~= seq![PartView::Current]);
    assert(paths::parsed(PathStyle::Unix, dots) =~= seq![PartView::Parent]);
}

/// A name that is no text has the stem and the extension that it comes with, and is itself no text.
pub proof fn lemma_name_that_is_no_text(folder: Seq<PartView>, name: paths::OpaqueView)
    ensures
        ({
            let path = folder.push(PartView::Opaque(name));
            &&& paths::file_name(path) == Some(PartView::Opaque(name))
            &&& paths::file_name_text(path) is None
            &&& paths::extension(path) == name.extension
            &&& paths::file_stem(path) == name.stem
            &&& name.extension is None ==> paths::lower_extension(path) == Seq::<char>::empty()
            &&& name.extension matches Some(own) ==> text_laws::is_written_small(
                own,
                paths::lower_extension(path),
            )
        }),
{
    if let Some(own) = name.extension {
        text_laws::lemma_lower_letter_by_letter(own);
    }
}

/// A path without a name, such as a root or the folder above, has neither stem nor extension.
pub proof fn lemma_without_a_name(parts: Seq<PartView>)
    requires
        parts.len() == 0 || !(parts.last() is Name || parts.last() is Opaque),
    ensures
        paths::file_name(parts) is None,
        paths::extension(parts) is None,
        paths::file_stem(parts) is None,
        paths::lower_extension(parts) == Seq::<char>::empty(),
{
}

/// The levels of a path come from the inside out: its own name first, then those of its folder.
pub proof fn lemma_levels_from_the_inside_out(folder: Seq<PartView>, part: PartView, levels: nat)
    ensures
        part matches PartView::Name(name) ==> paths::level_names(folder.push(part), levels + 1)
            == seq![text::lower(name)] + paths::level_names(folder, levels),
        part is Opaque || part is Parent || part is Current ==> paths::level_names(
            folder.push(part),
            levels + 1,
        ) == paths::level_names(folder, levels),
        part is Root || part is Prefix ==> paths::level_names(folder.push(part), levels + 1)
            == Seq::<Seq<char>>::empty(),
{
    let path = folder.push(part);
    assert(path.drop_last() =~= folder);
    assert(paths::level_names(path, levels + 1) =~= match part {
        PartView::Name(name) => seq![text::lower(name)] + paths::level_names(folder, levels),
        PartView::Root => Seq::<Seq<char>>::empty(),
        PartView::Prefix(_) => Seq::<Seq<char>>::empty(),
        _ => paths::level_names(folder, levels),
    });
}

}
