//! What holds of where files go.

use vstd::prelude::*;
use crate::classifier::ClassificationView;
use crate::model::{Confidence, MoveView};
use crate::path_laws;
use crate::paths;
use crate::paths::{PartView, PathStyle, PathView};
use crate::plan;
use crate::text;
use crate::text_laws;

verus! {

// ---------------------------------------------------------------------------------------------
// Categories

/// The nine words that stand for a kind of file of a game.
pub open spec fn is_kept_word(word: Seq<char>) -> bool {
    ||| word == seq!['d', 'l', 'c']
    ||| word == seq!['h', 'a', 'c', 'k']
    ||| word == seq!['m', 'a', 'n', 'u', 'a', 'l']
    ||| word == seq!['m', 'o', 'd']
    ||| word == seq!['p', 'a', 't', 'c', 'h']
    ||| word == seq!['u', 'p', 'd', 'a', 't', 'e']
    ||| word == seq!['d', 'e', 'm', 'o']
    ||| word == seq!['t', 'r', 'a', 'n', 's', 'l', 'a', 't', 'i', 'o', 'n']
    ||| word == seq!['p', 'r', 'o', 't', 'o', 't', 'y', 'p', 'e']
}

/// A part of a path is called by one of the nine words, whatever the case of its letters.
pub open spec fn is_called(part: PartView, word: Seq<char>) -> bool {
    is_kept_word(word) && match part {
        PartView::Name(text) => text_laws::same_but_case(text, word),
        PartView::Prefix(text) => text_laws::same_but_case(text, word),
        _ => false,
    }
}

/// A category is one of the nine words, and each of them is one.
proof fn lemma_nine_categories(name: Seq<char>)
    ensures
        plan::is_category(name) <==> is_kept_word(name),
{
    reveal_strlit("dlc");
    reveal_strlit("hack");
    reveal_strlit("manual");
    reveal_strlit("mod");
    reveal_strlit("patch");
    reveal_strlit("update");
    reveal_strlit("demo");
    reveal_strlit("translation");
    reveal_strlit("prototype");
    assert("dlc"@ =~= seq!['d', 'l', 'c']);
    assert("hack"@ =~= seq!['h', 'a', 'c', 'k']);
    assert("manual"@ =~= seq!['m', 'a', 'n', 'u', 'a', 'l']);
    assert("mod"@ =~= seq!['m', 'o', 'd']);
    assert("patch"@ =~= seq!['p', 'a', 't', 'c', 'h']);
    assert("update"@ =~= seq!['u', 'p', 'd', 'a', 't', 'e']);
    assert("demo"@ =~= seq!['d', 'e', 'm', 'o']);
    assert("translation"@ =~= seq!['t', 'r', 'a', 'n', 's', 'l', 'a', 't', 'i', 'o', 'n']);
    assert("prototype"@ =~= seq!['p', 'r', 'o', 't', 'o', 't', 'y', 'p', 'e']);
}

/// The nine words are written small.
proof fn lemma_words_are_small(word: Seq<char>)
    requires
        is_kept_word(word),
    ensures
        text::lower(word) == word,
        word.len() >= 3,
        word[0] != '.' && word[0] != '/' && word[0] != '\\',
{
    assert forall|k: int| 0 <= k < word.len() implies 'a' <= #[trigger] word[k] <= 'z' by {}
    assert(text::lower(word) =~= word);
}

/// The categories that occur among the texts of parts are the words that parts are called by.
proof fn lemma_categories_of_parts(style: PathStyle, parts: Seq<PartView>, word: Seq<char>)
    ensures
        plan::categories(paths::texts(style, parts)).contains(word) <==> exists|k: int|
            0 <= k < parts.len() && is_called(#[trigger] parts[k], word),
{
    let texts = paths::texts(style, parts);
    lemma_nine_categories(word);
    if plan::categories(texts).contains(word) {
        let j = choose|j: int| 0 <= j < texts.len() && text::lower(#[trigger] texts[j]) == word;
        lemma_words_are_small(word);
        text_laws::lemma_same_but_case(texts[j], word);
        assert(texts.contains(texts[j]));
        path_laws::lemma_text_of_some_part(style, parts, texts[j]);
        let k = choose|k: int|
            0 <= k < parts.len() && paths::texts(style, seq![#[trigger] parts[k]])
                == seq![texts[j]];
        path_laws::lemma_text_of_one_part(style, parts[k]);
        assert(seq![texts[j]][0] == texts[j]);
        assert(paths::texts(style, seq![parts[k]])[0] == texts[j]);
        assert(text_laws::same_letter(texts[j][0], word[0]));
        assert(is_called(parts[k], word));
    }
    if exists|k: int| 0 <= k < parts.len() && is_called(#[trigger] parts[k], word) {
        let k = choose|k: int| 0 <= k < parts.len() && is_called(#[trigger] parts[k], word);
        let name = match parts[k] {
            PartView::Name(text) => text,
            PartView::Prefix(text) => text,
            _ => word,
        };
        path_laws::lemma_text_of_one_part(style, parts[k]);
        path_laws::lemma_text_of_some_part(style, parts, name);
        assert(texts.contains(name));
        let j = choose|j: int| 0 <= j < texts.len() && texts[j] == name;
        lemma_words_are_small(word);
        text_laws::lemma_same_but_case(name, word);
        assert(text::lower(texts[j]) == word);
    }
}

/// The category of a path is the word that a part of it is called by, where all parts that are
/// called by one of the nine words are called by the same; it is one of those words.
pub proof fn lemma_category_is_what_parts_are_called(
    style: PathStyle,
    parts: Seq<PartView>,
    word: Seq<char>,
)
    ensures
        plan::category(paths::texts(style, parts)) == Some(word) <==> (exists|k: int|
            0 <= k < parts.len() && is_called(#[trigger] parts[k], word)) && (forall|
            k: int,
            other: Seq<char>,
        |
            0 <= k < parts.len() && #[trigger] is_called(parts[k], other) ==> other == word),
        plan::category(paths::texts(style, parts)) == Some(word) ==> is_kept_word(word),
{
    let texts = paths::texts(style, parts);
    let found = plan::categories(texts);
    plan::lemma_category_is_the_only_one(texts);
    lemma_categories_of_parts(style, parts, word);
    assert(plan::is_only_category(texts, word) <==> plan::category(texts) == Some(word));
    if plan::category(texts) == Some(word) {
        assert(set![word].contains(word));
        assert(found.contains(word));
        assert forall|k: int, other: Seq<char>|
            0 <= k < parts.len() && #[trigger] is_called(parts[k], other) implies other == word by {
            lemma_categories_of_parts(style, parts, other);
            assert(found.contains(other));
            assert(set![word].contains(other));
        }
    }
    if (exists|k: int| 0 <= k < parts.len() && is_called(#[trigger] parts[k], word)) && (forall|
        k: int,
        other: Seq<char>,
    |
        0 <= k < parts.len() && #[trigger] is_called(parts[k], other) ==> other == word) {
        assert forall|other: Seq<char>| found.contains(other) == set![word].contains(other) by {
            lemma_categories_of_parts(style, parts, other);
            if found.contains(other) {
                let k = choose|k: int|
                    0 <= k < parts.len() && is_called(#[trigger] parts[k], other);
                assert(is_called(parts[k], other));
            }
        }
        assert(found =~= set![word]);
        assert(plan::is_only_category(texts, word));
    }
}

/// A path none of whose parts is called by one of the nine words has no category.
pub proof fn lemma_no_category_without_the_words(style: PathStyle, parts: Seq<PartView>)
    requires
        forall|k: int, word: Seq<char>|
            0 <= k < parts.len() ==> !(#[trigger] is_called(parts[k], word)),
    ensures
        plan::category(paths::texts(style, parts)) is None,
{
    let texts = paths::texts(style, parts);
    if plan::category(texts) is Some {
        let word = plan::category(texts).unwrap();
        lemma_category_is_what_parts_are_called(style, parts, word);
    }
}

// ---------------------------------------------------------------------------------------------
// Destinations

/// A folder whose parts are more than a lone prefix.
pub open spec fn is_folder(path: PathView) -> bool {
    path.parts.len() != 1 || !(path.parts[0] is Prefix)
}

/// The folder of a platform whose slug is a plain name is called by the slug, and stands in the
/// output folder.
pub proof fn lemma_platform_folder_is_called_by_the_slug(output_root: PathView, slug: Seq<char>)
    requires
        is_folder(output_root),
        path_laws::is_plain_name(slug),
    ensures
        plan::platform_folder(output_root, slug).parts == output_root.parts.push(
            PartView::Name(slug),
        ),
        plan::platform_folder(output_root, slug).style == output_root.style,
{
    path_laws::lemma_plain_name_is_one_part(output_root.style, slug);
    path_laws::lemma_names_are_appended(output_root.parts, seq![PartView::Name(slug)]);
    assert(output_root.parts + seq![PartView::Name(slug)] =~= output_root.parts.push(
        PartView::Name(slug),
    ));
}

/// On Unix a slug of two names stands for a folder in a folder, and one that begins with a slash for a
/// place of its own.
pub proof fn lemma_platform_folder_of_two_names(
    output_root: PathView,
    outer: Seq<char>,
    inner: Seq<char>,
)
    requires
        output_root.style == PathStyle::Unix,
        output_root.parts.len() > 0,
        !(output_root.parts[0] is Prefix),
        path_laws::is_plain_name(outer),
        path_laws::is_plain_name(inner),
    ensures
        plan::platform_folder(output_root, outer.push('/') + inner).parts
            == output_root.parts.push(PartView::Name(outer)).push(PartView::Name(inner)),
        plan::platform_folder(output_root, seq!['/'] + inner).parts == seq![
            PartView::Root,
            PartView::Name(inner),
        ],
{
    path_laws::lemma_unix_names_after_a_slash(outer, inner);
    path_laws::lemma_unix_single_names(inner);
    path_laws::lemma_plain_name_is_one_part(PathStyle::Unix, outer);
    let below = seq![PartView::Root, PartView::Name(inner)].skip(1);
    assert(below =~= seq![PartView::Name(inner)]);
    let names = seq![PartView::Name(outer)] + below;
    assert(paths::parsed(PathStyle::Unix, outer.push('/') + inner) == names);
    path_laws::lemma_names_are_appended(output_root.parts, names);
    assert(output_root.parts + names =~= output_root.parts.push(PartView::Name(outer)).push(
        PartView::Name(inner),
    ));
    path_laws::lemma_place_of_its_own(
        output_root.parts,
        seq![PartView::Root, PartView::Name(inner)],
    );
}

/// The output folder is the folder `roms` in the source folder.
pub proof fn lemma_output_folder_is_called_roms(source_root: PathView)
    requires
        is_folder(source_root),
    ensures
        plan::output_folder(source_root).parts == source_root.parts.push(
            PartView::Name(seq!['r', 'o', 'm', 's']),
        ),
        plan::output_folder(source_root).style == source_root.style,
{
    reveal_strlit("roms");
    assert("roms"@ =~= seq!['r', 'o', 'm', 's']);
    path_laws::lemma_name_is_appended(source_root, PartView::Name("roms"@));
}

/// A file below the source folder none of whose parts is called by one of the nine words goes to
/// its platform's folder, under its own name and nowhere deeper.
pub proof fn lemma_plain_file_goes_to_its_platform(
    source_root: PathView,
    output_root: PathView,
    source_file: PathView,
    below: Seq<PartView>,
    slug: Seq<char>,
)
    requires
        source_file.parts == source_root.parts + below,
        below.len() > 0,
        below.last() is Name || below.last() is Opaque,
        forall|k: int, word: Seq<char>|
            0 <= k < below.len() ==> !(#[trigger] is_called(below[k], word)),
        is_folder(output_root),
        path_laws::is_plain_name(slug),
    ensures
        plan::destination(source_root, output_root, source_file, slug) matches Some(place)
            && place.parts == output_root.parts.push(PartView::Name(slug)).push(below.last())
            && place.style == output_root.style,
{
    path_laws::lemma_below_its_folder(source_root.parts, below);
    assert(source_file.parts.last() == below.last());
    lemma_no_category_without_the_words(source_file.style, below);
    let folder = plan::platform_folder(output_root, slug);
    lemma_platform_folder_is_called_by_the_slug(output_root, slug);
    path_laws::lemma_name_is_appended(folder, below.last());
}

/// A file below the source folder in whose path one of the nine words, and no other of them, occurs
/// goes to the folder called by that word in its platform's folder, under its own name.
pub proof fn lemma_file_of_one_category_goes_to_its_folder(
    source_root: PathView,
    output_root: PathView,
    source_file: PathView,
    below: Seq<PartView>,
    slug: Seq<char>,
    at: int,
    word: Seq<char>,
)
    requires
        source_file.parts == source_root.parts + below,
        0 <= at < below.len(),
        is_called(below[at], word),
        forall|k: int, other: Seq<char>|
            0 <= k < below.len() && #[trigger] is_called(below[k], other) ==> other == word,
        below.last() is Name || below.last() is Opaque,
        is_folder(output_root),
        path_laws::is_plain_name(slug),
    ensures
        plan::destination(source_root, output_root, source_file, slug) matches Some(place)
            && place.parts == output_root.parts.push(PartView::Name(slug)).push(
            PartView::Name(word),
        ).push(below.last()) && place.style == output_root.style,
{
    path_laws::lemma_below_its_folder(source_root.parts, below);
    assert(source_file.parts.last() == below.last());
    lemma_category_is_what_parts_are_called(source_file.style, below, word);
    let folder = plan::platform_folder(output_root, slug);
    let place = paths::extended(folder, PartView::Name(word));
    lemma_platform_folder_is_called_by_the_slug(output_root, slug);
    path_laws::lemma_name_is_appended(folder, PartView::Name(word));
    path_laws::lemma_name_is_appended(place, below.last());
}

/// A file below the source folder in whose path two of the nine words occur goes to its platform's
/// folder, under its own name.
pub proof fn lemma_file_of_two_categories_goes_to_its_platform(
    source_root: PathView,
    output_root: PathView,
    source_file: PathView,
    below: Seq<PartView>,
    slug: Seq<char>,
    one: int,
    other: int,
    word: Seq<char>,
    second: Seq<char>,
)
    requires
        source_file.parts == source_root.parts + below,
        0 <= one < below.len(),
        0 <= other < below.len(),
        is_called(below[one], word),
        is_called(below[other], second),
        word != second,
        below.last() is Name || below.last() is Opaque,
        is_folder(output_root),
        path_laws::is_plain_name(slug),
    ensures
        plan::destination(source_root, output_root, source_file, slug) matches Some(place)
            && place.parts == output_root.parts.push(PartView::Name(slug)).push(below.last())
            && place.style == output_root.style,
{
    path_laws::lemma_below_its_folder(source_root.parts, below);
    assert(source_file.parts.last() == below.last());
    let texts = paths::texts(source_file.style, below);
    if plan::category(texts) is Some {
        lemma_category_is_what_parts_are_called(
            source_file.style,
            below,
            plan::category(texts).unwrap(),
        );
    }
    let folder = plan::platform_folder(output_root, slug);
    lemma_platform_folder_is_called_by_the_slug(output_root, slug);
    path_laws::lemma_name_is_appended(folder, below.last());
}

/// Where a file goes does not depend on the folders that it stands in, but for the nine words: two
/// files of the same name below the source folder go to the same place if they are called by the
/// same words, whatever the slug.
pub proof fn lemma_other_folders_are_idle(
    source_root: PathView,
    output_root: PathView,
    one: PathView,
    other: PathView,
    below: Seq<PartView>,
    beside: Seq<PartView>,
    slug: Seq<char>,
)
    requires
        one.parts == source_root.parts + below,
        other.parts == source_root.parts + beside,
        below.len() > 0,
        beside.len() > 0,
        below.last() == beside.last(),
        forall|word: Seq<char>|
            (exists|k: int| 0 <= k < below.len() && #[trigger] is_called(below[k], word))
                <==> #[trigger] occurs(beside, word),
    ensures
        plan::destination(source_root, output_root, one, slug) == plan::destination(
            source_root,
            output_root,
            other,
            slug,
        ),
{
    path_laws::lemma_below_its_folder(source_root.parts, below);
    path_laws::lemma_below_its_folder(source_root.parts, beside);
    assert(one.parts.last() == below.last());
    assert(other.parts.last() == beside.last());
    let texts = paths::texts(one.style, below);
    let others = paths::texts(other.style, beside);
    assert forall|word: Seq<char>| plan::categories(texts).contains(word) == plan::categories(
        others,
    ).contains(word) by {
        lemma_categories_of_parts(one.style, below, word);
        lemma_categories_of_parts(other.style, beside, word);
        assert(occurs(beside, word) == (exists|k: int|
            0 <= k < below.len() && #[trigger] is_called(below[k], word)));
    }
    assert(plan::categories(texts) =~= plan::categories(others));
    assert forall|word: Seq<char>|
        plan::is_only_category(texts, word) == plan::is_only_category(others, word) by {}
    plan::lemma_category_is_the_only_one(texts);
    plan::lemma_category_is_the_only_one(others);
    if plan::category(texts) is Some {
        let word = plan::category(texts).unwrap();
        assert(plan::is_only_category(texts, word));
        assert(plan::is_only_category(others, word));
    } else if plan::category(others) is Some {
        let word = plan::category(others).unwrap();
        assert(plan::is_only_category(others, word));
        assert(plan::is_only_category(texts, word));
    }
}

/// One of the parts is called by this word.
pub open spec fn occurs(parts: Seq<PartView>, word: Seq<char>) -> bool {
    exists|k: int| 0 <= k < parts.len() && #[trigger] is_called(parts[k], word)
}

/// A file goes nowhere exactly when it has no name or does not stand below the source folder.
pub proof fn lemma_goes_nowhere(
    source_root: PathView,
    output_root: PathView,
    source_file: PathView,
    slug: Seq<char>,
    at: int,
)
    requires
        ({
            ||| source_file.parts.len() == 0
            ||| !(source_file.parts.last() is Name || source_file.parts.last() is Opaque)
            ||| 0 <= at < source_root.parts.len() && (at < source_file.parts.len()
                ==> !path_laws::same_or_prefixes(source_file.parts[at], source_root.parts[at]))
        }),
    ensures
        plan::destination(source_root, output_root, source_file, slug) is None,
{
    if source_file.parts.len() > 0 && (source_file.parts.last() is Name
        || source_file.parts.last() is Opaque) {
        path_laws::lemma_elsewhere(source_file.parts, source_root.parts, at);
    }
}

/// A planned move tells what was said of its file, is not marked, and goes where the file of that
/// platform goes; a file without a platform goes nowhere.
pub proof fn lemma_planned_move_tells_what_was_said(
    source_root: PathView,
    output_root: PathView,
    source: PathView,
    said: ClassificationView,
)
    ensures
        ({
            let item = plan::planned(source_root, output_root, source, said);
            &&& item.source == source
            &&& item.platform_slug == said.platform_slug
            &&& item.confidence == said.confidence
            &&& item.reason == said.reason
            &&& !item.has_conflict
            &&& said.platform_slug is None ==> item.destination is None
            &&& said.platform_slug matches Some(slug) ==> item.destination == plan::destination(
                source_root,
                output_root,
                source,
                slug,
            )
        }),
{
}

/// Where a file goes depends on its platform alone, and not on how sure that is or why.
pub proof fn lemma_sureness_is_idle(
    source_root: PathView,
    output_root: PathView,
    source: PathView,
    said: ClassificationView,
    confidence: Confidence,
    reason: Seq<char>,
)
    ensures
        plan::planned(source_root, output_root, source, said).destination == plan::planned(
            source_root,
            output_root,
            source,
            ClassificationView { confidence, reason, ..said },
        ).destination,
{
}

// ---------------------------------------------------------------------------------------------
// Conflicts

/// Two moves go to paths of the same parts, one by one.
pub open spec fn go_to_same_parts(one: MoveView, other: MoveView) -> bool {
    match (one.destination, other.destination) {
        (Some(one), Some(other)) => one.style == other.style && one.parts.len() == other.parts.len()
            && forall|k: int| 0 <= k < one.parts.len() ==> #[trigger] one.parts[k] == other.parts[k],
        _ => false,
    }
}

/// Of two moves that go to paths of the same parts the later one is marked, whatever else holds of
/// the two.
pub proof fn lemma_later_move_is_marked(plan: Seq<MoveView>, one: int, other: int)
    requires
        0 <= one < other < plan.len(),
        go_to_same_parts(plan[one], plan[other]),
    ensures
        plan::conflicts_marked(plan)[other].has_conflict,
{
    let here = plan[one].destination.unwrap();
    let there = plan[other].destination.unwrap();
    assert(here.parts =~= there.parts);
    path_laws::lemma_same_by_parts(here, there);
    assert(plan::same_destination(plan[one], plan[other]));
    assert(plan::clashes(plan, other));
}

/// A move that was not marked before is marked only because an earlier one goes to a path of the
/// same parts, but for how a prefix is written.
pub proof fn lemma_marked_because_of_an_earlier_one(plan: Seq<MoveView>, at: int) -> (earlier: int)
    requires
        0 <= at < plan.len(),
        !plan[at].has_conflict,
        plan::conflicts_marked(plan)[at].has_conflict,
    ensures
        0 <= earlier < at,
        plan[earlier].destination matches Some(one) && plan[at].destination matches Some(other)
            && one.style == other.style && one.parts.len() == other.parts.len() && forall|k: int|
            0 <= k < one.parts.len() ==> path_laws::same_or_prefixes(
                #[trigger] one.parts[k],
                other.parts[k],
            ),
{
    let k = choose|k: int| 0 <= k < at && plan::same_destination(#[trigger] plan[k], plan[at]);
    path_laws::lemma_same_by_parts(plan[k].destination.unwrap(), plan[at].destination.unwrap());
    k
}

/// A move that goes nowhere is never marked by others.
pub proof fn lemma_nowhere_is_no_conflict(plan: Seq<MoveView>, at: int)
    requires
        0 <= at < plan.len(),
        plan[at].destination is None,
    ensures
        plan::conflicts_marked(plan)[at].has_conflict == plan[at].has_conflict,
{
}

/// Marking takes no move away, adds none, and changes nothing of a move but its mark, which it
/// never takes away.
pub proof fn lemma_marking_changes_marks_only(plan: Seq<MoveView>, at: int)
    requires
        0 <= at < plan.len(),
    ensures
        plan::conflicts_marked(plan).len() == plan.len(),
        ({
            let item = plan::conflicts_marked(plan)[at];
            &&& item.source == plan[at].source
            &&& item.destination == plan[at].destination
            &&& item.platform_slug == plan[at].platform_slug
            &&& item.confidence == plan[at].confidence
            &&& item.reason == plan[at].reason
            &&& plan[at].has_conflict ==> item.has_conflict
        }),
{
}

/// Which moves are marked depends on where they go alone: two plans whose moves go to the same
/// places, and were marked alike before, are marked alike.
pub proof fn lemma_marks_go_by_destinations(plan: Seq<MoveView>, other: Seq<MoveView>, at: int)
    requires
        plan.len() == other.len(),
        forall|k: int|
            0 <= k < plan.len() ==> (#[trigger] plan[k]).destination == other[k].destination
                && plan[k].has_conflict == other[k].has_conflict,
        0 <= at < plan.len(),
    ensures
        plan::conflicts_marked(plan)[at].has_conflict == plan::conflicts_marked(
            other,
        )[at].has_conflict,
{
    assert(plan[at].destination == other[at].destination);
    if plan::clashes(plan, at) {
        let k = choose|k: int| 0 <= k < at && plan::same_destination(#[trigger] plan[k], plan[at]);
        assert(plan::same_destination(other[k], other[at]));
    }
    if plan::clashes(other, at) {
        let k = choose|k: int|
            0 <= k < at && plan::same_destination(#[trigger] other[k], other[at]);
        assert(plan[k].destination == other[k].destination);
        assert(plan::same_destination(plan[k], plan[at]));
    }
}

// ---------------------------------------------------------------------------------------------
// Counts

/// A plan with one more move has one more that is classified exactly if that one has a platform,
/// one more that is not if it has none, and one more conflict if it is marked.
pub proof fn lemma_counts_with_one_more(plan: Seq<MoveView>, item: MoveView)
    ensures
        plan::classified(plan.push(item)).len() == plan::classified(plan).len() + if item.platform_slug is Some {
            1int
        } else {
            0
        },
        plan::unclassified(plan.push(item)).len() == plan::unclassified(plan).len() + if item.platform_slug is None {
            1int
        } else {
            0
        },
        plan::conflicting(plan.push(item)).len() == plan::conflicting(plan).len() + if item.has_conflict {
            1int
        } else {
            0
        },
        plan::classified(Seq::empty()).len() == 0,
        plan::unclassified(Seq::empty()).len() == 0,
        plan::conflicting(Seq::empty()).len() == 0,
{
    reveal(Seq::filter);
    assert(plan.push(item).drop_last() =~= plan);
}

}
