//! What is read off a file, and off the lists of platforms.

use vstd::prelude::*;
use crate::classifier;
use crate::classifier::{ArchiveKind, Classifier, EntryView, RomTypeView, RuleView};
use crate::model::Confidence;
use crate::path_laws;
use crate::paths;
use crate::paths::{PartView, PathStyle, PathView};
use crate::signal_laws;
use crate::text;
use crate::text_laws;

verus! {

// ---------------------------------------------------------------------------------------------
// Extension, words and folders

/// The extension that counts is that of the file's name, written small, or nothing.
pub proof fn lemma_extension_is_read_off_the_name(
    archives: Set<Seq<char>>,
    path: PathView,
    listing: Option<Seq<EntryView>>,
    stem: Seq<char>,
    extension: Seq<char>,
)
    requires
        path.parts.len() > 0,
        path.parts.last() == PartView::Name(stem.push('.') + extension),
        stem.len() > 0,
        !extension.contains('.'),
    ensures
        text_laws::is_written_small(
            extension,
            classifier::signals(archives, path, listing).extension,
        ),
{
    assert(path.parts =~= path.parts.drop_last().push(path.parts.last()));
    path_laws::lemma_extension_of_the_name(path.parts.drop_last(), stem, extension);
}

/// A file whose name has no dot, or none but in front, or that has no name, has no extension that
/// counts.
pub proof fn lemma_no_extension_is_read(
    archives: Set<Seq<char>>,
    path: PathView,
    listing: Option<Seq<EntryView>>,
    name: Seq<char>,
)
    requires
        ({
            ||| path.parts.len() == 0
            ||| !(path.parts.last() is Name || path.parts.last() is Opaque)
            ||| !name.contains('.') && (path.parts.last() == PartView::Name(name)
                || path.parts.last() == PartView::Name(seq!['.'] + name))
        }),
    ensures
        classifier::signals(archives, path, listing).extension == Seq::<char>::empty(),
{
    path_laws::lemma_file_name_is_the_last_part(path.parts);
    if path.parts.len() > 0 && (path.parts.last() is Name || path.parts.last() is Opaque) {
        assert(path.parts =~= path.parts.drop_last().push(path.parts.last()));
        path_laws::lemma_no_extension(path.parts.drop_last(), name);
    }
}

/// The words that count are those of the file's name, and nothing where it has none that is text.
pub proof fn lemma_words_are_read_off_the_name(
    archives: Set<Seq<char>>,
    path: PathView,
    listing: Option<Seq<EntryView>>,
)
    ensures
        path.parts.len() > 0 && path.parts.last() is Name ==> classifier::signals(
            archives,
            path,
            listing,
        ).words == classifier::normalized(path.parts.last()->Name_0),
        path.parts.len() == 0 || !(path.parts.last() is Name) ==> classifier::signals(
            archives,
            path,
            listing,
        ).words == Seq::<char>::empty(),
{
    path_laws::lemma_file_name_is_the_last_part(path.parts);
    if path.parts.len() > 0 && path.parts.last() is Name {
        text::lemma_lower_twice(path.parts.last()->Name_0);
    } else {
        let nothing = Seq::<char>::empty();
        signal_laws::lemma_word_is_normalized(nothing);
        assert(classifier::normalized(nothing) =~= nothing);
    }
}

/// The folders that count are the file itself and the five folders above it, by their names, written
/// small.
pub proof fn lemma_folders_are_read_off_the_path(
    archives: Set<Seq<char>>,
    path: PathView,
    listing: Option<Seq<EntryView>>,
    folder: Seq<char>,
)
    ensures
        classifier::signals(archives, path, listing).folders.contains(folder) <==> exists|
            above: int,
            name: Seq<char>,
        |
            #![trigger path_laws::is_named_level(path.parts, above, name)]
            above < 6 && path_laws::is_named_level(path.parts, above, name)
                && text_laws::is_written_small(name, folder),
{
    path_laws::lemma_levels_are_file_and_folders(path.parts, 6, folder);
}

/// A folder hint speaks for a rule exactly if, whatever the case of the letters, it stands in the name
/// of the file or of one of the five folders above it.
pub proof fn lemma_folder_hint_speaks(
    archives: Set<Seq<char>>,
    path: PathView,
    listing: Option<Seq<EntryView>>,
    rule: RuleView,
)
    ensures
        signal_laws::by_folder(rule, classifier::signals(archives, path, listing)) <==> exists|
            h: int,
            above: int,
            name: Seq<char>,
            at: int,
        |
            #![trigger hint_in_level(path.parts, above, name, rule.folder_hints[h], at)]
            0 <= h < rule.folder_hints.len() && hint_in_level(
                path.parts,
                above,
                name,
                rule.folder_hints[h],
                at,
            ),
{
    let signals = classifier::signals(archives, path, listing);
    let hints = rule.folder_hints;
    if signal_laws::by_folder(rule, signals) {
        let h = choose|h: int|
            0 <= h < hints.len() && signal_laws::is_hinted(signals.folders, #[trigger] hints[h]);
        let (t, at) = choose|t: int, at: int|
            0 <= t < signals.folders.len() && #[trigger] signal_laws::stands_small(
                signals.folders[t],
                hints[h],
                at,
            );
        let folder = signals.folders[t];
        assert(signals.folders.contains(folder));
        lemma_folders_are_read_off_the_path(archives, path, listing, folder);
        let (above, name) = choose|above: int, name: Seq<char>|
            #![trigger path_laws::is_named_level(path.parts, above, name)]
            above < 6 && path_laws::is_named_level(path.parts, above, name)
                && text_laws::is_written_small(name, folder);
        assert forall|k: int| 0 <= k < hints[h].len() implies text_laws::same_letter(
            name[at + k],
            #[trigger] hints[h][k],
        ) by {
            assert(folder[at + k] as int == hints[h][k] as int + if 'A' <= hints[h][k] <= 'Z' {
                32int
            } else {
                0
            });
        }
        assert(hint_in_level(path.parts, above, name, hints[h], at));
    }
    if exists|h: int, above: int, name: Seq<char>, at: int|
        #![trigger hint_in_level(path.parts, above, name, rule.folder_hints[h], at)]
        0 <= h < hints.len() && hint_in_level(path.parts, above, name, hints[h], at) {
        let (h, above, name, at) = choose|h: int, above: int, name: Seq<char>, at: int|
            #![trigger hint_in_level(path.parts, above, name, rule.folder_hints[h], at)]
            0 <= h < hints.len() && hint_in_level(path.parts, above, name, hints[h], at);
        let folder = text::lower(name);
        text_laws::lemma_lower_letter_by_letter(name);
        lemma_folders_are_read_off_the_path(archives, path, listing, folder);
        assert(path_laws::is_named_level(path.parts, above, name));
        assert(signals.folders.contains(folder));
        let t = choose|t: int| 0 <= t < signals.folders.len() && signals.folders[t] == folder;
        assert forall|k: int| 0 <= k < hints[h].len() implies folder[at + k] as int == (
        #[trigger] hints[h][k]) as int + if 'A' <= hints[h][k] <= 'Z' {
            32int
        } else {
            0
        } by {
            assert(text_laws::same_letter(name[at + k], hints[h][k]));
            assert(folder[at + k] as int == name[at + k] as int + if 'A' <= name[at + k] <= 'Z' {
                32int
            } else {
                0
            });
        }
        assert(signal_laws::stands_small(signals.folders[t], hints[h], at));
        assert(signal_laws::is_hinted(signals.folders, hints[h]));
    }
}

/// A hint stands, whatever the case of the letters, in the name of the file or of one of the five
/// folders above it.
pub open spec fn hint_in_level(
    parts: Seq<PartView>,
    above: int,
    name: Seq<char>,
    hint: Seq<char>,
    at: int,
) -> bool {
    &&& above < 6 && path_laws::is_named_level(parts, above, name)
    &&& 0 <= at && at + hint.len() <= name.len()
    &&& forall|k: int|
        0 <= k < hint.len() ==> text_laws::same_letter(name[at + k], #[trigger] hint[k])
}

// ---------------------------------------------------------------------------------------------
// Bracketed tokens

/// Some characters stand between an opening and a closing bracket, round or square, and none of them
/// is a bracket.
pub open spec fn is_enclosed(text: Seq<char>, from: int, to: int) -> bool {
    &&& 0 < from < to < text.len()
    &&& text[from - 1] == '[' || text[from - 1] == '('
    &&& text[to] == ']' || text[to] == ')'
    &&& forall|k: int|
        from <= k < to ==> (#[trigger] text[k]) != '[' && text[k] != '(' && text[k] != ']'
            && text[k] != ')'
}

/// The bracketed tokens of a text are what stands in it between an opening and a closing bracket,
/// without brackets inside, trimmed and written small; and no others.
pub proof fn lemma_tokens_stand_in_brackets(text: Seq<char>, token: Seq<char>)
    ensures
        classifier::bracket_tokens(text).contains(token) <==> exists|from: int, to: int|
            #[trigger] is_enclosed(text, from, to) && token == text::lower(
                text::trim(text.subrange(from, to)),
            ),
{
    lemma_tokens_within(text, token, text.len());
    if exists|from: int, to: int| #[trigger]
        is_enclosed(text, from, to) && token == text::lower(
            text::trim(text.subrange(from, to)),
        ) {
        let (from, to) = choose|from: int, to: int| #[trigger]
            is_enclosed(text, from, to) && token == text::lower(
                text::trim(text.subrange(from, to)),
            );
        assert(enclosed_token(text, from, to, token));
    }
    if exists|from: int, to: int|
        to < text.len() && #[trigger] enclosed_token(text, from, to, token) {
        let (from, to) = choose|from: int, to: int|
            to < text.len() && #[trigger] enclosed_token(text, from, to, token);
        assert(is_enclosed(text, from, to));
    }
}

spec fn enclosed_token(text: Seq<char>, from: int, to: int, token: Seq<char>) -> bool {
    is_enclosed(text, from, to) && token == text::lower(text::trim(text.subrange(from, to)))
}

proof fn lemma_tokens_within(text: Seq<char>, token: Seq<char>, limit: nat)
    requires
        limit <= text.len(),
    ensures
        classifier::tokens_within(text, limit).contains(token) <==> exists|from: int, to: int|
            to < limit && #[trigger] enclosed_token(text, from, to, token),
    decreases limit,
{
    let all = classifier::tokens_within(text, limit);
    if limit == 0 {
        reveal(Seq::filter);
        assert(all.len() == 0);
        assert forall|from: int, to: int| !(to < limit && #[trigger] enclosed_token(
            text,
            from,
            to,
            token,
        )) by {}
    } else {
        let last = (limit - 1) as nat;
        let before = classifier::tokens_within(text, last);
        lemma_tokens_within(text, token, last);
        classifier::lemma_tokens_step(text, last);
        lemma_ends_token(text, last as int, token);
        if all.contains(token) {
            let k = choose|k: int| 0 <= k < all.len() && all[k] == token;
            if k < before.len() {
                assert(before[k] == token);
                assert(before.contains(token));
            }
        }
        if before.contains(token) {
            let k = choose|k: int| 0 <= k < before.len() && before[k] == token;
            assert(all[k] == token);
        }
        if exists|from: int, to: int|
            to < limit && #[trigger] enclosed_token(text, from, to, token) {
            let (from, to) = choose|from: int, to: int|
                to < limit && #[trigger] enclosed_token(text, from, to, token);
            if to == last {
                assert(all[all.len() - 1] == token);
            }
        }
    }
}

proof fn lemma_ends_token(text: Seq<char>, to: int, token: Seq<char>)
    requires
        0 <= to < text.len(),
    ensures
        classifier::ends_token(text, to) && classifier::token_before(text, to) == token
            <==> exists|from: int| #[trigger] enclosed_token(text, from, to, token),
{
    if classifier::ends_token(text, to) {
        let from = choose|from: int| #[trigger] classifier::runs_open(text, from, to) && from < to;
        assert(is_enclosed(text, from, to));
        if classifier::token_before(text, to) == token {
            assert(enclosed_token(text, from, to, token));
        }
    }
    if exists|from: int| #[trigger] enclosed_token(text, from, to, token) {
        let from = choose|from: int| #[trigger] enclosed_token(text, from, to, token);
        assert(classifier::runs_open(text, from, to));
        let other = choose|other: int| #[trigger] classifier::runs_open(text, other, to) && other
            < to;
        classifier::lemma_one_run(text, from, other, to);
    }
}

/// The tokens that count are the bracketed ones of the file's name.
pub proof fn lemma_tokens_are_read_off_the_name(
    archives: Set<Seq<char>>,
    path: PathView,
    listing: Option<Seq<EntryView>>,
    name: Seq<char>,
    token: Seq<char>,
)
    requires
        path.parts.len() > 0,
        path.parts.last() == PartView::Name(name),
    ensures
        classifier::signals(archives, path, listing).tokens.contains(token) <==> exists|
            from: int,
            to: int,
        | #[trigger]
            is_enclosed(name, from, to) && token == text::lower(
                text::trim(name.subrange(from, to)),
            ),
{
    let small = text::lower(name);
    path_laws::lemma_file_name_is_the_last_part(path.parts);
    lemma_tokens_stand_in_brackets(small, token);
    assert forall|from: int, to: int| #[trigger]
        is_enclosed(name, from, to) == is_enclosed(small, from, to) by {
        lemma_enclosed_in_any_case(name, from, to);
    }
    assert forall|from: int, to: int| #[trigger]
        is_enclosed(name, from, to) implies text::lower(text::trim(small.subrange(from, to)))
        == text::lower(text::trim(name.subrange(from, to))) by {
        assert(small.subrange(from, to) =~= text::lower(name.subrange(from, to)));
        lemma_trim_in_any_case(name.subrange(from, to));
        text::lemma_lower_twice(text::trim(name.subrange(from, to)));
    }
    if classifier::bracket_tokens(small).contains(token) {
        let (from, to) = choose|from: int, to: int| #[trigger]
            is_enclosed(small, from, to) && token == text::lower(
                text::trim(small.subrange(from, to)),
            );
        assert(is_enclosed(name, from, to));
    }
    if exists|from: int, to: int| #[trigger]
        is_enclosed(name, from, to) && token == text::lower(
            text::trim(name.subrange(from, to)),
        ) {
        let (from, to) = choose|from: int, to: int| #[trigger]
            is_enclosed(name, from, to) && token == text::lower(
                text::trim(name.subrange(from, to)),
            );
        assert(is_enclosed(small, from, to));
    }
}

proof fn lemma_enclosed_in_any_case(name: Seq<char>, from: int, to: int)
    ensures
        is_enclosed(name, from, to) == is_enclosed(text::lower(name), from, to),
{
    let small = text::lower(name);
    if is_enclosed(name, from, to) {
        assert forall|k: int| from <= k < to implies (#[trigger] small[k]) != '[' && small[k] != '('
            && small[k] != ']' && small[k] != ')' by {
            assert(name[k] != '[');
            assert(small[k] == text::lower_char(name[k]));
        }
    }
    if is_enclosed(small, from, to) {
        assert(small[from - 1] == text::lower_char(name[from - 1]));
        assert(small[to] == text::lower_char(name[to]));
        assert forall|k: int| from <= k < to implies (#[trigger] name[k]) != '[' && name[k] != '('
            && name[k] != ']' && name[k] != ')' by {
            assert(small[k] != '[');
            assert(small[k] == text::lower_char(name[k]));
        }
    }
}

proof fn lemma_trim_in_any_case(text: Seq<char>)
    ensures
        text::trim(text::lower(text)) == text::lower(text::trim(text)),
    decreases text.len(),
{
    let small = text::lower(text);
    if text.len() > 0 {
        assert(small[0] == text::lower_char(text[0]));
        if text::is_white_space(text[0]) {
            assert(small.skip(1) =~= text::lower(text.skip(1)));
            lemma_trim_in_any_case(text.skip(1));
        } else {
            lemma_trim_end_in_any_case(text);
        }
    } else {
        lemma_trim_end_in_any_case(text);
    }
}

proof fn lemma_trim_end_in_any_case(text: Seq<char>)
    ensures
        text::trim_end(text::lower(text)) == text::lower(text::trim_end(text)),
    decreases text.len(),
{
    let small = text::lower(text);
    if text.len() > 0 {
        assert(small.last() == text::lower_char(text.last()));
        if text::is_white_space(text.last()) {
            assert(small.drop_last() =~= text::lower(text.drop_last()));
            lemma_trim_end_in_any_case(text.drop_last());
        }
    }
}

// ---------------------------------------------------------------------------------------------
// Members of archives

/// An extension that tells nothing inside an archive: `zip`, `7z`, `rar`, `tar` or `gz`.
pub open spec fn tells_nothing_inside(extension: Seq<char>) -> bool {
    ||| extension == seq!['z', 'i', 'p']
    ||| extension == seq!['7', 'z']
    ||| extension == seq!['r', 'a', 'r']
    ||| extension == seq!['t', 'a', 'r']
    ||| extension == seq!['g', 'z']
}

/// An entry of an archive is a file whose name has this extension, written small, and the extension
/// tells something.
pub open spec fn shows(style: PathStyle, entry: EntryView, extension: Seq<char>) -> bool {
    entry matches EntryView::File(name) && paths::extension(paths::parsed(style, name)) matches Some(
        own,
    ) && text_laws::is_written_small(own, extension) && !tells_nothing_inside(extension)
}

proof fn lemma_nested(extension: Seq<char>)
    ensures
        classifier::is_nested_archive(extension) <==> tells_nothing_inside(extension),
{
    reveal_strlit("zip");
    reveal_strlit("7z");
    reveal_strlit("rar");
    reveal_strlit("tar");
    reveal_strlit("gz");
    assert("zip"@ =~= seq!['z', 'i', 'p']);
    assert("7z"@ =~= seq!['7', 'z']);
    assert("rar"@ =~= seq!['r', 'a', 'r']);
    assert("tar"@ =~= seq!['t', 'a', 'r']);
    assert("gz"@ =~= seq!['g', 'z']);
}

proof fn lemma_member_shows(style: PathStyle, entry: EntryView, extension: Seq<char>)
    ensures
        classifier::member_extension(style, entry) == Some(extension) <==> shows(
            style,
            entry,
            extension,
        ),
{
    lemma_nested(extension);
    if let EntryView::File(name) = entry {
        if let Some(own) = paths::extension(paths::parsed(style, name)) {
            text_laws::lemma_lower_letter_by_letter(own);
            lemma_nested(text::lower(own));
            if text_laws::is_written_small(own, extension) {
                text_laws::lemma_written_small_in_one_way(own, extension);
            }
        }
    }
}

/// The extensions that entries of an archive show are those of its files that tell something, and no
/// others.
pub proof fn lemma_extensions_that_entries_show(
    style: PathStyle,
    entries: Seq<EntryView>,
    extension: Seq<char>,
)
    ensures
        classifier::member_extensions(style, entries).contains(extension) <==> exists|j: int|
            0 <= j < entries.len() && shows(style, #[trigger] entries[j], extension),
    decreases entries.len(),
{
    let all = classifier::member_extensions(style, entries);
    if entries.len() > 0 {
        let less = entries.drop_last();
        let before = classifier::member_extensions(style, less);
        lemma_extensions_that_entries_show(style, less, extension);
        lemma_member_shows(style, entries.last(), extension);
        if all.contains(extension) {
            let k = choose|k: int| 0 <= k < all.len() && all[k] == extension;
            if k < before.len() {
                assert(before[k] == extension);
                assert(before.contains(extension));
                let j = choose|j: int|
                    0 <= j < less.len() && shows(style, #[trigger] less[j], extension);
                assert(entries[j] == less[j]);
            } else {
                assert(entries[entries.len() - 1] == entries.last());
            }
        }
        if exists|j: int|
            0 <= j < entries.len() && shows(style, #[trigger] entries[j], extension) {
            let j = choose|j: int|
                0 <= j < entries.len() && shows(style, #[trigger] entries[j], extension);
            if j < less.len() {
                assert(less[j] == entries[j]);
                assert(before.contains(extension));
                let k = choose|k: int| 0 <= k < before.len() && before[k] == extension;
                assert(all[k] == extension);
            } else {
                if before.contains(extension) {
                    let k = choose|k: int| 0 <= k < before.len() && before[k] == extension;
                    assert(all[k] == extension);
                } else {
                    assert(all[all.len() - 1] == extension);
                }
            }
        }
    }
}

/// The entries of a file are looked at exactly if its extension is one of those of archives, and is
/// `zip` or `7z`.
pub proof fn lemma_archives_that_are_looked_into(
    extension: Seq<char>,
    archives: Set<Seq<char>>,
)
    ensures
        classifier::archive_kind(extension, archives) == Some(ArchiveKind::Zip)
            <==> archives.contains(extension) && extension == seq!['z', 'i', 'p'],
        classifier::archive_kind(extension, archives) == Some(ArchiveKind::SevenZip)
            <==> archives.contains(extension) && extension == seq!['7', 'z'],
{
    reveal_strlit("zip");
    reveal_strlit("7z");
    assert("zip"@ =~= seq!['z', 'i', 'p']);
    assert("7z"@ =~= seq!['7', 'z']);
    assert(seq!['z', 'i', 'p'].len() != seq!['7', 'z'].len());
}

/// The members that count are those of an archive whose entries are looked at and could be listed:
/// the extensions that its first two hundred entries show.
pub proof fn lemma_members_are_read_off_the_entries(
    archives: Set<Seq<char>>,
    path: PathView,
    listing: Option<Seq<EntryView>>,
    extension: Seq<char>,
)
    ensures
        ({
            let signals = classifier::signals(archives, path, listing);
            let looked_into = archives.contains(signals.extension) && (signals.extension == seq![
                'z',
                'i',
                'p',
            ] || signals.extension == seq!['7', 'z']);
            (signals.members matches Some(members) && members.contains(extension)) <==> (looked_into
                && (listing matches Some(entries) && exists|j: int|
                0 <= j < entries.len() && j < 200 && shows(
                    path.style,
                    #[trigger] entries[j],
                    extension,
                )))
        }),
{
    let signals = classifier::signals(archives, path, listing);
    lemma_archives_that_are_looked_into(signals.extension, archives);
    if let Some(entries) = listing {
        let seen = if entries.len() <= 200 {
            entries
        } else {
            entries.take(200)
        };
        lemma_extensions_that_entries_show(path.style, seen, extension);
        if exists|j: int|
            0 <= j < seen.len() && shows(path.style, #[trigger] seen[j], extension) {
            let j = choose|j: int|
                0 <= j < seen.len() && shows(path.style, #[trigger] seen[j], extension);
            assert(entries[j] == seen[j]);
        }
        if exists|j: int|
            0 <= j < entries.len() && j < 200 && shows(
                path.style,
                #[trigger] entries[j],
                extension,
            ) {
            let j = choose|j: int|
                0 <= j < entries.len() && j < 200 && shows(
                    path.style,
                    #[trigger] entries[j],
                    extension,
                );
            assert(seen[j] == entries[j]);
        }
    }
}

/// An archive that was listed goes to the platform of a rule that has the extension of one of its
/// first two hundred entries, if for every other rule no member speaks and of the other kinds of
/// signal one at most.
pub proof fn lemma_archive_goes_by_its_members(
    classifier: Classifier,
    path: PathView,
    entries: Seq<EntryView>,
    extension: Seq<char>,
    at: int,
    j: int,
)
    requires
        0 <= at < classifier.rules().len(),
        0 <= j < entries.len(),
        j < 200,
        ({
            let signals = classifier::signals(classifier.archives(), path, Some(entries));
            &&& classifier.archives().contains(signals.extension)
            &&& signals.extension == seq!['z', 'i', 'p'] || signals.extension == seq!['7', 'z']
            &&& shows(path.style, entries[j], extension)
            &&& signal_laws::is_listed(classifier.rules()[at].rom_extensions, extension)
            &&& forall|k: int|
                0 <= k < classifier.rules().len() && k != at
                    ==> 0 <= signal_laws::strength_of_lone_signal(
                    #[trigger] classifier.rules()[k],
                    signals,
                ) < 5
        }),
    ensures
        classifier.says(path, Some(entries)).platform_slug == Some(classifier.rules()[at].slug),
{
    let signals = classifier::signals(classifier.archives(), path, Some(entries));
    lemma_members_are_read_off_the_entries(
        classifier.archives(),
        path,
        Some(entries),
        extension,
    );
    let members = signals.members.unwrap();
    assert(members.contains(extension));
    let m = choose|m: int| 0 <= m < members.len() && members[m] == extension;
    assert(signal_laws::is_listed(classifier.rules()[at].rom_extensions, members[m]));
    signal_laws::lemma_member_beats_any_lone_signal(classifier.rules(), signals, at);
}

// ---------------------------------------------------------------------------------------------
// Rules

/// A rule keeps its slug, aliases, hints and tokens when it is completed.
pub proof fn lemma_completing_keeps_the_rest(
    rule: RuleView,
    entries: Seq<RomTypeView>,
    archives: Set<Seq<char>>,
)
    ensures
        ({
            let done = classifier::completed(rule, entries, archives);
            &&& done.slug == rule.slug
            &&& done.aliases == rule.aliases
            &&& done.extensions == rule.extensions
            &&& done.folder_hints == rule.folder_hints
            &&& done.dat_tokens == rule.dat_tokens
        }),
{
}

/// A rule gets the extensions that the last entry with its slug lists, written small.
pub proof fn lemma_listed_extensions_are_taken(
    rule: RuleView,
    entries: Seq<RomTypeView>,
    archives: Set<Seq<char>>,
    at: int,
)
    requires
        0 <= at < entries.len(),
        entries[at].slug == rule.slug,
        forall|k: int| at < k < entries.len() ==> (#[trigger] entries[k]).slug != rule.slug,
    ensures
        ({
            let own = classifier::completed(rule, entries, archives).rom_extensions;
            let listed = entries[at].rom_extensions;
            own.len() == listed.len() && forall|k: int|
                0 <= k < listed.len() ==> text_laws::is_written_small(#[trigger] listed[k], own[k])
        }),
{
    lemma_last_with_slug(entries, rule.slug, at);
    let listed = entries[at].rom_extensions;
    assert forall|k: int| 0 <= k < listed.len() implies text_laws::is_written_small(
        #[trigger] listed[k],
        classifier::lower_all(listed)[k],
    ) by {
        text_laws::lemma_lower_letter_by_letter(listed[k]);
    }
}

proof fn lemma_last_with_slug(entries: Seq<RomTypeView>, slug: Seq<char>, at: int)
    requires
        0 <= at < entries.len(),
        entries[at].slug == slug,
        forall|k: int| at < k < entries.len() ==> (#[trigger] entries[k]).slug != slug,
    ensures
        classifier::listed_for(entries, slug) == Some(entries[at].rom_extensions),
    decreases entries.len(),
{
    if at < entries.len() - 1 {
        let less = entries.drop_last();
        assert(entries[entries.len() - 1].slug != slug);
        assert forall|k: int| at < k < less.len() implies (#[trigger] less[k]).slug != slug by {
            assert(entries[k] == less[k]);
        }
        lemma_last_with_slug(less, slug, at);
    }
}

/// A rule that no entry has the slug of gets its general extensions, written small, without those of
/// archives.
pub proof fn lemma_general_extensions_are_taken(
    rule: RuleView,
    entries: Seq<RomTypeView>,
    archives: Set<Seq<char>>,
    extension: Seq<char>,
)
    requires
        forall|k: int| 0 <= k < entries.len() ==> (#[trigger] entries[k]).slug != rule.slug,
    ensures
        classifier::completed(rule, entries, archives).rom_extensions.contains(extension) <==> (
        !archives.contains(extension) && exists|k: int|
            0 <= k < rule.extensions.len() && text_laws::is_written_small(
                #[trigger] rule.extensions[k],
                extension,
            )),
{
    lemma_none_with_slug(entries, rule.slug);
    lemma_left_without_archives(rule.extensions, archives, extension);
}

proof fn lemma_none_with_slug(entries: Seq<RomTypeView>, slug: Seq<char>)
    requires
        forall|k: int| 0 <= k < entries.len() ==> (#[trigger] entries[k]).slug != slug,
    ensures
        classifier::listed_for(entries, slug) is None,
    decreases entries.len(),
{
    if entries.len() > 0 {
        let less = entries.drop_last();
        assert(entries[entries.len() - 1].slug != slug);
        assert forall|k: int| 0 <= k < less.len() implies (#[trigger] less[k]).slug != slug by {
            assert(entries[k] == less[k]);
        }
        lemma_none_with_slug(less, slug);
    }
}

proof fn lemma_left_without_archives(
    extensions: Seq<Seq<char>>,
    archives: Set<Seq<char>>,
    extension: Seq<char>,
)
    ensures
        classifier::without_archives(extensions, archives).contains(extension) <==> (
        !archives.contains(extension) && exists|k: int|
            0 <= k < extensions.len() && text_laws::is_written_small(
                #[trigger] extensions[k],
                extension,
            )),
    decreases extensions.len(),
{
    let all = classifier::without_archives(extensions, archives);
    if extensions.len() > 0 {
        let less = extensions.drop_last();
        let before = classifier::without_archives(less, archives);
        let last = text::lower(extensions.last());
        lemma_left_without_archives(less, archives, extension);
        text_laws::lemma_lower_letter_by_letter(extensions.last());
        if all.contains(extension) {
            let k = choose|k: int| 0 <= k < all.len() && all[k] == extension;
            if k < before.len() {
                assert(before[k] == extension);
                assert(before.contains(extension));
                let j = choose|j: int|
                    0 <= j < less.len() && text_laws::is_written_small(
                        #[trigger] less[j],
                        extension,
                    );
                assert(extensions[j] == less[j]);
            } else {
                assert(extensions[extensions.len() - 1] == extensions.last());
            }
        }
        if !archives.contains(extension) && exists|k: int|
            0 <= k < extensions.len() && text_laws::is_written_small(
                #[trigger] extensions[k],
                extension,
            ) {
            let k = choose|k: int|
                0 <= k < extensions.len() && text_laws::is_written_small(
                    #[trigger] extensions[k],
                    extension,
                );
            if k < less.len() {
                assert(less[k] == extensions[k]);
                assert(before.contains(extension));
                let j = choose|j: int| 0 <= j < before.len() && before[j] == extension;
                assert(all[j] == extension);
            } else {
                text_laws::lemma_written_small_in_one_way(extensions[k], extension);
                assert(all[all.len() - 1] == extension);
            }
        }
    }
}

/// An extension is allowed exactly if it is one of those of archives, or one of some platform's own,
/// written small.
pub proof fn lemma_allowed_extensions(
    rules: Seq<RuleView>,
    archives: Set<Seq<char>>,
    extension: Seq<char>,
)
    ensures
        classifier::allowed(rules, archives).contains(extension) <==> archives.contains(extension)
            || exists|at: int, k: int|
            0 <= at < rules.len() && 0 <= k < rules[at].rom_extensions.len()
                && text_laws::is_written_small(
                #[trigger] rules[at].rom_extensions[k],
                extension,
            ),
{
    lemma_extensions_of_rules(rules, extension);
}

proof fn lemma_extensions_of_rules(rules: Seq<RuleView>, extension: Seq<char>)
    ensures
        classifier::rom_extension_set(rules).contains(extension) <==> exists|at: int, k: int|
            0 <= at < rules.len() && 0 <= k < rules[at].rom_extensions.len()
                && text_laws::is_written_small(
                #[trigger] rules[at].rom_extensions[k],
                extension,
            ),
    decreases rules.len(),
{
    if rules.len() > 0 {
        let less = rules.drop_last();
        let last = rules.last().rom_extensions;
        lemma_extensions_of_rules(less, extension);
        let small = classifier::lower_all(last);
        assert(small.to_set().contains(extension) == small.contains(extension));
        if classifier::rom_extension_set(less).contains(extension) {
            let (at, k) = choose|at: int, k: int|
                0 <= at < less.len() && 0 <= k < less[at].rom_extensions.len()
                    && text_laws::is_written_small(
                    #[trigger] less[at].rom_extensions[k],
                    extension,
                );
            assert(text_laws::is_written_small(rules[at].rom_extensions[k], extension));
        }
        if small.contains(extension) {
            let k = choose|k: int| 0 <= k < small.len() && small[k] == extension;
            text_laws::lemma_lower_letter_by_letter(last[k]);
            assert(text_laws::is_written_small(
                rules[rules.len() - 1].rom_extensions[k],
                extension,
            ));
        }
        if exists|at: int, k: int|
            0 <= at < rules.len() && 0 <= k < rules[at].rom_extensions.len()
                && text_laws::is_written_small(
                #[trigger] rules[at].rom_extensions[k],
                extension,
            ) {
            let (at, k) = choose|at: int, k: int|
                0 <= at < rules.len() && 0 <= k < rules[at].rom_extensions.len()
                    && text_laws::is_written_small(
                    #[trigger] rules[at].rom_extensions[k],
                    extension,
                );
            if at < less.len() {
                assert(text_laws::is_written_small(less[at].rom_extensions[k], extension));
            } else {
                text_laws::lemma_written_small_in_one_way(last[k], extension);
                assert(small[k] == extension);
            }
        }
    }
}

// ---------------------------------------------------------------------------------------------
// Names that are no text

/// A file whose name is no text has the extension that it comes with, written small, and neither words
/// nor tokens; a path without a name has none of them.
pub proof fn lemma_signals_of_a_name_that_is_no_text(
    archives: Set<Seq<char>>,
    path: PathView,
    listing: Option<Seq<EntryView>>,
)
    requires
        path.parts.len() == 0 || !(path.parts.last() is Name),
    ensures
        ({
            let signals = classifier::signals(archives, path, listing);
            &&& signals.words.len() == 0
            &&& signals.tokens.len() == 0
            &&& path.parts.len() > 0 ==> (path.parts.last() matches PartView::Opaque(name) ==> (
            name.extension matches Some(own) ==> text_laws::is_written_small(
                own,
                signals.extension,
            )) && (name.extension is None ==> signals.extension.len() == 0))
            &&& path.parts.len() == 0 || !(path.parts.last() is Opaque)
                ==> signals.extension.len() == 0
        }),
{
    lemma_words_are_read_off_the_name(archives, path, listing);
    path_laws::lemma_file_name_is_the_last_part(path.parts);
    let nothing = Seq::<char>::empty();
    reveal(Seq::filter);
    assert(Seq::new(nothing.len(), |at: int| at) =~= Seq::<int>::empty());
    assert(classifier::bracket_tokens(nothing).len() == 0);
    if path.parts.len() > 0 && path.parts.last() is Opaque {
        let name = path.parts.last()->Opaque_0;
        assert(path.parts =~= path.parts.drop_last().push(PartView::Opaque(name)));
        path_laws::lemma_name_that_is_no_text(path.parts.drop_last(), name);
    } else {
        path_laws::lemma_without_a_name(path.parts);
    }
}

// ---------------------------------------------------------------------------------------------
// Order

/// An extension that an entry is the first to show comes after those that were shown before; any other
/// entry changes nothing.
pub proof fn lemma_first_shown_comes_first(
    style: PathStyle,
    entries: Seq<EntryView>,
    entry: EntryView,
    extension: Seq<char>,
)
    ensures
        ({
            let before = classifier::member_extensions(style, entries);
            let after = classifier::member_extensions(style, entries.push(entry));
            &&& shows(style, entry, extension) && !before.contains(extension) ==> after
                == before.push(extension)
            &&& shows(style, entry, extension) && before.contains(extension) ==> after == before
            &&& (forall|other: Seq<char>| !#[trigger] shows(style, entry, other)) ==> after
                == before
        }),
{
    assert(entries.push(entry).drop_last() =~= entries);
    lemma_member_shows(style, entry, extension);
    if let Some(own) = classifier::member_extension(style, entry) {
        lemma_member_shows(style, entry, own);
    }
}

/// Only the first entries are looked at, as many as asked for; what they show counts where the file is
/// an archive that is looked into and its entries could be listed, and there is nothing to go by where
/// they show nothing.
pub proof fn lemma_first_entries_are_looked_at(
    style: PathStyle,
    extension: Seq<char>,
    archives: Set<Seq<char>>,
    listing: Option<Seq<EntryView>>,
    most: nat,
    shown: Seq<char>,
)
    ensures
        ({
            let members = classifier::inspected(style, extension, archives, listing, most);
            let looked_into = archives.contains(extension) && (extension == seq!['z', 'i', 'p']
                || extension == seq!['7', 'z']);
            &&& !looked_into || listing is None ==> members is None
            &&& members matches Some(list) ==> list.len() > 0
            &&& looked_into ==> (listing matches Some(entries) ==> ((members matches Some(list)
                && list.contains(shown)) <==> (exists|j: int|
                0 <= j < entries.len() && j < most && shows(style, #[trigger] entries[j], shown))))
        }),
{
    lemma_archives_that_are_looked_into(extension, archives);
    if let Some(entries) = listing {
        let seen = if entries.len() <= most {
            entries
        } else {
            entries.take(most as int)
        };
        lemma_extensions_that_entries_show(style, seen, shown);
        if exists|j: int| 0 <= j < seen.len() && shows(style, #[trigger] seen[j], shown) {
            let j = choose|j: int| 0 <= j < seen.len() && shows(style, #[trigger] seen[j], shown);
            assert(entries[j] == seen[j]);
        }
        if exists|j: int|
            0 <= j < entries.len() && j < most && shows(style, #[trigger] entries[j], shown) {
            let j = choose|j: int|
                0 <= j < entries.len() && j < most && shows(style, #[trigger] entries[j], shown);
            assert(seen[j] == entries[j]);
        }
    }
}

/// What follows a text does not change the tokens that it ends.
proof fn lemma_tokens_before(text: Seq<char>, after: Seq<char>, limit: nat)
    requires
        limit <= text.len(),
    ensures
        classifier::tokens_within(text + after, limit) == classifier::tokens_within(text, limit),
    decreases limit,
{
    if limit == 0 {
        reveal(Seq::filter);
        assert(Seq::new(0, |at: int| at) =~= Seq::<int>::empty());
        assert(classifier::tokens_within(text + after, 0) =~= classifier::tokens_within(text, 0));
    } else {
        let at = (limit - 1) as nat;
        lemma_tokens_before(text, after, at);
        classifier::lemma_tokens_step(text, at);
        classifier::lemma_tokens_step(text + after, at);
        let whole = text + after;
        let to = at as int;
        assert(whole[to] == text[to]);
        assert forall|from: int|
            classifier::runs_open(whole, from, to) == classifier::runs_open(text, from, to) by {
            if classifier::runs_open(whole, from, to) {
                assert(whole[from - 1] == text[from - 1]);
                assert forall|k: int| from <= k < to implies !classifier::opens(#[trigger] text[k])
                    && !classifier::closes(text[k]) by {
                    assert(whole[k] == text[k]);
                }
            }
            if classifier::runs_open(text, from, to) {
                assert(whole[from - 1] == text[from - 1]);
                assert forall|k: int| from <= k < to implies !classifier::opens(
                    #[trigger] whole[k],
                ) && !classifier::closes(whole[k]) by {
                    assert(whole[k] == text[k]);
                }
            }
        }
        if classifier::ends_token(text, to) {
            let from = choose|from: int| #[trigger]
                classifier::runs_open(text, from, to) && from < to;
            let other = choose|from: int| #[trigger]
                classifier::runs_open(whole, from, to) && from < to;
            assert(classifier::runs_open(whole, from, to));
            classifier::lemma_one_run(whole, from, other, to);
            assert(whole.subrange(from, to) =~= text.subrange(from, to));
        }
        if classifier::ends_token(whole, to) {
            let from = choose|from: int| #[trigger]
                classifier::runs_open(whole, from, to) && from < to;
            assert(classifier::runs_open(text, from, to));
        }
    }
}

/// A bracketed token at the end of a name comes after those that stand before it, trimmed and written
/// small; the two brackets need not match in kind.
pub proof fn lemma_tokens_come_in_order(
    before: Seq<char>,
    open: char,
    inner: Seq<char>,
    close: char,
)
    requires
        open == '[' || open == '(',
        close == ']' || close == ')',
        inner.len() > 0,
        forall|k: int|
            0 <= k < inner.len() ==> (#[trigger] inner[k]) != '[' && inner[k] != '(' && inner[k]
                != ']' && inner[k] != ')',
    ensures
        classifier::bracket_tokens(before.push(open) + inner.push(close))
            == classifier::bracket_tokens(before).push(text::lower(text::trim(inner))),
{
    let text = before.push(open) + inner.push(close);
    let from = before.len() + 1;
    let to = from + inner.len();
    assert(text =~= before + (seq![open] + inner.push(close)));
    lemma_tokens_before(before, seq![open] + inner.push(close), before.len());
    lemma_no_token_ends(text, before.len(), to);
    classifier::lemma_tokens_step(text, to);
    assert(text[to as int] == close);
    assert(text[from - 1] == open);
    assert(classifier::runs_open(text, from as int, to as int)) by {
        assert forall|k: int| from <= k < to implies !classifier::opens(#[trigger] text[k])
            && !classifier::closes(text[k]) by {
            assert(text[k] == inner[k - from]);
        }
    }
    assert(classifier::ends_token(text, to as int));
    let chosen = choose|from: int| #[trigger]
        classifier::runs_open(text, from, to as int) && from < to;
    classifier::lemma_one_run(text, from as int, chosen, to as int);
    assert(text.subrange(from as int, to as int) =~= inner);
    assert(text.len() == to + 1);
}

proof fn lemma_no_token_ends(text: Seq<char>, from: nat, to: nat)
    requires
        from <= to <= text.len(),
        forall|k: int| from <= k < to ==> (#[trigger] text[k]) != ']' && text[k] != ')',
    ensures
        classifier::tokens_within(text, to) == classifier::tokens_within(text, from),
    decreases to - from,
{
    if from < to {
        lemma_no_token_ends(text, from, (to - 1) as nat);
        classifier::lemma_tokens_step(text, (to - 1) as nat);
        assert(text[to - 1] != ']' && text[to - 1] != ')');
    }
}

// ---------------------------------------------------------------------------------------------
// All together

/// A list written small holds each of its texts written small, in their order.
pub proof fn lemma_list_written_small(list: Seq<Seq<char>>, at: int)
    requires
        0 <= at < list.len(),
    ensures
        classifier::lower_all(list).len() == list.len(),
        text_laws::is_written_small(list[at], classifier::lower_all(list)[at]),
{
    text_laws::lemma_lower_letter_by_letter(list[at]);
}

/// Every rule of an index is completed by itself, in the order of the index.
pub proof fn lemma_each_rule_is_completed(
    rules: Seq<RuleView>,
    entries: Seq<RomTypeView>,
    archives: Set<Seq<char>>,
    at: int,
)
    requires
        0 <= at < rules.len(),
    ensures
        classifier::completed_rules(rules, entries, archives).len() == rules.len(),
        classifier::completed_rules(rules, entries, archives)[at] == classifier::completed(
            rules[at],
            entries,
            archives,
        ),
{
}

/// A classifier names the platform for which the signals of the file weigh most, with the words for
/// those signals; it is exact from a hundred on.
pub proof fn lemma_file_goes_by_its_signals(
    classifier: Classifier,
    path: PathView,
    listing: Option<Seq<EntryView>>,
    at: int,
)
    requires
        0 <= at < classifier.rules().len(),
        ({
            let signals = classifier::signals(classifier.archives(), path, listing);
            let rules = classifier.rules();
            &&& signal_laws::weight(rules[at], signals) > 0
            &&& forall|k: int|
                0 <= k < rules.len() && k != at ==> signal_laws::weight(#[trigger] rules[k], signals)
                    < signal_laws::weight(rules[at], signals)
        }),
    ensures
        ({
            let said = classifier.says(path, listing);
            let signals = classifier::signals(classifier.archives(), path, listing);
            let rule = classifier.rules()[at];
            &&& said.platform_slug == Some(rule.slug)
            &&& said.confidence == if signal_laws::weight(rule, signals) >= 100 {
                Confidence::Exact
            } else {
                Confidence::High
            }
            &&& said.reason == text::joined(signal_laws::told(rule, signals), seq![',', ' '])
        }),
{
    let signals = classifier::signals(classifier.archives(), path, listing);
    signal_laws::lemma_most_weight_wins(classifier.rules(), signals, at);
}

/// A classifier names no platform where two have equal weight and none has more, and where nothing
/// speaks for any.
pub proof fn lemma_file_that_goes_nowhere(
    classifier: Classifier,
    path: PathView,
    listing: Option<Seq<EntryView>>,
    one: int,
    other: int,
)
    ensures
        ({
            let signals = classifier::signals(classifier.archives(), path, listing);
            let rules = classifier.rules();
            let said = classifier.says(path, listing);
            &&& (0 <= one < other < rules.len() && signal_laws::weight(rules[one], signals) > 0
                && signal_laws::weight(rules[one], signals) == signal_laws::weight(
                rules[other],
                signals,
            ) && forall|k: int|
                0 <= k < rules.len() ==> signal_laws::weight(#[trigger] rules[k], signals)
                    <= signal_laws::weight(rules[one], signals)) ==> said.platform_slug is None
                && said.confidence == Confidence::Ambiguous
            &&& (forall|k: int|
                0 <= k < rules.len() ==> signal_laws::weight(#[trigger] rules[k], signals) == 0)
                ==> said.platform_slug is None && said.confidence == Confidence::Unknown
        }),
{
    let signals = classifier::signals(classifier.archives(), path, listing);
    let rules = classifier.rules();
    if 0 <= one < other < rules.len() && signal_laws::weight(rules[one], signals) > 0
        && signal_laws::weight(rules[one], signals) == signal_laws::weight(rules[other], signals)
        && forall|k: int|
        0 <= k < rules.len() ==> signal_laws::weight(#[trigger] rules[k], signals)
            <= signal_laws::weight(rules[one], signals) {
        signal_laws::lemma_equal_weight_names_none(rules, signals, one, other);
    }
    if forall|k: int|
        0 <= k < rules.len() ==> signal_laws::weight(#[trigger] rules[k], signals) == 0 {
        signal_laws::lemma_no_weight_names_none(rules, signals);
    }
}

}
