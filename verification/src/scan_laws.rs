//! What holds of finding files.

use vstd::prelude::*;
use crate::path_laws;
use crate::paths;
use crate::paths::{PartView, PathView};
use crate::scanner;
use crate::scanner::{FoundView, ScanError, ScanView};
use crate::text;
use crate::text_laws;

verus! {

/// A name that a system keeps for itself: `$RECYCLE.BIN` or `System Volume Information`.
pub open spec fn is_kept_by_system(name: Seq<char>) -> bool {
    ||| name == seq!['$', 'R', 'E', 'C', 'Y', 'C', 'L', 'E', '.', 'B', 'I', 'N']
    ||| name == seq![
        'S',
        'y',
        's',
        't',
        'e',
        'm',
        ' ',
        'V',
        'o',
        'l',
        'u',
        'm',
        'e',
        ' ',
        'I',
        'n',
        'f',
        'o',
        'r',
        'm',
        'a',
        't',
        'i',
        'o',
        'n',
    ]
}

/// A name that begins with a dot.
pub open spec fn begins_with_dot(name: Seq<char>) -> bool {
    name.len() > 0 && name[0] == '.'
}

proof fn lemma_names_of_the_system(name: Seq<char>)
    ensures
        is_kept_by_system(name) <==> name == "$RECYCLE.BIN"@ || name
            == "System Volume Information"@,
{
    reveal_strlit("$RECYCLE.BIN");
    reveal_strlit("System Volume Information");
    assert("$RECYCLE.BIN"@ =~= seq!['$', 'R', 'E', 'C', 'Y', 'C', 'L', 'E', '.', 'B', 'I', 'N']);
    assert("System Volume Information"@ =~= seq![
        'S',
        'y',
        's',
        't',
        'e',
        'm',
        ' ',
        'V',
        'o',
        'l',
        'u',
        'm',
        'e',
        ' ',
        'I',
        'n',
        'f',
        'o',
        'r',
        'm',
        'a',
        't',
        'i',
        'o',
        'n',
    ]);
}

// ---------------------------------------------------------------------------------------------
// Walking

/// An entry outside the output folder is gone into at every depth, unless its name begins with a
/// dot or is one that a system keeps for itself. So is one whose last part is no text.
pub proof fn lemma_gone_into_at_every_depth(entry: FoundView, output_root: Seq<PartView>)
    requires
        !paths::lies_under(entry.path.parts, output_root),
        forall|name: Seq<char>|
            entry.path.parts.len() > 0 && entry.path.parts.last() == PartView::Name(name) ==> !#[trigger] begins_with_dot(
                name,
            ) && !is_kept_by_system(name),
    ensures
        scanner::descends(entry, output_root),
{
    path_laws::lemma_file_name_is_the_last_part(entry.path.parts);
    if let Some(name) = paths::file_name_text(entry.path.parts) {
        assert(!begins_with_dot(name));
        lemma_names_of_the_system(name);
    }
}

/// An entry in the output folder is not gone into, nor one whose name a system keeps for itself, nor
/// one below the beginning of the walk whose name begins with a dot.
pub proof fn lemma_not_gone_into(entry: FoundView, output_root: Seq<PartView>, name: Seq<char>)
    requires
        ({
            ||| paths::lies_under(entry.path.parts, output_root)
            ||| entry.path.parts.len() > 0 && entry.path.parts.last() == PartView::Name(name) && (
            is_kept_by_system(name) || (begins_with_dot(name) && entry.depth > 0))
        }),
    ensures
        !scanner::descends(entry, output_root),
{
    path_laws::lemma_file_name_is_the_last_part(entry.path.parts);
    lemma_names_of_the_system(name);
}

/// The beginning of a walk is gone into though its name begins with a dot.
pub proof fn lemma_hidden_beginning_is_gone_into(
    entry: FoundView,
    output_root: Seq<PartView>,
    name: Seq<char>,
)
    requires
        !paths::lies_under(entry.path.parts, output_root),
        entry.depth == 0,
        entry.path.parts.len() > 0,
        entry.path.parts.last() == PartView::Name(name),
        !is_kept_by_system(name),
    ensures
        scanner::descends(entry, output_root),
{
    path_laws::lemma_file_name_is_the_last_part(entry.path.parts);
    lemma_names_of_the_system(name);
}

/// How deep an entry lies does not matter below the beginning of a walk, nor whether it is a file.
pub proof fn lemma_depth_is_idle(one: FoundView, other: FoundView, output_root: Seq<PartView>)
    requires
        one.path.parts == other.path.parts,
        one.depth > 0,
        other.depth > 0,
    ensures
        scanner::descends(one, output_root) == scanner::descends(other, output_root),
{
}

/// A path that begins with one under a folder lies under it too.
proof fn lemma_deeper_stays_under(
    parts: Seq<PartView>,
    more: Seq<PartView>,
    base: Seq<PartView>,
)
    requires
        paths::lies_under(parts, base),
    ensures
        paths::lies_under(parts + more, base),
{
    assert((parts + more).take(base.len() as int) =~= parts.take(base.len() as int));
}

/// A file outside the output folder is walked to, however deep it lies: it and every folder on the
/// way to it are gone into, if none of their names begins with a dot or is one that a system keeps
/// for itself.
pub proof fn lemma_file_is_walked_to(
    source_root: Seq<PartView>,
    names: Seq<PartView>,
    output_root: Seq<PartView>,
    entry: FoundView,
)
    requires
        !paths::lies_under(source_root + names, output_root),
        forall|name: Seq<char>|
            source_root.len() > 0 && source_root.last() == PartView::Name(name)
                ==> !#[trigger] is_kept_by_system(name),
        forall|k: int, name: Seq<char>|
            0 <= k < names.len() && names[k] == PartView::Name(name) ==> !#[trigger] keeps_out(
                names[k],
                name,
            ),
        entry.depth <= names.len(),
        entry.path.parts == source_root + names.take(entry.depth as int),
    ensures
        scanner::descends(entry, output_root),
{
    let parts = entry.path.parts;
    let depth = entry.depth as int;
    assert(source_root + names =~= parts + names.skip(depth));
    if paths::lies_under(parts, output_root) {
        lemma_deeper_stays_under(parts, names.skip(depth), output_root);
    }
    path_laws::lemma_file_name_is_the_last_part(parts);
    if let Some(name) = paths::file_name_text(parts) {
        lemma_names_of_the_system(name);
        if depth > 0 {
            assert(parts.last() == names[depth - 1]);
            assert(!keeps_out(names[depth - 1], name));
        } else {
            assert(parts =~= source_root);
            assert(!is_kept_by_system(name));
        }
    }
}

/// A part whose name begins with a dot or is one that a system keeps for itself.
pub open spec fn keeps_out(part: PartView, name: Seq<char>) -> bool {
    part == PartView::Name(name) && (begins_with_dot(name) || is_kept_by_system(name))
}

// ---------------------------------------------------------------------------------------------
// Finding

/// What a system leaves behind: `thumbs.db` or `desktop.ini`, whatever the case of the letters.
pub open spec fn is_left_behind(name: Seq<char>) -> bool {
    ||| text_laws::same_but_case(name, seq!['t', 'h', 'u', 'm', 'b', 's', '.', 'd', 'b'])
    ||| text_laws::same_but_case(
        name,
        seq!['d', 'e', 's', 'k', 't', 'o', 'p', '.', 'i', 'n', 'i'],
    )
}

/// A name has this extension: something, a dot and it, with no dot in it.
pub open spec fn has_extension(name: Seq<char>, stem: Seq<char>, extension: Seq<char>) -> bool {
    stem.len() > 0 && !extension.contains('.') && name == stem.push('.') + extension
}

/// A file outside the output folder whose name is text, does not begin with a dot, is not one that a
/// system leaves behind, and has an extension that is allowed, written small.
pub open spec fn is_wanted(
    entry: FoundView,
    output_root: Seq<PartView>,
    allowed: Set<Seq<char>>,
) -> bool {
    &&& entry.is_file
    &&& !paths::lies_under(entry.path.parts, output_root)
    &&& entry.path.parts.len() > 0
    &&& entry.path.parts.last() matches PartView::Name(name) && !begins_with_dot(name)
        && !is_left_behind(name) && exists|stem: Seq<char>, extension: Seq<char>| #[trigger]
        has_extension(name, stem, extension) && allowed.contains(text::lower(extension))
}

proof fn lemma_left_behind(name: Seq<char>)
    ensures
        is_left_behind(name) <==> text::lower(name) == "thumbs.db"@ || text::lower(name)
            == "desktop.ini"@,
{
    reveal_strlit("thumbs.db");
    reveal_strlit("desktop.ini");
    let thumbs = seq!['t', 'h', 'u', 'm', 'b', 's', '.', 'd', 'b'];
    let desktop = seq!['d', 'e', 's', 'k', 't', 'o', 'p', '.', 'i', 'n', 'i'];
    assert("thumbs.db"@ =~= thumbs);
    assert("desktop.ini"@ =~= desktop);
    assert(text::lower(thumbs) =~= thumbs);
    assert(text::lower(desktop) =~= desktop);
    text_laws::lemma_same_but_case(name, thumbs);
    text_laws::lemma_same_but_case(name, desktop);
}

/// The extension of a name is what it has as its extension, if it has one.
proof fn lemma_extension_of(name: Seq<char>)
    ensures
        paths::name_extension(name) is Some <==> exists|stem: Seq<char>, extension: Seq<char>|
            #[trigger] has_extension(name, stem, extension),
        forall|stem: Seq<char>, extension: Seq<char>| #[trigger]
            has_extension(name, stem, extension) ==> paths::name_extension(name) == Some(extension),
{
    assert forall|stem: Seq<char>, extension: Seq<char>| #[trigger]
        has_extension(name, stem, extension) implies paths::name_extension(name) == Some(
        extension,
    ) by {
        path_laws::lemma_extension_after_the_last_dot(stem, extension);
    }
    if paths::name_extension(name) is Some {
        let at = paths::last_dot(name);
        lemma_last_dot_is_a_dot(name);
        let stem = name.take(at);
        let extension = name.skip(at + 1);
        assert(name =~= stem.push('.') + extension);
        assert(!extension.contains('.')) by {
            if extension.contains('.') {
                let k = choose|k: int| 0 <= k < extension.len() && extension[k] == '.';
                assert(name[at + 1 + k] == '.');
            }
        }
        assert(has_extension(name, stem, extension));
    }
}

proof fn lemma_last_dot_is_a_dot(name: Seq<char>)
    ensures
        -1 <= paths::last_dot(name) < name.len(),
        paths::last_dot(name) >= 0 ==> name[paths::last_dot(name)] == '.',
        forall|k: int| paths::last_dot(name) < k < name.len() ==> #[trigger] name[k] != '.',
    decreases name.len(),
{
    if name.len() > 0 {
        let less = name.drop_last();
        lemma_last_dot_is_a_dot(less);
        assert forall|k: int| paths::last_dot(name) < k < name.len() implies #[trigger] name[k]
            != '.' by {
            if k < less.len() {
                assert(less[k] == name[k]);
            }
        }
    }
}

/// A file is kept exactly when it is wanted.
proof fn lemma_kept_is_wanted(
    entry: FoundView,
    output_root: Seq<PartView>,
    allowed: Set<Seq<char>>,
)
    ensures
        scanner::is_kept(entry, output_root, allowed) <==> is_wanted(entry, output_root, allowed),
{
    let parts = entry.path.parts;
    path_laws::lemma_file_name_is_the_last_part(parts);
    if let Some(name) = paths::file_name_text(parts) {
        lemma_left_behind(name);
        lemma_extension_of(name);
        if scanner::is_kept(entry, output_root, allowed) {
            let (stem, extension) = choose|stem: Seq<char>, extension: Seq<char>| #[trigger]
                has_extension(name, stem, extension);
            assert(has_extension(name, stem, extension));
            assert(allowed.contains(text::lower(extension)));
        }
    }
}

/// A scan finds the files that are wanted, all of them and no others, in the order of the walk; it
/// processes the files outside the output folder, and skips those of them that are not wanted and
/// what lies in the output folder.
pub proof fn lemma_finds_the_files_that_are_wanted(
    entries: Seq<FoundView>,
    output_root: Seq<PartView>,
    allowed: Set<Seq<char>>,
)
    ensures
        ({
            let scan = scanner::scanned(entries, output_root, allowed);
            &&& scan.files == entries.filter(
                |entry: FoundView| is_wanted(entry, output_root, allowed),
            ).map_values(|entry: FoundView| entry.path)
            &&& scan.processed == entries.filter(
                |entry: FoundView|
                    entry.is_file && !paths::lies_under(entry.path.parts, output_root),
            ).len()
            &&& scan.skipped == entries.filter(
                |entry: FoundView|
                    paths::lies_under(entry.path.parts, output_root) || (entry.is_file && !is_wanted(
                        entry,
                        output_root,
                        allowed,
                    )),
            ).len()
        }),
    decreases entries.len(),
{
    reveal(Seq::filter);
    let wanted = |entry: FoundView| is_wanted(entry, output_root, allowed);
    let path = |entry: FoundView| entry.path;
    if entries.len() > 0 {
        let before = entries.drop_last();
        let last = entries.last();
        lemma_finds_the_files_that_are_wanted(before, output_root, allowed);
        lemma_kept_is_wanted(last, output_root, allowed);
        if wanted(last) {
            assert(before.filter(wanted).push(last).map_values(path) =~= before.filter(
                wanted,
            ).map_values(path).push(last.path));
        }
    } else {
        assert(entries.filter(wanted).map_values(path) =~= Seq::<PathView>::empty());
    }
}

/// A file that is wanted, and that a walk comes upon, is found; and what is found is such a file.
pub proof fn lemma_wanted_file_is_found(
    entries: Seq<FoundView>,
    output_root: Seq<PartView>,
    allowed: Set<Seq<char>>,
    path: PathView,
)
    ensures
        scanner::scanned(entries, output_root, allowed).files.contains(path) <==> exists|k: int|
            0 <= k < entries.len() && (#[trigger] entries[k]).path == path && is_wanted(
                entries[k],
                output_root,
                allowed,
            ),
    decreases entries.len(),
{
    let files = scanner::scanned(entries, output_root, allowed).files;
    if entries.len() > 0 {
        let before = entries.drop_last();
        let last = entries.last();
        let found = scanner::scanned(before, output_root, allowed).files;
        lemma_wanted_file_is_found(before, output_root, allowed, path);
        lemma_kept_is_wanted(last, output_root, allowed);
        if files.contains(path) {
            let k = choose|k: int| 0 <= k < files.len() && files[k] == path;
            if k < found.len() {
                assert(found[k] == path);
                assert(found.contains(path));
                let j = choose|j: int|
                    0 <= j < before.len() && (#[trigger] before[j]).path == path && is_wanted(
                        before[j],
                        output_root,
                        allowed,
                    );
                assert(entries[j] == before[j]);
            } else {
                assert(entries[entries.len() - 1] == last);
            }
        }
        if exists|k: int|
            0 <= k < entries.len() && (#[trigger] entries[k]).path == path && is_wanted(
                entries[k],
                output_root,
                allowed,
            ) {
            let k = choose|k: int|
                0 <= k < entries.len() && (#[trigger] entries[k]).path == path && is_wanted(
                    entries[k],
                    output_root,
                    allowed,
                );
            if k < before.len() {
                assert(before[k] == entries[k]);
                assert(found.contains(path));
                let j = choose|j: int| 0 <= j < found.len() && found[j] == path;
                assert(files[j] == path);
            } else {
                assert(files[files.len() - 1] == path);
            }
        }
    } else {
        assert(!files.contains(path));
    }
}

/// Before a scan as many files are counted as lie outside the output folder, whatever their names
/// are.
pub proof fn lemma_counts_the_files_outside(entries: Seq<FoundView>, output_root: Seq<PartView>)
    ensures
        scanner::candidates(entries, output_root) == entries.filter(
            |entry: FoundView|
                entry.is_file && !paths::lies_under(entry.path.parts, output_root),
        ).len(),
    decreases entries.len(),
{
    reveal(Seq::filter);
    if entries.len() > 0 {
        lemma_counts_the_files_outside(entries.drop_last(), output_root);
    }
}

/// An entry is reported and counted exactly if it is a file outside the output folder.
pub proof fn lemma_reported_when_a_file_outside(entry: FoundView, output_root: Seq<PartView>)
    ensures
        scanner::is_candidate(entry, output_root) <==> entry.is_file && !paths::lies_under(
            entry.path.parts,
            output_root,
        ),
{
}

/// One more entry changes a scan in one way only: a file that is wanted is added at the end, another
/// file is skipped, and so is what lies in the output folder; a folder changes nothing.
pub proof fn lemma_one_more_entry(
    scan: ScanView,
    entry: FoundView,
    output_root: Seq<PartView>,
    allowed: Set<Seq<char>>,
)
    ensures
        ({
            let after = scanner::scan_step(scan, entry, output_root, allowed);
            let inside = paths::lies_under(entry.path.parts, output_root);
            &&& is_wanted(entry, output_root, allowed) ==> after.files == scan.files.push(
                entry.path,
            ) && after.skipped == scan.skipped && after.processed == scan.processed + 1
            &&& inside ==> after.files == scan.files && after.skipped == scan.skipped + 1
                && after.processed == scan.processed
            &&& !inside && !entry.is_file ==> after == scan
            &&& !inside && entry.is_file && !is_wanted(entry, output_root, allowed)
                ==> after.files == scan.files && after.skipped == scan.skipped + 1
                && after.processed == scan.processed + 1
        }),
{
    lemma_kept_is_wanted(entry, output_root, allowed);
}

/// A file is of no use exactly if its last part is no text, begins with a dot or is one that a system
/// leaves behind.
pub proof fn lemma_files_of_no_use(parts: Seq<PartView>)
    ensures
        parts.len() == 0 ==> scanner::is_clutter(parts),
        parts.len() > 0 && !(parts.last() is Name) ==> scanner::is_clutter(parts),
        parts.len() > 0 ==> (parts.last() matches PartView::Name(name) ==> (scanner::is_clutter(
            parts,
        ) <==> begins_with_dot(name) || is_left_behind(name))),
{
    path_laws::lemma_file_name_is_the_last_part(parts);
    if let Some(name) = paths::file_name_text(parts) {
        lemma_left_behind(name);
    }
}

/// A file is of an allowed kind exactly if its extension, written small, is allowed; a name without an
/// extension is not, nor is a path without a name.
pub proof fn lemma_allowed_by_the_extension(
    parts: Seq<PartView>,
    stem: Seq<char>,
    extension: Seq<char>,
    small: Seq<char>,
    allowed: Set<Seq<char>>,
)
    requires
        text_laws::is_written_small(extension, small),
    ensures
        parts.len() > 0 ==> (parts.last() matches PartView::Name(name) ==> has_extension(
            name,
            stem,
            extension,
        ) ==> (scanner::has_allowed_extension(parts, allowed) <==> allowed.contains(small))),
        parts.len() > 0 ==> (parts.last() matches PartView::Name(name) ==> (forall|
            before: Seq<char>,
            after: Seq<char>,
        |
            !#[trigger] has_extension(name, before, after)) ==> !scanner::has_allowed_extension(
            parts,
            allowed,
        )),
        parts.len() > 0 ==> (parts.last() matches PartView::Opaque(name) ==> (
        scanner::has_allowed_extension(parts, allowed) <==> (name.extension matches Some(own)
            && allowed.contains(text::lower(own))))),
        parts.len() == 0 || !(parts.last() is Name || parts.last() is Opaque)
            ==> !scanner::has_allowed_extension(parts, allowed),
{
    text_laws::lemma_written_small_in_one_way(extension, small);
    path_laws::lemma_file_name_is_the_last_part(parts);
    if let Some(name) = paths::file_name_text(parts) {
        lemma_extension_of(name);
    }
}

/// What is told of a scan that failed tells a cancellation from a folder that could not be read.
pub proof fn lemma_scan_errors(error: ScanError)
    ensures
        error == ScanError::Canceled ==> error.text() == "Operation canceled"@,
        error == ScanError::Traversal ==> error.text()
            == "Failed while traversing source directory"@,
{
}

}
