//! Which files of a folder are looked at.
//!
//! Walking the folder is the caller's work. The walk asks [`should_descend`] before it goes into
//! an entry, and hands each entry that it comes upon to [`count_scan_candidates`] or
//! [`scan_files_with_total`].

use vstd::prelude::*;
use crate::classifier;
use crate::classifier::{EntryView, RuleView};
use crate::paths;
use crate::paths::{PartView, PathView, RomPath};
use crate::text;
use crate::text_set::TextSet;

verus! {

/// How far a scan has got.
#[derive(Debug)]
pub struct ScanProgress {
    pub processed: usize,
    pub total: usize,
    pub current_path: RomPath,
}

/// A file or folder that a walk comes upon.
#[derive(Debug)]
pub struct ScanEntry {
    pub path: RomPath,
    /// How many levels it lies under the folder where the walk began.
    pub depth: usize,
    pub is_file: bool,
}

/// What a walk comes upon.
#[derive(Debug)]
pub enum WalkItem {
    Entry(ScanEntry),
    /// Something that could not be read.
    Failed,
}

/// Why a scan ended early.
#[derive(Debug, Clone, Copy, PartialEq, Eq, Structural)]
pub enum ScanError {
    Canceled,
    Traversal,
}

/// What a scan has found so far.
#[derive(Debug)]
pub struct Scan {
    pub files: Vec<RomPath>,
    pub skipped: usize,
    pub processed: usize,
}

/// What a [`ScanEntry`] holds.
#[verifier::ext_equal]
pub struct FoundView {
    pub path: PathView,
    pub depth: nat,
    pub is_file: bool,
}

/// What a [`Scan`] holds.
#[verifier::ext_equal]
pub struct ScanView {
    pub files: Seq<PathView>,
    pub skipped: nat,
    pub processed: nat,
}

/// What a [`ScanProgress`] holds.
#[verifier::ext_equal]
pub struct ProgressView {
    pub processed: nat,
    pub total: nat,
    pub current_path: PathView,
}

impl View for ScanEntry {
    type V = FoundView;

    open spec fn view(&self) -> FoundView {
        FoundView { path: self.path@, depth: self.depth as nat, is_file: self.is_file }
    }
}

impl View for Scan {
    type V = ScanView;

    open spec fn view(&self) -> ScanView {
        ScanView {
            files: self.files@.map_values(|file: RomPath| file@),
            skipped: self.skipped as nat,
            processed: self.processed as nat,
        }
    }
}

impl View for ScanProgress {
    type V = ProgressView;

    open spec fn view(&self) -> ProgressView {
        ProgressView {
            processed: self.processed as nat,
            total: self.total as nat,
            current_path: self.current_path@,
        }
    }
}

impl Clone for ScanProgress {
    fn clone(&self) -> (result: Self)
        ensures
            result@ == self@,
    {
        ScanProgress {
            processed: self.processed,
            total: self.total,
            current_path: self.current_path.clone(),
        }
    }
}

impl ScanError {
    /// What the user is told.
    pub open spec fn text(self) -> Seq<char> {
        match self {
            ScanError::Canceled => "Operation canceled"@,
            ScanError::Traversal => "Failed while traversing source directory"@,
        }
    }

    /// What the user is told.
    pub fn message(self) -> (result: &'static str)
        ensures
            result@ == self.text(),
    {
        match self {
            ScanError::Canceled => "Operation canceled",
            ScanError::Traversal => "Failed while traversing source directory",
        }
    }
}

/// A text that begins with a dot.
pub open spec fn is_hidden(name: Seq<char>) -> bool {
    name.len() > 0 && name[0] == '.'
}

/// Whether a walk goes into an entry: not into the output folder, hidden entries below the
/// beginning of the walk, or the folders that a system keeps for itself.
pub open spec fn descends(entry: FoundView, output_root: Seq<PartView>) -> bool {
    !paths::lies_under(entry.path.parts, output_root) && match paths::file_name_text(
        entry.path.parts,
    ) {
        Some(name) => !(is_hidden(name) && entry.depth > 0) && name != "$RECYCLE.BIN"@ && name
            != "System Volume Information"@,
        None => true,
    }
}

/// Files that are no use: those whose name is not text or hidden, and what a system leaves behind.
pub open spec fn is_clutter(parts: Seq<PartView>) -> bool {
    match paths::file_name_text(parts) {
        Some(name) => is_hidden(name) || text::lower(name) == "thumbs.db"@ || text::lower(name)
            == "desktop.ini"@,
        None => true,
    }
}

/// Whether a path has an extension that is allowed, up to the case of ASCII letters.
pub open spec fn has_allowed_extension(
    parts: Seq<PartView>,
    allowed_extensions: Set<Seq<char>>,
) -> bool {
    match paths::extension(parts) {
        Some(extension) => allowed_extensions.contains(text::lower(extension)),
        None => false,
    }
}

/// A file outside the output folder.
pub open spec fn is_candidate(entry: FoundView, output_root: Seq<PartView>) -> bool {
    entry.is_file && !paths::lies_under(entry.path.parts, output_root)
}

/// A candidate that is kept.
pub open spec fn is_kept(
    entry: FoundView,
    output_root: Seq<PartView>,
    allowed_extensions: Set<Seq<char>>,
) -> bool {
    is_candidate(entry, output_root) && !is_clutter(entry.path.parts) && has_allowed_extension(
        entry.path.parts,
        allowed_extensions,
    )
}

/// What a scan has found once it has also come upon `entry`.
pub open spec fn scan_step(
    scan: ScanView,
    entry: FoundView,
    output_root: Seq<PartView>,
    allowed_extensions: Set<Seq<char>>,
) -> ScanView {
    if paths::lies_under(entry.path.parts, output_root) {
        ScanView { skipped: scan.skipped + 1, ..scan }
    } else if !entry.is_file {
        scan
    } else if is_kept(entry, output_root, allowed_extensions) {
        ScanView {
            files: scan.files.push(entry.path),
            processed: scan.processed + 1,
            ..scan
        }
    } else {
        ScanView { skipped: scan.skipped + 1, processed: scan.processed + 1, ..scan }
    }
}

/// What a scan has found once it has come upon these entries.
pub open spec fn scanned(
    entries: Seq<FoundView>,
    output_root: Seq<PartView>,
    allowed_extensions: Set<Seq<char>>,
) -> ScanView
    decreases entries.len(),
{
    if entries.len() == 0 {
        ScanView { files: Seq::empty(), skipped: 0, processed: 0 }
    } else {
        scan_step(
            scanned(entries.drop_last(), output_root, allowed_extensions),
            entries.last(),
            output_root,
            allowed_extensions,
        )
    }
}

/// How many candidates there are among these entries.
pub open spec fn candidates(entries: Seq<FoundView>, output_root: Seq<PartView>) -> nat
    decreases entries.len(),
{
    if entries.len() == 0 {
        0
    } else {
        candidates(entries.drop_last(), output_root) + if is_candidate(
            entries.last(),
            output_root,
        ) {
            1nat
        } else {
            0
        }
    }
}

/// Whether a name begins with a dot.
fn begins_with_dot(name: &str) -> (result: bool)
    ensures
        result == is_hidden(name@),
{
    proof {
        reveal_strlit(".");
        assert("."@ =~= seq!['.']);
        if text::is_at(name@, "."@, 0) {
            assert(name@.subrange(0, 1)[0] == '.');
        }
        if is_hidden(name@) {
            assert(name@.subrange(0, 1) =~= seq!['.']);
        }
    }
    text::begins_with(name, ".")
}

/// Whether a walk goes into an entry.
pub fn should_descend(entry: &ScanEntry, output_root: &RomPath) -> (result: bool)
    ensures
        result == descends(entry@, output_root@.parts),
{
    if entry.path.starts_with(output_root) {
        return false;
    }
    match entry.path.file_name_text() {
        Some(name) => !(begins_with_dot(name) && entry.depth > 0) && !text::same(
            name,
            "$RECYCLE.BIN",
        ) && !text::same(name, "System Volume Information"),
        None => true,
    }
}

/// Whether a file is no use.
pub fn should_skip_file(path: &RomPath) -> (result: bool)
    ensures
        result == is_clutter(path@.parts),
{
    match path.file_name_text() {
        Some(name) => {
            let lowered: String = text::to_lower(name);
            begins_with_dot(name) || text::same(lowered.as_str(), "thumbs.db") || text::same(
                lowered.as_str(),
                "desktop.ini",
            )
        },
        None => true,
    }
}

/// Whether a path has an extension that is allowed.
pub fn is_allowed_extension(path: &RomPath, allowed_extensions: &TextSet) -> (result: bool)
    ensures
        result == has_allowed_extension(path@.parts, allowed_extensions@),
{
    match path.extension() {
        Some(extension) => {
            let lowered: String = text::to_lower(extension.as_str());
            allowed_extensions.contains(lowered.as_str())
        },
        None => false,
    }
}

/// Counts the next entry of a walk: the number of candidates so far becomes the one that is
/// returned.
pub fn count_scan_candidates(
    total: usize,
    output_root: &RomPath,
    cancelled: bool,
    item: &WalkItem,
) -> (result: Result<usize, ScanError>)
    requires
        total < usize::MAX,
    ensures
        cancelled ==> result == Err::<usize, ScanError>(ScanError::Canceled),
        !cancelled ==> match item {
            WalkItem::Failed => result == Err::<usize, ScanError>(ScanError::Traversal),
            WalkItem::Entry(entry) => result == Ok::<usize, ScanError>(
                if is_candidate(entry@, output_root@.parts) {
                    (total + 1) as usize
                } else {
                    total
                },
            ),
        },
{
    if cancelled {
        return Err(ScanError::Canceled);
    }
    match item {
        WalkItem::Failed => Err(ScanError::Traversal),
        WalkItem::Entry(entry) => {
            if entry.is_file && !entry.path.starts_with(output_root) {
                Ok(total + 1)
            } else {
                Ok(total)
            }
        },
    }
}

impl Scan {
    /// A scan that has found nothing yet.
    pub fn new() -> (result: Scan)
        ensures
            result@ == (ScanView { files: Seq::empty(), skipped: 0, processed: 0 }),
    {
        let scan: Scan = Scan { files: Vec::new(), skipped: 0, processed: 0 };
        assert(scan@.files =~= Seq::<PathView>::empty());
        scan
    }
}

/// Takes the next entry of a walk into a scan, and returns what to report, if anything. A scan
/// that ends early stays as it was.
pub fn scan_files_with_total(
    scan: &mut Scan,
    output_root: &RomPath,
    allowed_extensions: &TextSet,
    total: usize,
    cancelled: bool,
    item: &WalkItem,
) -> (result: Result<Option<ScanProgress>, ScanError>)
    requires
        old(scan).skipped < usize::MAX,
        old(scan).processed < usize::MAX,
    ensures
        cancelled ==> result is Err && result->Err_0 == ScanError::Canceled,
        !cancelled && item is Failed ==> result is Err && result->Err_0 == ScanError::Traversal,
        result is Err ==> final(scan)@ == old(scan)@,
        !cancelled ==> match item {
            WalkItem::Failed => true,
            WalkItem::Entry(entry) => {
                &&& final(scan)@ == scan_step(
                    old(scan)@,
                    entry@,
                    output_root@.parts,
                    allowed_extensions@,
                )
                &&& match result {
                    Ok(Some(progress)) => is_candidate(entry@, output_root@.parts) && progress@ == (
                    ProgressView {
                        processed: final(scan)@.processed,
                        total: total as nat,
                        current_path: entry@.path,
                    }),
                    Ok(None) => !is_candidate(entry@, output_root@.parts),
                    Err(_) => false,
                }
            },
        },
{
    if cancelled {
        return Err(ScanError::Canceled);
    }
    match item {
        WalkItem::Failed => Err(ScanError::Traversal),
        WalkItem::Entry(entry) => {
            if entry.path.starts_with(output_root) {
                scan.skipped = scan.skipped + 1;
                return Ok(None);
            }
            if !entry.is_file {
                return Ok(None);
            }
            scan.processed = scan.processed + 1;
            if should_skip_file(&entry.path) || !is_allowed_extension(
                &entry.path,
                allowed_extensions,
            ) {
                scan.skipped = scan.skipped + 1;
            } else {
                let ghost earlier = scan@.files;
                scan.files.push(entry.path.clone());
                assert(scan@.files =~= earlier.push(entry.path@));
            }
            Ok(
                Some(
                    ScanProgress {
                        processed: scan.processed,
                        total,
                        current_path: entry.path.clone(),
                    },
                ),
            )
        },
    }
}

// ---------------------------------------------------------------------------------------------
// Laws

/// Counting the candidates of a walk beforehand gives the number that a scan of the same walk
/// processes.
pub proof fn lemma_count_is_total(
    entries: Seq<FoundView>,
    output_root: Seq<PartView>,
    allowed_extensions: Set<Seq<char>>,
)
    ensures
        scanned(entries, output_root, allowed_extensions).processed == candidates(
            entries,
            output_root,
        ),
    decreases entries.len(),
{
    if entries.len() > 0 {
        lemma_count_is_total(entries.drop_last(), output_root, allowed_extensions);
    }
}

/// A scan finds exactly the entries that are to be kept, in the order of the walk.
pub proof fn lemma_finds_what_is_kept(
    entries: Seq<FoundView>,
    output_root: Seq<PartView>,
    allowed_extensions: Set<Seq<char>>,
)
    ensures
        scanned(entries, output_root, allowed_extensions).files == entries.filter(
            |entry: FoundView| is_kept(entry, output_root, allowed_extensions),
        ).map_values(|entry: FoundView| entry.path),
    decreases entries.len(),
{
    reveal(Seq::filter);
    let kept = |entry: FoundView| is_kept(entry, output_root, allowed_extensions);
    let path = |entry: FoundView| entry.path;
    if entries.len() > 0 {
        let before = entries.drop_last();
        lemma_finds_what_is_kept(before, output_root, allowed_extensions);
        if kept(entries.last()) {
            assert(before.filter(kept).push(entries.last()).map_values(path) =~= before.filter(
                kept,
            ).map_values(path).push(entries.last().path));
        }
    } else {
        assert(entries.filter(kept).map_values(path) =~= Seq::<PathView>::empty());
    }
}

/// Every candidate is either found or counted as skipped, and beside those only entries of the
/// output folder are skipped.
pub proof fn lemma_nothing_is_lost(
    entries: Seq<FoundView>,
    output_root: Seq<PartView>,
    allowed_extensions: Set<Seq<char>>,
)
    ensures
        ({
            let scan = scanned(entries, output_root, allowed_extensions);
            scan.files.len() + scan.skipped == scan.processed + entries.filter(
                |entry: FoundView| paths::lies_under(entry.path.parts, output_root),
            ).len()
        }),
    decreases entries.len(),
{
    reveal(Seq::filter);
    if entries.len() > 0 {
        lemma_nothing_is_lost(entries.drop_last(), output_root, allowed_extensions);
    }
}

/// A scan never finds its own output: what it finds lies outside the output folder.
pub proof fn lemma_output_is_not_found(
    entries: Seq<FoundView>,
    output_root: Seq<PartView>,
    allowed_extensions: Set<Seq<char>>,
)
    ensures
        forall|k: int|
            0 <= k < scanned(entries, output_root, allowed_extensions).files.len()
                ==> !paths::lies_under(
                (#[trigger] scanned(entries, output_root, allowed_extensions).files[k]).parts,
                output_root,
            ),
    decreases entries.len(),
{
    if entries.len() > 0 {
        lemma_output_is_not_found(entries.drop_last(), output_root, allowed_extensions);
    }
}

/// A file whose extension speaks for a platform has an allowed extension.
pub proof fn lemma_recognized_file_is_allowed(
    rules: Seq<RuleView>,
    archives: Set<Seq<char>>,
    path: PathView,
    listing: Option<Seq<EntryView>>,
    at: int,
)
    requires
        0 <= at < rules.len(),
        classifier::extension_speaks(
            rules[at],
            classifier::signals(archives, path, listing),
        ),
    ensures
        has_allowed_extension(path.parts, classifier::allowed(rules, archives)),
{
    let extension = paths::lower_extension(path.parts);
    text::lemma_lower_twice(paths::extension(path.parts).unwrap());
    classifier::lemma_recognized_is_allowed(rules, archives, extension);
}

/// An archive whose entries are looked at has an allowed extension.
pub proof fn lemma_archive_is_allowed(
    rules: Seq<RuleView>,
    archives: Set<Seq<char>>,
    path: PathView,
)
    requires
        classifier::archive_kind(paths::lower_extension(path.parts), archives) is Some,
    ensures
        has_allowed_extension(path.parts, classifier::allowed(rules, archives)),
{
    reveal_strlit("zip");
    reveal_strlit("7z");
    assert("zip"@.len() > 0 && "7z"@.len() > 0);
    classifier::lemma_recognized_is_allowed(
        rules,
        archives,
        paths::lower_extension(path.parts),
    );
}

}
