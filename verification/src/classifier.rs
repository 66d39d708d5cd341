//! Which platform a file belongs to.

use vstd::prelude::*;
use crate::model::Confidence;
use crate::paths;
use crate::paths::{PathStyle, PathView, RomPath};
use crate::text;
use crate::text::Breaks;
use crate::text_set::TextSet;

verus! {

/// How many entries of an archive are looked at.
pub const MAX_ARCHIVE_ENTRIES: usize = 200;

/// How many levels of a path, the file itself included, are searched for folder hints.
pub const FOLDER_LEVELS: usize = 6;

/// What tells the files of one platform.
#[derive(Debug)]
pub struct PlatformRule {
    pub slug: String,
    pub aliases: Vec<String>,
    pub extensions: Vec<String>,
    pub rom_extensions: Vec<String>,
    pub folder_hints: Vec<String>,
    pub dat_tokens: Vec<String>,
}

/// The extensions of one platform's own files.
#[derive(Debug)]
pub struct PlatformRomTypeRule {
    pub slug: String,
    pub rom_extensions: Vec<String>,
}

/// The extensions of archives, and of each platform's own files.
#[derive(Debug)]
pub struct PlatformRomTypeIndex {
    pub archive_extensions: Vec<String>,
    pub platforms: Vec<PlatformRomTypeRule>,
}

/// The known platforms.
#[derive(Debug)]
pub struct PlatformIndex {
    pub platforms: Vec<PlatformRule>,
}

/// The outcome of classifying a file.
#[derive(Debug)]
pub struct Classification {
    pub platform_slug: Option<String>,
    pub confidence: Confidence,
    pub reason: String,
}

/// One entry of an archive.
#[derive(Debug)]
pub enum ArchiveEntry {
    /// An entry that could not be read.
    Unreadable,
    Folder,
    /// A file, with its name within the archive.
    File(String),
}

/// The kinds of archive whose entries are looked at.
#[derive(Debug, Clone, Copy, PartialEq, Eq, Structural)]
pub enum ArchiveKind {
    Zip,
    SevenZip,
}

/// Tells platforms by their rules.
pub struct Classifier {
    rules: Vec<PlatformRule>,
    archive_extensions: TextSet,
}

/// What a [`PlatformRule`] holds.
#[verifier::ext_equal]
pub struct RuleView {
    pub slug: Seq<char>,
    pub aliases: Seq<Seq<char>>,
    pub extensions: Seq<Seq<char>>,
    pub rom_extensions: Seq<Seq<char>>,
    pub folder_hints: Seq<Seq<char>>,
    pub dat_tokens: Seq<Seq<char>>,
}

/// What a [`PlatformRomTypeRule`] holds.
#[verifier::ext_equal]
pub struct RomTypeView {
    pub slug: Seq<char>,
    pub rom_extensions: Seq<Seq<char>>,
}

/// What a [`Classification`] holds.
#[verifier::ext_equal]
pub struct ClassificationView {
    pub platform_slug: Option<Seq<char>>,
    pub confidence: Confidence,
    pub reason: Seq<char>,
}

/// What an [`ArchiveEntry`] holds.
#[verifier::ext_equal]
pub enum EntryView {
    Unreadable,
    Folder,
    File(Seq<char>),
}

impl View for PlatformRule {
    type V = RuleView;

    open spec fn view(&self) -> RuleView {
        RuleView {
            slug: self.slug@,
            aliases: text::views(self.aliases@),
            extensions: text::views(self.extensions@),
            rom_extensions: text::views(self.rom_extensions@),
            folder_hints: text::views(self.folder_hints@),
            dat_tokens: text::views(self.dat_tokens@),
        }
    }
}

impl View for PlatformRomTypeRule {
    type V = RomTypeView;

    open spec fn view(&self) -> RomTypeView {
        RomTypeView { slug: self.slug@, rom_extensions: text::views(self.rom_extensions@) }
    }
}

impl View for Classification {
    type V = ClassificationView;

    open spec fn view(&self) -> ClassificationView {
        ClassificationView {
            platform_slug: paths::option_text(self.platform_slug),
            confidence: self.confidence,
            reason: self.reason@,
        }
    }
}

impl View for ArchiveEntry {
    type V = EntryView;

    open spec fn view(&self) -> EntryView {
        match self {
            ArchiveEntry::Unreadable => EntryView::Unreadable,
            ArchiveEntry::Folder => EntryView::Folder,
            ArchiveEntry::File(name) => EntryView::File(name@),
        }
    }
}

/// What each rule of a list holds.
pub open spec fn rule_views(rules: Seq<PlatformRule>) -> Seq<RuleView> {
    rules.map_values(|rule: PlatformRule| rule@)
}

/// What each rule of a list holds.
pub open spec fn rom_type_views(rules: Seq<PlatformRomTypeRule>) -> Seq<RomTypeView> {
    rules.map_values(|rule: PlatformRomTypeRule| rule@)
}

/// What each entry of an archive holds.
pub open spec fn entry_views(entries: Seq<ArchiveEntry>) -> Seq<EntryView> {
    entries.map_values(|entry: ArchiveEntry| entry@)
}

/// What is known of an archive: its entries, unless they could not be listed.
pub open spec fn listing_view(listing: Option<Vec<ArchiveEntry>>) -> Option<Seq<EntryView>> {
    match listing {
        Some(entries) => Some(entry_views(entries@)),
        None => None,
    }
}

/// A list of texts in ASCII lower case.
pub open spec fn lower_all(texts: Seq<Seq<char>>) -> Seq<Seq<char>> {
    texts.map_values(|text: Seq<char>| text::lower(text))
}

// ---------------------------------------------------------------------------------------------
// What is read off a file

/// The words of a text, in lower case and with one space between neighbours.
pub open spec fn normalized(text: Seq<char>) -> Seq<char> {
    text::joined(text::pieces(text::lower(text), Breaks::NonWords), " "@)
}

/// An opening bracket, of either kind.
pub open spec fn opens(ch: char) -> bool {
    ch == '[' || ch == '('
}

/// A closing bracket, of either kind.
pub open spec fn closes(ch: char) -> bool {
    ch == ']' || ch == ')'
}

/// Whether an opening bracket stands right before `from`, and no bracket from there up to `to`.
pub open spec fn runs_open(text: Seq<char>, from: int, to: int) -> bool {
    &&& 0 < from <= to <= text.len()
    &&& opens(text[from - 1])
    &&& forall|k: int| from <= k < to ==> !opens(#[trigger] text[k]) && !closes(text[k])
}

/// Whether a closing bracket stands at `to` and ends a token: some characters, none of them a
/// bracket, between it and an opening bracket. The two need not match in kind.
pub open spec fn ends_token(text: Seq<char>, to: int) -> bool {
    closes(text[to]) && exists|from: int| #[trigger] runs_open(text, from, to) && from < to
}

/// The token that ends at `to`, trimmed and in lower case.
pub open spec fn token_before(text: Seq<char>, to: int) -> Seq<char> {
    let from = choose|from: int| #[trigger] runs_open(text, from, to) && from < to;
    text::lower(text::trim(text.subrange(from, to)))
}

/// The bracketed tokens that end within the first `limit` characters of a text, in order.
pub open spec fn tokens_within(text: Seq<char>, limit: nat) -> Seq<Seq<char>> {
    Seq::new(limit, |at: int| at).filter(|to: int| ends_token(text, to)).map_values(
        |to: int| token_before(text, to),
    )
}

/// The bracketed tokens of a file name, trimmed and in lower case.
pub open spec fn bracket_tokens(text: Seq<char>) -> Seq<Seq<char>> {
    tokens_within(text, text.len())
}

/// One character more brings the token that it ends, if it ends one.
pub(crate) proof fn lemma_tokens_step(text: Seq<char>, at: nat)
    requires
        at < text.len(),
    ensures
        tokens_within(text, at + 1) == if ends_token(text, at as int) {
            tokens_within(text, at).push(token_before(text, at as int))
        } else {
            tokens_within(text, at)
        },
{
    reveal(Seq::filter);
    let now = Seq::new(at + 1, |at: int| at);
    let before = Seq::new(at, |at: int| at);
    assert(now.drop_last() =~= before);
    assert(now.last() == at);
    assert(tokens_within(text, at + 1) =~= if ends_token(text, at as int) {
        tokens_within(text, at).push(token_before(text, at as int))
    } else {
        tokens_within(text, at)
    });
}

/// There is only one place that a run of characters without brackets can begin at.
pub(crate) proof fn lemma_one_run(text: Seq<char>, one: int, other: int, to: int)
    requires
        runs_open(text, one, to),
        runs_open(text, other, to),
    ensures
        one == other,
{
    if one < other {
        assert(opens(text[other - 1]));
    } else if other < one {
        assert(opens(text[one - 1]));
    }
}

/// Extensions of archives: inside another archive they tell nothing.
pub open spec fn is_nested_archive(extension: Seq<char>) -> bool {
    extension == "zip"@ || extension == "7z"@ || extension == "rar"@ || extension == "tar"@
        || extension == "gz"@
}

/// The lower case extension of an archive entry, where it is a file that has one and is no
/// archive itself.
pub open spec fn member_extension(style: PathStyle, entry: EntryView) -> Option<Seq<char>> {
    match entry {
        EntryView::File(name) => match paths::extension(paths::parsed(style, name)) {
            Some(extension) => if is_nested_archive(text::lower(extension)) {
                None
            } else {
                Some(text::lower(extension))
            },
            None => None,
        },
        _ => None,
    }
}

/// The extensions of archive entries, each once, in the order in which they first occur.
pub open spec fn member_extensions(style: PathStyle, entries: Seq<EntryView>) -> Seq<Seq<char>>
    decreases entries.len(),
{
    if entries.len() == 0 {
        Seq::empty()
    } else {
        let before = member_extensions(style, entries.drop_last());
        match member_extension(style, entries.last()) {
            Some(extension) => if before.contains(extension) {
                before
            } else {
                before.push(extension)
            },
            None => before,
        }
    }
}

/// The kind of archive whose entries are looked at for this extension.
pub open spec fn archive_kind(extension: Seq<char>, archives: Set<Seq<char>>) -> Option<
    ArchiveKind,
> {
    if !archives.contains(extension) {
        None
    } else if extension == "zip"@ {
        Some(ArchiveKind::Zip)
    } else if extension == "7z"@ {
        Some(ArchiveKind::SevenZip)
    } else {
        None
    }
}

/// The extensions that the first `max_entries` entries of an archive show, where it is one whose
/// entries are looked at, they could be listed and show any.
pub open spec fn inspected(
    style: PathStyle,
    extension: Seq<char>,
    archives: Set<Seq<char>>,
    listing: Option<Seq<EntryView>>,
    max_entries: nat,
) -> Option<Seq<Seq<char>>> {
    match (archive_kind(extension, archives), listing) {
        (Some(_), Some(entries)) => {
            let seen = if entries.len() <= max_entries {
                entries
            } else {
                entries.take(max_entries as int)
            };
            let members = member_extensions(style, seen);
            if members.len() == 0 {
                None
            } else {
                Some(members)
            }
        },
        _ => None,
    }
}

/// What the rules are held against.
#[verifier::ext_equal]
pub struct Signals {
    /// The extension in lower case, or nothing.
    pub extension: Seq<char>,
    /// The words of the file name.
    pub words: Seq<char>,
    /// The names of the file and the folders above it.
    pub folders: Seq<Seq<char>>,
    /// The bracketed tokens of the file name.
    pub tokens: Seq<Seq<char>>,
    /// The extensions found in an archive.
    pub members: Option<Seq<Seq<char>>>,
}

/// The file name of a path in lower case, or nothing.
pub open spec fn lower_name(path: PathView) -> Seq<char> {
    match paths::file_name_text(path.parts) {
        Some(name) => text::lower(name),
        None => Seq::empty(),
    }
}

/// What is read off a file.
pub open spec fn signals(
    archives: Set<Seq<char>>,
    path: PathView,
    listing: Option<Seq<EntryView>>,
) -> Signals {
    let extension = paths::lower_extension(path.parts);
    Signals {
        extension,
        words: normalized(lower_name(path)),
        folders: paths::level_names(path.parts, FOLDER_LEVELS as nat),
        tokens: bracket_tokens(lower_name(path)),
        members: inspected(path.style, extension, archives, listing, MAX_ARCHIVE_ENTRIES as nat),
    }
}

// ---------------------------------------------------------------------------------------------
// What the rules say

/// Whether an extension is one of a list, up to the case of ASCII letters.
pub open spec fn lists_extension(extensions: Seq<Seq<char>>, extension: Seq<char>) -> bool {
    exists|k: int|
        0 <= k < extensions.len() && text::lower(#[trigger] extensions[k]) == text::lower(
            extension,
        )
}

/// Whether some text of a list contains the lower case of `hint`.
pub open spec fn mentioned(texts: Seq<Seq<char>>, hint: Seq<char>) -> bool {
    exists|k: int|
        0 <= k < texts.len() && text::has_infix(#[trigger] texts[k], text::lower(hint))
}

/// Whether some text of a list contains the lower case of one of the hints.
pub open spec fn mentions_any(texts: Seq<Seq<char>>, hints: Seq<Seq<char>>) -> bool {
    exists|k: int| 0 <= k < hints.len() && mentioned(texts, #[trigger] hints[k])
}

/// Whether an alias has words, and they stand among the words of a file name.
pub open spec fn alias_occurs(words: Seq<char>, alias: Seq<char>) -> bool {
    normalized(alias).len() > 0 && text::has_infix(
        " "@ + words + " "@,
        " "@ + normalized(alias) + " "@,
    )
}

/// Whether some alias occurs among the words of a file name.
pub open spec fn any_alias_occurs(words: Seq<char>, aliases: Seq<Seq<char>>) -> bool {
    exists|k: int| 0 <= k < aliases.len() && alias_occurs(words, #[trigger] aliases[k])
}

/// The first member extension that a list of extensions has.
pub open spec fn first_listed(
    members: Seq<Seq<char>>,
    extensions: Seq<Seq<char>>,
) -> Option<Seq<char>>
    decreases members.len(),
{
    if members.len() == 0 {
        None
    } else {
        match first_listed(members.drop_last(), extensions) {
            Some(found) => Some(found),
            None => if lists_extension(extensions, members.last()) {
                Some(members.last())
            } else {
                None
            },
        }
    }
}

/// The member extension that speaks for a rule.
pub open spec fn found_member(rule: RuleView, signals: Signals) -> Option<Seq<char>> {
    match signals.members {
        Some(members) => first_listed(members, rule.rom_extensions),
        None => None,
    }
}

/// The file's own extension speaks for a rule.
pub open spec fn extension_speaks(rule: RuleView, signals: Signals) -> bool {
    signals.extension.len() > 0 && lists_extension(rule.rom_extensions, signals.extension)
}

/// How much speaks for a rule.
pub open spec fn score(rule: RuleView, signals: Signals) -> nat {
    (if extension_speaks(rule, signals) {
        70nat
    } else {
        0
    }) + (if mentions_any(signals.folders, rule.folder_hints) {
        40nat
    } else {
        0
    }) + (if any_alias_occurs(signals.words, rule.aliases) {
        30nat
    } else {
        0
    }) + (if mentions_any(signals.tokens, rule.dat_tokens) {
        50nat
    } else {
        0
    }) + (if found_member(rule, signals) is Some {
        90nat
    } else {
        0
    })
}

/// A list of one text, or of none.
pub open spec fn one_if(holds: bool, text: Seq<char>) -> Seq<Seq<char>> {
    if holds {
        seq![text]
    } else {
        Seq::empty()
    }
}

/// What speaks for a rule, in words.
pub open spec fn reasons(rule: RuleView, signals: Signals) -> Seq<Seq<char>> {
    one_if(extension_speaks(rule, signals), "extension ."@ + signals.extension) + one_if(
        mentions_any(signals.folders, rule.folder_hints),
        "folder hint"@,
    ) + one_if(any_alias_occurs(signals.words, rule.aliases), "filename alias"@) + one_if(
        mentions_any(signals.tokens, rule.dat_tokens),
        "dat token"@,
    ) + one_if(
        found_member(rule, signals) is Some,
        "archive member extension ."@ + found_member(rule, signals).unwrap(),
    )
}

/// More speaks for this rule than for any other.
pub open spec fn wins(rules: Seq<RuleView>, signals: Signals, at: int) -> bool {
    &&& 0 <= at < rules.len()
    &&& score(rules[at], signals) > 0
    &&& forall|k: int|
        0 <= k < rules.len() && k != at ==> score(#[trigger] rules[k], signals) < score(
            rules[at],
            signals,
        )
}

/// No rule has more for it than these two, which have equally much.
pub open spec fn ties(rules: Seq<RuleView>, signals: Signals, one: int, other: int) -> bool {
    &&& 0 <= one < other < rules.len()
    &&& score(rules[one], signals) == score(rules[other], signals)
    &&& score(rules[one], signals) > 0
    &&& forall|k: int|
        0 <= k < rules.len() ==> score(#[trigger] rules[k], signals) <= score(rules[one], signals)
}

/// Nothing speaks for any rule.
pub open spec fn silent(rules: Seq<RuleView>, signals: Signals) -> bool {
    forall|k: int| 0 <= k < rules.len() ==> score(#[trigger] rules[k], signals) == 0
}

/// The classification that the winning rule gives.
pub open spec fn won_by(rule: RuleView, signals: Signals) -> ClassificationView {
    ClassificationView {
        platform_slug: Some(rule.slug),
        confidence: if score(rule, signals) >= 100 {
            Confidence::Exact
        } else {
            Confidence::High
        },
        reason: text::joined(reasons(rule, signals), ", "@),
    }
}

/// What the rules say of a file: the platform of the rule that wins, if one does.
pub open spec fn verdict(rules: Seq<RuleView>, signals: Signals) -> ClassificationView {
    if exists|at: int| wins(rules, signals, at) {
        won_by(rules[choose|at: int| wins(rules, signals, at)], signals)
    } else if exists|one: int, other: int| ties(rules, signals, one, other) {
        ClassificationView {
            platform_slug: None,
            confidence: Confidence::Ambiguous,
            reason: "multiple platforms matched with equal score"@,
        }
    } else {
        ClassificationView {
            platform_slug: None,
            confidence: Confidence::Unknown,
            reason: "no platform match"@,
        }
    }
}

/// The extensions of files that may be of use.
pub open spec fn allowed(rules: Seq<RuleView>, archives: Set<Seq<char>>) -> Set<Seq<char>> {
    rom_extension_set(rules).union(archives)
}

/// The extensions of all rules in lower case.
pub open spec fn rom_extension_set(rules: Seq<RuleView>) -> Set<Seq<char>>
    decreases rules.len(),
{
    if rules.len() == 0 {
        Set::empty()
    } else {
        rom_extension_set(rules.drop_last()).union(lower_all(rules.last().rom_extensions).to_set())
    }
}

// ---------------------------------------------------------------------------------------------
// How the rules come about

/// The extensions that the last entry with this slug lists.
pub open spec fn listed_for(entries: Seq<RomTypeView>, slug: Seq<char>) -> Option<Seq<Seq<char>>>
    decreases entries.len(),
{
    if entries.len() == 0 {
        None
    } else if entries.last().slug == slug {
        Some(entries.last().rom_extensions)
    } else {
        listed_for(entries.drop_last(), slug)
    }
}

/// The extensions of a list that are not those of archives, in lower case.
pub open spec fn without_archives(
    extensions: Seq<Seq<char>>,
    archives: Set<Seq<char>>,
) -> Seq<Seq<char>>
    decreases extensions.len(),
{
    if extensions.len() == 0 {
        Seq::empty()
    } else {
        let before = without_archives(extensions.drop_last(), archives);
        let last = text::lower(extensions.last());
        if archives.contains(last) {
            before
        } else {
            before.push(last)
        }
    }
}

/// A rule with the extensions of its platform's own files: those listed for it, else its general
/// ones without those of archives.
pub open spec fn completed(
    rule: RuleView,
    entries: Seq<RomTypeView>,
    archives: Set<Seq<char>>,
) -> RuleView {
    RuleView {
        rom_extensions: match listed_for(entries, rule.slug) {
            Some(extensions) => lower_all(extensions),
            None => without_archives(rule.extensions, archives),
        },
        ..rule
    }
}

/// The rules of an index, completed.
pub open spec fn completed_rules(
    rules: Seq<RuleView>,
    entries: Seq<RomTypeView>,
    archives: Set<Seq<char>>,
) -> Seq<RuleView> {
    rules.map_values(|rule: RuleView| completed(rule, entries, archives))
}

// ---------------------------------------------------------------------------------------------
// Reading a file's signals

/// A list of texts in ASCII lower case.
fn to_lower_all(texts: &Vec<String>) -> (result: Vec<String>)
    ensures
        text::views(result@) == lower_all(text::views(texts@)),
{
    let mut result: Vec<String> = Vec::new();
    let ghost all = lower_all(text::views(texts@));
    let mut at: usize = 0;
    while at < texts.len()
        invariant
            at <= texts@.len(),
            all == lower_all(text::views(texts@)),
            text::views(result@) == all.take(at as int),
        decreases texts@.len() - at,
    {
        let ghost earlier = result@;
        let lowered: String = text::to_lower(texts[at].as_str());
        result.push(lowered);
        assert(text::views(result@) =~= text::views(earlier).push(lowered@));
        at = at + 1;
        assert(text::views(result@) =~= all.take(at as int));
    }
    assert(all.take(texts@.len() as int) =~= all);
    result
}

/// The words of a text, in lower case and with one space between neighbours.
pub fn normalize_text_for_matching(input: &str) -> (result: String)
    ensures
        result@ == normalized(input@),
{
    let lowered: String = text::to_lower(input);
    let chars: Vec<char> = text::chars_of(lowered.as_str());
    let words: Vec<String> = text::split(&chars, 0, Breaks::NonWords);
    assert(chars@.skip(0) =~= chars@);
    text::join(&words, " ")
}

/// The bracketed tokens of a file name, trimmed and in lower case.
pub fn extract_bracket_tokens(file_name: &str) -> (result: Vec<String>)
    ensures
        text::views(result@) == bracket_tokens(file_name@),
{
    let chars: Vec<char> = text::chars_of(file_name);
    let mut tokens: Vec<String> = Vec::new();
    let mut current: String = String::new();
    let mut active: bool = false;
    let ghost mut from: int = 0;
    let mut at: usize = 0;
    proof {
        reveal(Seq::filter);
        assert(text::views(tokens@) =~= tokens_within(chars@, 0));
    }
    while at < chars.len()
        invariant
            at <= chars@.len(),
            text::views(tokens@) == tokens_within(chars@, at as nat),
            active ==> runs_open(chars@, from, at as int) && current@ == chars@.subrange(
                from,
                at as int,
            ),
            !active ==> forall|start: int| !(#[trigger] runs_open(chars@, start, at as int)),
        decreases chars@.len() - at,
    {
        let ch: char = chars[at];
        proof {
            lemma_tokens_step(chars@, at as nat);
        }
        if ch == '[' || ch == '(' {
            active = true;
            current = String::new();
            proof {
                from = at + 1;
                assert(current@ =~= chars@.subrange(from, from));
            }
        } else if ch == ']' || ch == ')' {
            if active && !current.as_str().is_empty() {
                let ghost earlier = tokens@;
                let inner: String = text::trimmed(current.as_str());
                let token: String = text::to_lower(inner.as_str());
                tokens.push(token);
                proof {
                    assert(text::views(tokens@) =~= text::views(earlier).push(token@));
                    assert(runs_open(chars@, from, at as int) && from < at);
                    let start = choose|start: int| #[trigger]
                        runs_open(chars@, start, at as int) && start < at;
                    lemma_one_run(chars@, from, start, at as int);
                }
            } else {
                proof {
                    assert forall|start: int| #[trigger]
                        runs_open(chars@, start, at as int) implies start >= at by {
                        lemma_one_run(chars@, from, start, at as int);
                    }
                }
            }
            active = false;
            current = String::new();
            assert forall|start: int| !(#[trigger] runs_open(chars@, start, at + 1)) by {
                if start <= at && runs_open(chars@, start, at + 1) {
                    assert(closes(chars@[at as int]));
                }
                if start == at + 1 && runs_open(chars@, start, at + 1) {
                    assert(opens(chars@[start - 1]));
                }
            }
        } else if active {
            current.push(ch);
            assert(current@ =~= chars@.subrange(from, at + 1));
        } else {
            assert forall|start: int| !(#[trigger] runs_open(chars@, start, at + 1)) by {
                if start <= at && runs_open(chars@, start, at + 1) {
                    assert(runs_open(chars@, start, at as int));
                }
                if start == at + 1 && runs_open(chars@, start, at + 1) {
                    assert(opens(chars@[start - 1]));
                }
            }
        }
        at = at + 1;
    }
    tokens
}

/// The lower case extension of an archive entry, where it is a file that has one and is no
/// archive itself.
fn extension_of_member(style: PathStyle, entry: &ArchiveEntry) -> (result: Option<String>)
    ensures
        paths::option_text(result) == member_extension(style, entry@),
{
    match entry {
        ArchiveEntry::File(name) => {
            let path: RomPath = RomPath::parse(style, name.as_str());
            match path.extension() {
                Some(extension) => {
                    let lowered: String = text::to_lower(extension.as_str());
                    let nested: bool = text::same(lowered.as_str(), "zip") || text::same(
                        lowered.as_str(),
                        "7z",
                    ) || text::same(lowered.as_str(), "rar") || text::same(lowered.as_str(), "tar")
                        || text::same(lowered.as_str(), "gz");
                    if nested {
                        None
                    } else {
                        Some(lowered)
                    }
                },
                None => None,
            }
        },
        _ => None,
    }
}

/// The extensions that the first `max_entries` entries of an archive show, each once, in the order
/// in which they first occur; nothing if they show none.
pub fn inspect_member_extensions(
    style: PathStyle,
    entries: &Vec<ArchiveEntry>,
    max_entries: usize,
) -> (result: Option<Vec<String>>)
    ensures
        ({
            let all = entry_views(entries@);
            let seen = if all.len() <= max_entries {
                all
            } else {
                all.take(max_entries as int)
            };
            match result {
                Some(members) => text::views(members@) == member_extensions(style, seen)
                    && members@.len() > 0,
                None => member_extensions(style, seen).len() == 0,
            }
        }),
{
    let limit: usize = if entries.len() <= max_entries {
        entries.len()
    } else {
        max_entries
    };
    let ghost all = entry_views(entries@);
    let mut members: Vec<String> = Vec::new();
    let mut at: usize = 0;
    assert(text::views(members@) =~= Seq::<Seq<char>>::empty());
    while at < limit
        invariant
            at <= limit <= entries@.len(),
            all == entry_views(entries@),
            text::views(members@) == member_extensions(style, all.take(at as int)),
        decreases limit - at,
    {
        proof {
            let now = all.take(at + 1);
            assert(now.drop_last() =~= all.take(at as int));
            assert(now.last() == entries@[at as int]@);
        }
        match extension_of_member(style, &entries[at]) {
            Some(extension) => {
                if !text::holds(&members, extension.as_str()) {
                    let ghost earlier = members@;
                    members.push(extension);
                    assert(text::views(members@) =~= text::views(earlier).push(extension@));
                }
            },
            None => {},
        }
        at = at + 1;
    }
    assert(all.take(entries@.len() as int) =~= all);
    assert(text::views(members@).len() == members@.len());
    if members.len() == 0 {
        None
    } else {
        Some(members)
    }
}

/// The kind of archive whose entries are looked at for this extension.
fn kind_of_archive(extension: &str, archive_extensions: &TextSet) -> (result: Option<ArchiveKind>)
    ensures
        result == archive_kind(extension@, archive_extensions@),
{
    if !archive_extensions.contains(extension) {
        return None;
    }
    if text::same(extension, "zip") {
        Some(ArchiveKind::Zip)
    } else if text::same(extension, "7z") {
        Some(ArchiveKind::SevenZip)
    } else {
        None
    }
}

/// The extensions that the entries of an archive show, where it is one whose entries are looked
/// at, they could be listed and show any.
pub fn inspect_archive_member_extensions(
    style: PathStyle,
    extension: &str,
    archive_extensions: &TextSet,
    listing: &Option<Vec<ArchiveEntry>>,
    max_entries: usize,
) -> (result: Option<Vec<String>>)
    ensures
        members_view(result) == inspected(
            style,
            extension@,
            archive_extensions@,
            listing_view(*listing),
            max_entries as nat,
        ),
{
    match (kind_of_archive(extension, archive_extensions), listing) {
        (Some(_), Some(entries)) => inspect_member_extensions(style, entries, max_entries),
        _ => None,
    }
}

/// A list of texts that may be missing.
pub open spec fn members_view(members: Option<Vec<String>>) -> Option<Seq<Seq<char>>> {
    match members {
        Some(members) => Some(text::views(members@)),
        None => None,
    }
}

/// What the rules are held against.
struct Evidence {
    extension: String,
    words: String,
    folders: Vec<String>,
    tokens: Vec<String>,
    members: Option<Vec<String>>,
}

impl View for Evidence {
    type V = Signals;

    closed spec fn view(&self) -> Signals {
        Signals {
            extension: self.extension@,
            words: self.words@,
            folders: text::views(self.folders@),
            tokens: text::views(self.tokens@),
            members: members_view(self.members),
        }
    }
}

// ---------------------------------------------------------------------------------------------
// Holding rules against signals

/// Whether an extension is one of a list, up to the case of ASCII letters.
fn has_extension(extensions: &Vec<String>, extension: &str) -> (result: bool)
    ensures
        result == lists_extension(text::views(extensions@), extension@),
{
    let mut at: usize = 0;
    while at < extensions.len()
        invariant
            at <= extensions@.len(),
            forall|k: int|
                0 <= k < at ==> text::lower(#[trigger] text::views(extensions@)[k]) != text::lower(
                    extension@,
                ),
        decreases extensions@.len() - at,
    {
        if text::same_ignoring_case(extensions[at].as_str(), extension) {
            assert(text::views(extensions@)[at as int] == extensions@[at as int]@);
            return true;
        }
        at = at + 1;
    }
    false
}

/// Whether some text of a list contains the lower case of `hint`.
fn is_mentioned(texts: &Vec<String>, hint: &str) -> (result: bool)
    ensures
        result == mentioned(text::views(texts@), hint@),
{
    let lowered: String = text::to_lower(hint);
    let mut at: usize = 0;
    while at < texts.len()
        invariant
            at <= texts@.len(),
            lowered@ == text::lower(hint@),
            forall|k: int|
                0 <= k < at ==> !text::has_infix(
                    #[trigger] text::views(texts@)[k],
                    text::lower(hint@),
                ),
        decreases texts@.len() - at,
    {
        if text::contains(texts[at].as_str(), lowered.as_str()) {
            assert(text::views(texts@)[at as int] == texts@[at as int]@);
            return true;
        }
        at = at + 1;
    }
    false
}

/// Whether some text of a list contains the lower case of one of the hints.
fn is_any_mentioned(texts: &Vec<String>, hints: &Vec<String>) -> (result: bool)
    ensures
        result == mentions_any(text::views(texts@), text::views(hints@)),
{
    let mut at: usize = 0;
    while at < hints.len()
        invariant
            at <= hints@.len(),
            forall|k: int|
                0 <= k < at ==> !mentioned(
                    text::views(texts@),
                    #[trigger] text::views(hints@)[k],
                ),
        decreases hints@.len() - at,
    {
        if is_mentioned(texts, hints[at].as_str()) {
            assert(text::views(hints@)[at as int] == hints@[at as int]@);
            return true;
        }
        at = at + 1;
    }
    false
}

/// A text with a space on either side.
fn spaced(inner: &str) -> (result: String)
    ensures
        result@ == " "@ + inner@ + " "@,
{
    let mut result: String = " ".to_owned();
    result.append(inner);
    result.append(" ");
    result
}

/// Whether some alias occurs among the words of a file name.
fn has_alias(words: &str, aliases: &Vec<String>) -> (result: bool)
    ensures
        result == any_alias_occurs(words@, text::views(aliases@)),
{
    let haystack: String = spaced(words);
    let mut at: usize = 0;
    while at < aliases.len()
        invariant
            at <= aliases@.len(),
            haystack@ == " "@ + words@ + " "@,
            forall|k: int|
                0 <= k < at ==> !alias_occurs(words@, #[trigger] text::views(aliases@)[k]),
        decreases aliases@.len() - at,
    {
        assert(text::views(aliases@)[at as int] == aliases@[at as int]@);
        let alias: String = normalize_text_for_matching(aliases[at].as_str());
        if !alias.as_str().is_empty() {
            let needle: String = spaced(alias.as_str());
            if text::contains(haystack.as_str(), needle.as_str()) {
                assert(alias_occurs(words@, text::views(aliases@)[at as int]));
                return true;
            }
        }
        at = at + 1;
    }
    false
}

/// Where the first member extension stands that a list of extensions has.
fn find_listed(members: &Vec<String>, extensions: &Vec<String>) -> (result: Option<usize>)
    ensures
        match result {
            Some(at) => at < members@.len() && first_listed(
                text::views(members@),
                text::views(extensions@),
            ) == Some(members@[at as int]@),
            None => first_listed(text::views(members@), text::views(extensions@)) is None,
        },
{
    let ghost all = text::views(members@);
    let ghost listed = text::views(extensions@);
    let mut found: Option<usize> = None;
    let mut at: usize = 0;
    while at < members.len()
        invariant
            at <= members@.len(),
            all == text::views(members@),
            listed == text::views(extensions@),
            match found {
                Some(k) => k < at && first_listed(all.take(at as int), listed) == Some(
                    members@[k as int]@,
                ),
                None => first_listed(all.take(at as int), listed) is None,
            },
        decreases members@.len() - at,
    {
        proof {
            let now = all.take(at + 1);
            assert(now.drop_last() =~= all.take(at as int));
            assert(now.last() == members@[at as int]@);
        }
        if found.is_none() && has_extension(extensions, members[at].as_str()) {
            found = Some(at);
        }
        at = at + 1;
    }
    assert(all.take(members@.len() as int) =~= all);
    found
}

/// How much speaks for a rule, and what, in words.
fn weigh(rule: &PlatformRule, evidence: &Evidence) -> (result: (u32, Vec<String>))
    ensures
        result.0 == score(rule@, evidence@),
        text::views(result.1@) == reasons(rule@, evidence@),
{
    let mut score: u32 = 0;
    let mut words: Vec<String> = Vec::new();
    let ghost said_0 = Seq::<Seq<char>>::empty();
    assert(text::views(words@) =~= said_0);

    let by_extension: bool = !evidence.extension.as_str().is_empty() && has_extension(
        &rule.rom_extensions,
        evidence.extension.as_str(),
    );
    let ghost said_1 = one_if(by_extension, "extension ."@ + evidence@.extension);
    if by_extension {
        score = score + 70;
        let mut word: String = "extension .".to_owned();
        word.append(evidence.extension.as_str());
        words.push(word);
    }
    assert(text::views(words@) =~= said_1);

    let by_folder: bool = is_any_mentioned(&evidence.folders, &rule.folder_hints);
    let ghost said_2 = said_1 + one_if(by_folder, "folder hint"@);
    if by_folder {
        score = score + 40;
        words.push("folder hint".to_owned());
    }
    assert(text::views(words@) =~= said_2);

    let by_alias: bool = has_alias(evidence.words.as_str(), &rule.aliases);
    let ghost said_3 = said_2 + one_if(by_alias, "filename alias"@);
    if by_alias {
        score = score + 30;
        words.push("filename alias".to_owned());
    }
    assert(text::views(words@) =~= said_3);

    let by_token: bool = is_any_mentioned(&evidence.tokens, &rule.dat_tokens);
    let ghost said_4 = said_3 + one_if(by_token, "dat token"@);
    if by_token {
        score = score + 50;
        words.push("dat token".to_owned());
    }
    assert(text::views(words@) =~= said_4);

    if let Some(members) = &evidence.members {
        if let Some(at) = find_listed(members, &rule.rom_extensions) {
            score = score + 90;
            let mut word: String = "archive member extension .".to_owned();
            word.append(members[at].as_str());
            words.push(word);
            assert(found_member(rule@, evidence@) == Some(members@[at as int]@));
        }
    }
    assert(text::views(words@) =~= reasons(rule@, evidence@));
    (score, words)
}

impl Clone for PlatformRule {
    fn clone(&self) -> (result: Self)
        ensures
            result@ == self@,
    {
        PlatformRule {
            slug: self.slug.clone(),
            aliases: text::copy_all(&self.aliases),
            extensions: text::copy_all(&self.extensions),
            rom_extensions: text::copy_all(&self.rom_extensions),
            folder_hints: text::copy_all(&self.folder_hints),
            dat_tokens: text::copy_all(&self.dat_tokens),
        }
    }
}

impl Clone for Classification {
    fn clone(&self) -> (result: Self)
        ensures
            result@ == self@,
    {
        Classification {
            platform_slug: paths::copy_option(&self.platform_slug),
            confidence: self.confidence,
            reason: self.reason.clone(),
        }
    }
}

impl Classifier {
    /// The rules.
    pub closed spec fn rules(self) -> Seq<RuleView> {
        rule_views(self.rules@)
    }

    /// The extensions of archives.
    pub closed spec fn archives(self) -> Set<Seq<char>> {
        self.archive_extensions@
    }

    /// What the classifier says of a file, given what is known of the archive that it may be.
    pub open spec fn says(
        self,
        path: PathView,
        listing: Option<Seq<EntryView>>,
    ) -> ClassificationView {
        verdict(self.rules(), signals(self.archives(), path, listing))
    }

    /// Makes a classifier of the known platforms and the extensions of their own files.
    pub fn from_embedded(index: &PlatformIndex, rom_types: &PlatformRomTypeIndex) -> (result:
        Classifier)
        ensures
            result.archives() == lower_all(
                text::views(rom_types.archive_extensions@),
            ).to_set(),
            result.rules() == completed_rules(
                rule_views(index.platforms@),
                rom_type_views(rom_types.platforms@),
                result.archives(),
            ),
            forall|extension: Seq<char>| #[trigger]
                result.archives().contains(extension) <==> exists|k: int|
                    0 <= k < rom_types.archive_extensions@.len() && #[trigger] text::lower(
                        rom_types.archive_extensions@[k]@,
                    ) == extension,
    {
        let mut archive_extensions: TextSet = TextSet::new();
        let lowered: Vec<String> = to_lower_all(&rom_types.archive_extensions);
        let ghost all = text::views(lowered@);
        let mut at: usize = 0;
        assert(all.take(0).to_set() =~= Set::<Seq<char>>::empty());
        while at < lowered.len()
            invariant
                at <= lowered@.len(),
                all == text::views(lowered@),
                archive_extensions@ == all.take(at as int).to_set(),
            decreases lowered@.len() - at,
        {
            archive_extensions.insert(lowered[at].clone());
            proof {
                let entry = lowered@[at as int]@;
                assert(all.take(at + 1) =~= all.take(at as int).push(entry));
                all.take(at as int).lemma_push_to_set_commute(entry);
            }
            at = at + 1;
        }
        assert(all.take(lowered@.len() as int) =~= all);
        proof {
            let listed = rom_types.archive_extensions@;
            assert(all == lower_all(text::views(listed)));
            assert forall|extension: Seq<char>|
                archive_extensions@.contains(extension) == (exists|k: int|
                    0 <= k < listed.len() && #[trigger] text::lower(listed[k]@) == extension) by {
                if archive_extensions@.contains(extension) {
                    let k = choose|k: int| 0 <= k < all.len() && all[k] == extension;
                    assert(text::lower(listed[k]@) == extension);
                }
                if exists|k: int|
                    0 <= k < listed.len() && #[trigger] text::lower(listed[k]@) == extension {
                    let k = choose|k: int|
                        0 <= k < listed.len() && #[trigger] text::lower(listed[k]@) == extension;
                    assert(all[k] == extension);
                }
            }
        }

        let ghost archives = archive_extensions@;
        let ghost entries = rom_type_views(rom_types.platforms@);
        let ghost wanted = completed_rules(rule_views(index.platforms@), entries, archives);
        let mut rules: Vec<PlatformRule> = Vec::new();
        let mut at: usize = 0;
        while at < index.platforms.len()
            invariant
                at <= index.platforms@.len(),
                archives == archive_extensions@,
                entries == rom_type_views(rom_types.platforms@),
                wanted == completed_rules(rule_views(index.platforms@), entries, archives),
                rule_views(rules@) == wanted.take(at as int),
            decreases index.platforms@.len() - at,
        {
            let ghost earlier = rules@;
            let mut rule: PlatformRule = index.platforms[at].clone();
            rule.rom_extensions =
            match find_for_slug(&rom_types.platforms, rule.slug.as_str()) {
                Some(k) => to_lower_all(&rom_types.platforms[k].rom_extensions),
                None => leave_archives_out(&rule.extensions, &archive_extensions),
            };
            rules.push(rule);
            assert(rule@ == completed(index.platforms@[at as int]@, entries, archives));
            assert(rule_views(rules@) =~= rule_views(earlier).push(rule@));
            at = at + 1;
            assert(rule_views(rules@) =~= wanted.take(at as int));
        }
        assert(wanted.take(index.platforms@.len() as int) =~= wanted);
        Classifier { rules, archive_extensions }
    }

    /// The kind of archive that has to be listed before the file can be classified, if any.
    pub fn archive_to_list(&self, path: &RomPath) -> (result: Option<ArchiveKind>)
        ensures
            result == archive_kind(paths::lower_extension(path@.parts), self.archives()),
    {
        let extension: String = path.lower_extension();
        kind_of_archive(extension.as_str(), &self.archive_extensions)
    }

    /// What is read off a file.
    fn evidence(&self, path: &RomPath, listing: &Option<Vec<ArchiveEntry>>) -> (result: Evidence)
        ensures
            result@ == signals(self.archives(), path@, listing_view(*listing)),
    {
        let extension: String = path.lower_extension();
        let members: Option<Vec<String>> = inspect_archive_member_extensions(
            path.style,
            extension.as_str(),
            &self.archive_extensions,
            listing,
            MAX_ARCHIVE_ENTRIES,
        );
        let file_name: String = match path.file_name_text() {
            Some(name) => text::to_lower(name),
            None => String::new(),
        };
        Evidence {
            extension,
            words: normalize_text_for_matching(file_name.as_str()),
            folders: path.level_names(FOLDER_LEVELS),
            tokens: extract_bracket_tokens(file_name.as_str()),
            members,
        }
    }

    /// Classifies a file, given the entries of the archive that it may be.
    pub fn classify(&self, path: &RomPath, listing: &Option<Vec<ArchiveEntry>>) -> (result:
        Classification)
        ensures
            result@ == self.says(path@, listing_view(*listing)),
    {
        let evidence: Evidence = self.evidence(path, listing);
        let ghost all = self.rules();
        let ghost read = evidence@;
        let mut best: usize = 0;
        let mut best_score: u32 = 0;
        let mut best_reasons: Vec<String> = Vec::new();
        let mut tied: bool = false;
        let ghost mut rival: int = 0;
        let mut at: usize = 0;
        while at < self.rules.len()
            invariant
                at <= self.rules@.len(),
                all == rule_views(self.rules@),
                read == evidence@,
                forall|k: int| 0 <= k < at ==> score(#[trigger] all[k], read) <= best_score,
                best_score > 0 ==> best < at && score(all[best as int], read) == best_score
                    && text::views(best_reasons@) == reasons(all[best as int], read),
                best_score == 0 ==> !tied,
                tied ==> best < rival < at && score(all[rival], read) == best_score,
                !tied && best_score > 0 ==> forall|k: int|
                    0 <= k < at && k != best ==> score(#[trigger] all[k], read) < best_score,
            decreases self.rules@.len() - at,
        {
            let (score, reasons) = weigh(&self.rules[at], &evidence);
            assert(all[at as int] == self.rules@[at as int]@);
            if score > best_score {
                best_score = score;
                best = at;
                tied = false;
                best_reasons = reasons;
            } else if score > 0 && score == best_score {
                tied = true;
                proof {
                    rival = at as int;
                }
            }
            at = at + 1;
        }
        if tied {
            proof {
                assert(ties(all, read, best as int, rival));
                lemma_one_outcome(all, read);
            }
            return Classification {
                platform_slug: None,
                confidence: Confidence::Ambiguous,
                reason: "multiple platforms matched with equal score".to_owned(),
            };
        }
        if best_score > 0 {
            proof {
                assert(wins(all, read, best as int));
                lemma_one_winner(all, read);
                assert(all[best as int] == self.rules@[best as int]@);
            }
            let confidence: Confidence = if best_score >= 100 {
                Confidence::Exact
            } else {
                Confidence::High
            };
            return Classification {
                platform_slug: Some(self.rules[best].slug.clone()),
                confidence,
                reason: text::join(&best_reasons, ", "),
            };
        }
        proof {
            assert(silent(all, read));
            lemma_one_outcome(all, read);
        }
        Classification {
            platform_slug: None,
            confidence: Confidence::Unknown,
            reason: "no platform match".to_owned(),
        }
    }

    /// The extensions of files that may be of use.
    pub fn allowed_extensions(&self) -> (result: TextSet)
        ensures
            result@ == allowed(self.rules(), self.archives()),
    {
        let ghost all = self.rules();
        let mut result: TextSet = TextSet::new();
        let mut at: usize = 0;
        while at < self.rules.len()
            invariant
                at <= self.rules@.len(),
                all == rule_views(self.rules@),
                result@ == rom_extension_set(all.take(at as int)),
            decreases self.rules@.len() - at,
        {
            let lowered: Vec<String> = to_lower_all(&self.rules[at].rom_extensions);
            let ghost before = result@;
            let ghost added = text::views(lowered@);
            let mut k: usize = 0;
            assert(before.union(added.take(0).to_set()) =~= before);
            while k < lowered.len()
                invariant
                    k <= lowered@.len(),
                    added == text::views(lowered@),
                    result@ == before.union(added.take(k as int).to_set()),
                decreases lowered@.len() - k,
            {
                result.insert(lowered[k].clone());
                proof {
                    let entry = lowered@[k as int]@;
                    assert(added.take(k + 1) =~= added.take(k as int).push(entry));
                    added.take(k as int).lemma_push_to_set_commute(entry);
                    assert(result@ =~= before.union(added.take(k + 1).to_set()));
                }
                k = k + 1;
            }
            proof {
                assert(added.take(added.len() as int) =~= added);
                let now = all.take(at + 1);
                assert(now.drop_last() =~= all.take(at as int));
                assert(now.last() == self.rules@[at as int]@);
            }
            at = at + 1;
        }
        assert(all.take(all.len() as int) =~= all);
        result.add_all(&self.archive_extensions);
        result
    }
}

/// Where the last entry with this slug stands.
fn find_for_slug(entries: &Vec<PlatformRomTypeRule>, slug: &str) -> (result: Option<usize>)
    ensures
        match result {
            Some(k) => k < entries@.len() && listed_for(rom_type_views(entries@), slug@) == Some(
                text::views(entries@[k as int].rom_extensions@),
            ),
            None => listed_for(rom_type_views(entries@), slug@) is None,
        },
{
    let ghost all = rom_type_views(entries@);
    let mut left: usize = entries.len();
    assert(all.take(all.len() as int) =~= all);
    while left > 0
        invariant
            left <= entries@.len(),
            all == rom_type_views(entries@),
            listed_for(all, slug@) == listed_for(all.take(left as int), slug@),
        decreases left,
    {
        proof {
            let now = all.take(left as int);
            assert(now.drop_last() =~= all.take(left - 1));
            assert(now.last() == entries@[left - 1]@);
        }
        left = left - 1;
        if text::same(entries[left].slug.as_str(), slug) {
            return Some(left);
        }
    }
    None
}

/// The extensions of a list that are not those of archives, in lower case.
fn leave_archives_out(extensions: &Vec<String>, archives: &TextSet) -> (result: Vec<String>)
    ensures
        text::views(result@) == without_archives(text::views(extensions@), archives@),
{
    let ghost all = text::views(extensions@);
    let mut result: Vec<String> = Vec::new();
    let mut at: usize = 0;
    assert(text::views(result@) =~= Seq::<Seq<char>>::empty());
    while at < extensions.len()
        invariant
            at <= extensions@.len(),
            all == text::views(extensions@),
            text::views(result@) == without_archives(all.take(at as int), archives@),
        decreases extensions@.len() - at,
    {
        proof {
            let now = all.take(at + 1);
            assert(now.drop_last() =~= all.take(at as int));
            assert(now.last() == extensions@[at as int]@);
        }
        let lowered: String = text::to_lower(extensions[at].as_str());
        if !archives.contains(lowered.as_str()) {
            let ghost earlier = result@;
            result.push(lowered);
            assert(text::views(result@) =~= text::views(earlier).push(lowered@));
        }
        at = at + 1;
    }
    assert(all.take(all.len() as int) =~= all);
    result
}

// ---------------------------------------------------------------------------------------------
// Laws

/// At most one rule wins.
pub proof fn lemma_one_winner(rules: Seq<RuleView>, signals: Signals)
    ensures
        forall|one: int, other: int|
            wins(rules, signals, one) && wins(rules, signals, other) ==> one == other,
{
}

/// Of three outcomes exactly one comes about: a rule wins, rules tie, or nothing speaks for any.
pub proof fn lemma_one_outcome(rules: Seq<RuleView>, signals: Signals)
    ensures
        ({
            let won = exists|at: int| wins(rules, signals, at);
            let tied = exists|one: int, other: int| ties(rules, signals, one, other);
            let none = silent(rules, signals);
            (won || tied || none) && !(won && tied) && !(won && none) && !(tied && none)
        }),
{
    let won = exists|at: int| wins(rules, signals, at);
    let tied = exists|one: int, other: int| ties(rules, signals, one, other);
    if tied {
        let (one, other) = choose|one: int, other: int| ties(rules, signals, one, other);
        assert forall|at: int| !wins(rules, signals, at) by {
            if wins(rules, signals, at) {
                if at != one {
                    assert(score(rules[one], signals) < score(rules[at], signals));
                } else {
                    assert(score(rules[other], signals) < score(rules[at], signals));
                }
            }
        }
        assert(!silent(rules, signals));
    }
    if won {
        let at = choose|at: int| wins(rules, signals, at);
        assert(score(rules[at], signals) > 0);
        assert(!silent(rules, signals));
    }
    if !silent(rules, signals) {
        let best = best_rule(rules, signals);
        if !wins(rules, signals, best) {
            let other = choose|other: int|
                0 <= other < rules.len() && other != best && score(rules[other], signals) >= score(
                    rules[best],
                    signals,
                );
            if other < best {
                assert(ties(rules, signals, other, best));
            } else {
                assert(ties(rules, signals, best, other));
            }
        }
    }
}

/// A rule that has as much for it as any other.
proof fn best_rule(rules: Seq<RuleView>, signals: Signals) -> (best: int)
    requires
        rules.len() > 0,
    ensures
        0 <= best < rules.len(),
        forall|k: int|
            0 <= k < rules.len() ==> score(#[trigger] rules[k], signals) <= score(
                rules[best],
                signals,
            ),
    decreases rules.len(),
{
    let last = rules.len() - 1;
    if last == 0 {
        0
    } else {
        let fewer = rules.drop_last();
        let best = best_rule(fewer, signals);
        let top = if score(rules[last], signals) >= score(rules[best], signals) {
            last
        } else {
            best
        };
        assert forall|k: int| 0 <= k < rules.len() implies score(
            #[trigger] rules[k],
            signals,
        ) <= score(rules[top], signals) by {
            if k < last {
                assert(fewer[k] == rules[k]);
            }
        }
        top
    }
}

/// A classification names a platform exactly when it is sure of one.
pub proof fn lemma_platform_when_sure(rules: Seq<RuleView>, signals: Signals)
    ensures
        ({
            let said = verdict(rules, signals);
            said.platform_slug is Some <==> (said.confidence == Confidence::Exact
                || said.confidence == Confidence::High)
        }),
{
}

/// How many kinds of signal speak for a rule.
pub open spec fn kinds_of_signal(rule: RuleView, signals: Signals) -> nat {
    reasons(rule, signals).len()
}

/// No signal makes a classification exact by itself.
pub proof fn lemma_exact_needs_two_signals(rule: RuleView, signals: Signals)
    requires
        won_by(rule, signals).confidence == Confidence::Exact,
    ensures
        kinds_of_signal(rule, signals) >= 2,
{
}

/// An archive's entries matter only where [`Classifier::archive_to_list`] asks for them.
pub proof fn lemma_listing_matters_only_when_asked(
    classifier: Classifier,
    path: PathView,
    one: Option<Seq<EntryView>>,
    other: Option<Seq<EntryView>>,
)
    requires
        archive_kind(paths::lower_extension(path.parts), classifier.archives()) is None,
    ensures
        classifier.says(path, one) == classifier.says(path, other),
{
    assert(signals(classifier.archives(), path, one) == signals(
        classifier.archives(),
        path,
        other,
    ));
}

/// The extensions of every rule are allowed, and so are those of archives.
pub proof fn lemma_recognized_is_allowed(
    rules: Seq<RuleView>,
    archives: Set<Seq<char>>,
    extension: Seq<char>,
)
    ensures
        archives.contains(extension) ==> allowed(rules, archives).contains(extension),
        forall|k: int|
            0 <= k < rules.len() && lists_extension(#[trigger] rules[k].rom_extensions, extension)
                ==> allowed(rules, archives).contains(text::lower(extension)),
{
    assert forall|k: int|
        0 <= k < rules.len() && lists_extension(
            #[trigger] rules[k].rom_extensions,
            extension,
        ) implies rom_extension_set(rules).contains(text::lower(extension)) by {
        lemma_rule_extensions(rules, k, extension);
    }
}

/// The extensions of a rule are among those of all rules.
proof fn lemma_rule_extensions(rules: Seq<RuleView>, at: int, extension: Seq<char>)
    requires
        0 <= at < rules.len(),
        lists_extension(rules[at].rom_extensions, extension),
    ensures
        rom_extension_set(rules).contains(text::lower(extension)),
    decreases rules.len(),
{
    if at == rules.len() - 1 {
        let listed = rules[at].rom_extensions;
        let k = choose|k: int|
            0 <= k < listed.len() && text::lower(#[trigger] listed[k]) == text::lower(extension);
        assert(lower_all(listed)[k] == text::lower(extension));
        assert(lower_all(listed).contains(text::lower(extension)));
    } else {
        assert(rules.drop_last()[at] == rules[at]);
        lemma_rule_extensions(rules.drop_last(), at, extension);
    }
}

/// Each extension that an archive shows is listed once.
pub proof fn lemma_members_distinct(style: PathStyle, entries: Seq<EntryView>)
    ensures
        member_extensions(style, entries).no_duplicates(),
    decreases entries.len(),
{
    if entries.len() > 0 {
        lemma_members_distinct(style, entries.drop_last());
    }
}

}
