//! File paths as lists of parts.
//!
//! A path is kept the way the file system splits it: an optional prefix (a drive or a network
//! share), an optional root, then names. Two paths are the same when their parts are, prefixes
//! being the same when they stand for the same drive or share, however they are written. What is
//! written between the parts is kept beside them, so that a path is displayed as it was written.

use vstd::prelude::*;
use crate::text;
use crate::text::Breaks;

verus! {

/// Which separators the text of a path is written with.
#[derive(Clone, Copy, PartialEq, Eq, Debug, Structural)]
pub enum PathStyle {
    /// Both slashes separate, and drives (`C:`), shares (`\\server\share`), devices
    /// (`\\.\name`) and verbatim paths (`\\?\...`) have prefixes. Only the backslash separates
    /// in a verbatim path.
    Windows,
    /// Only the forward slash separates.
    Unix,
}

/// A file or folder name that is not valid Unicode.
#[derive(Debug)]
pub struct OpaqueName {
    /// The bytes that tell it from other names.
    pub raw: Vec<u8>,
    /// How it is displayed.
    pub shown: String,
    /// What stands before its last dot, where that is text.
    pub stem: Option<String>,
    /// What stands after its last dot, where that is text.
    pub extension: Option<String>,
}

/// One part of a path.
#[derive(Debug)]
pub enum PathPart {
    /// A drive, a share or a device, as it is written.
    Prefix(String),
    /// The separator that makes a path absolute.
    Root,
    /// `.` at the beginning of a relative path, or anywhere in a verbatim one.
    Current,
    /// `..`
    Parent,
    /// A file or folder name.
    Name(String),
    /// A file or folder name that is not text.
    Opaque(OpaqueName),
}

/// A path.
#[derive(Debug)]
pub struct RomPath {
    pub style: PathStyle,
    pub parts: Vec<PathPart>,
    /// What is written before each part: separators, and dots that stand for nothing.
    pub gaps: Vec<String>,
    /// What is written after the last part.
    pub tail: String,
}

/// What an [`OpaqueName`] holds.
#[verifier::ext_equal]
pub struct OpaqueView {
    pub raw: Seq<u8>,
    pub shown: Seq<char>,
    pub stem: Option<Seq<char>>,
    pub extension: Option<Seq<char>>,
}

/// What a [`PathPart`] holds.
#[verifier::ext_equal]
pub enum PartView {
    Prefix(Seq<char>),
    Root,
    Current,
    Parent,
    Name(Seq<char>),
    Opaque(OpaqueView),
}

/// What a [`RomPath`] holds.
#[verifier::ext_equal]
pub struct PathView {
    pub style: PathStyle,
    pub parts: Seq<PartView>,
    pub gaps: Seq<Seq<char>>,
    pub tail: Seq<char>,
}

/// The characters of a text that may be missing.
pub open spec fn option_text(text: Option<String>) -> Option<Seq<char>> {
    match text {
        Some(text) => Some(text@),
        None => None,
    }
}

impl View for OpaqueName {
    type V = OpaqueView;

    open spec fn view(&self) -> OpaqueView {
        OpaqueView {
            raw: self.raw@,
            shown: self.shown@,
            stem: option_text(self.stem),
            extension: option_text(self.extension),
        }
    }
}

impl View for PathPart {
    type V = PartView;

    open spec fn view(&self) -> PartView {
        match self {
            PathPart::Prefix(text) => PartView::Prefix(text@),
            PathPart::Root => PartView::Root,
            PathPart::Current => PartView::Current,
            PathPart::Parent => PartView::Parent,
            PathPart::Name(text) => PartView::Name(text@),
            PathPart::Opaque(name) => PartView::Opaque(name@),
        }
    }
}

/// What each part of a list holds.
pub open spec fn part_views(parts: Seq<PathPart>) -> Seq<PartView> {
    parts.map_values(|part: PathPart| part@)
}

impl View for RomPath {
    type V = PathView;

    open spec fn view(&self) -> PathView {
        PathView {
            style: self.style,
            parts: part_views(self.parts@),
            gaps: text::views(self.gaps@),
            tail: self.tail@,
        }
    }
}

/// The breaks between the names of a path text.
pub open spec fn style_breaks(style: PathStyle) -> Breaks {
    match style {
        PathStyle::Windows => Breaks::BothSlashes,
        PathStyle::Unix => Breaks::Slashes,
    }
}

/// The separator that a path is displayed with.
pub open spec fn separator(style: PathStyle) -> char {
    match style {
        PathStyle::Windows => '\\',
        PathStyle::Unix => '/',
    }
}

/// Where the next break stands in a text, or the text's length.
pub open spec fn next_break(text: Seq<char>, from: int, breaks: Breaks) -> int
    decreases text.len() - from,
{
    if from < 0 || from >= text.len() {
        text.len() as int
    } else if text::breaks_at(breaks, text[from]) {
        from
    } else {
        next_break(text, from + 1, breaks)
    }
}

/// What the prefix of a Windows path stands for.
#[verifier::ext_equal]
pub enum PrefixView {
    /// `C:`, with the letter in upper case.
    Drive(char),
    /// `\\server\share`
    Share { server: Seq<char>, share: Seq<char> },
    /// `\\.\name`
    Device(Seq<char>),
    /// `\\?\name`
    Verbatim(Seq<char>),
    /// `\\?\C:`, with the letter in upper case.
    VerbatimDrive(char),
    /// `\\?\UNC\server\share`
    VerbatimShare { server: Seq<char>, share: Seq<char> },
}

/// An ASCII letter.
pub open spec fn is_letter(ch: char) -> bool {
    'a' <= ch <= 'z' || 'A' <= ch <= 'Z'
}

/// The ASCII upper case of one character.
pub open spec fn upper_char(ch: char) -> char {
    if 'a' <= ch <= 'z' {
        ((ch as u32) - 32) as char
    } else {
        ch
    }
}

/// What follows the break at `at`, if there is one.
pub open spec fn after_break(text: Seq<char>, at: int) -> int {
    if at < text.len() {
        at + 1
    } else {
        at
    }
}

/// The prefix of a text that begins with `\\?\`, and how many characters it takes.
pub open spec fn verbatim_prefix(text: Seq<char>) -> (PrefixView, int) {
    let breaks = Breaks::Backslashes;
    if text.len() >= 8 && text[4] == 'U' && text[5] == 'N' && text[6] == 'C' && text::breaks_at(
        Breaks::BothSlashes,
        text[7],
    ) {
        let server_end = next_break(text, 8, breaks);
        let share_from = after_break(text, server_end);
        let share_end = next_break(text, share_from, breaks);
        (
            PrefixView::VerbatimShare {
                server: text.subrange(8, server_end),
                share: text.subrange(share_from, share_end),
            },
            if share_from < share_end {
                share_end
            } else {
                server_end
            },
        )
    } else if text.len() >= 6 && is_letter(text[4]) && text[5] == ':' && (text.len() == 6
        || text::breaks_at(Breaks::BothSlashes, text[6])) {
        (PrefixView::VerbatimDrive(upper_char(text[4])), 6)
    } else {
        let end = next_break(text, 4, breaks);
        (PrefixView::Verbatim(text.subrange(4, end)), end)
    }
}

/// What the prefix of a Windows path text stands for, and how many characters it takes, where
/// there is one.
pub open spec fn prefix_of(text: Seq<char>) -> Option<(PrefixView, int)> {
    let breaks = Breaks::BothSlashes;
    if text.len() >= 2 && text::breaks_at(breaks, text[0]) && text::breaks_at(breaks, text[1]) {
        if text.len() >= 4 && text[0] == '\\' && text[1] == '\\' && text[2] == '?' && text[3]
            == '\\' {
            Some(verbatim_prefix(text))
        } else if text.len() >= 4 && text[2] == '.' && text::breaks_at(breaks, text[3]) {
            let end = next_break(text, 4, breaks);
            Some((PrefixView::Device(text.subrange(4, end)), end))
        } else {
            let server_end = next_break(text, 2, breaks);
            let share_from = after_break(text, server_end);
            let share_end = next_break(text, share_from, breaks);
            if 2 < server_end && share_from < share_end {
                Some(
                    (
                        PrefixView::Share {
                            server: text.subrange(2, server_end),
                            share: text.subrange(share_from, share_end),
                        },
                        share_end,
                    ),
                )
            } else {
                None
            }
        }
    } else if text.len() >= 2 && is_letter(text[0]) && text[1] == ':' {
        Some((PrefixView::Drive(upper_char(text[0])), 2))
    } else {
        None
    }
}

/// A prefix after which only backslashes separate, and dots are kept.
pub open spec fn is_verbatim(kind: PrefixView) -> bool {
    kind is Verbatim || kind is VerbatimDrive || kind is VerbatimShare
}

/// A prefix that is rooted whether or not a separator follows it.
pub open spec fn is_rooted(kind: PrefixView) -> bool {
    kind is Share || kind is Device
}

/// Whether a name of a path text stands for a part, `earlier` names having gone before: a dot does
/// only where the path is verbatim or begins with it.
pub open spec fn is_part(name: Seq<char>, earlier: nat, leading: bool, verbatim: bool) -> bool {
    name.len() > 0 && (name != seq!['.'] || verbatim || (leading && earlier == 0))
}

/// The part that a name of a path text stands for.
pub open spec fn named_part(name: Seq<char>) -> PartView {
    if name == seq!['.'] {
        PartView::Current
    } else if name == seq!['.', '.'] {
        PartView::Parent
    } else {
        PartView::Name(name)
    }
}

/// The parts that the names of a path text stand for.
pub open spec fn name_parts(names: Seq<Seq<char>>, leading: bool, verbatim: bool) -> Seq<PartView>
    decreases names.len(),
{
    if names.len() == 0 {
        Seq::empty()
    } else {
        let before = name_parts(names.drop_last(), leading, verbatim);
        if is_part(names.last(), (names.len() - 1) as nat, leading, verbatim) {
            before.push(named_part(names.last()))
        } else {
            before
        }
    }
}

/// Whether the last name of a path text stands for a part.
pub open spec fn ends_in_part(
    text: Seq<char>,
    breaks: Breaks,
    leading: bool,
    verbatim: bool,
) -> bool {
    is_part(
        text::last_piece(text, breaks),
        text::closed_pieces(text, breaks).len(),
        leading,
        verbatim,
    )
}

/// What is written between the last part that a break closes and the name that follows.
pub open spec fn open_gap(
    text: Seq<char>,
    breaks: Breaks,
    leading: bool,
    verbatim: bool,
) -> Seq<char>
    decreases text.len(),
{
    if text.len() == 0 {
        Seq::empty()
    } else {
        let before = text.drop_last();
        if !text::breaks_at(breaks, text.last()) {
            open_gap(before, breaks, leading, verbatim)
        } else if ends_in_part(before, breaks, leading, verbatim) {
            seq![text.last()]
        } else {
            (open_gap(before, breaks, leading, verbatim) + text::last_piece(before, breaks)).push(
                text.last(),
            )
        }
    }
}

/// What is written before each part that a break closes.
pub open spec fn closed_gaps(
    text: Seq<char>,
    breaks: Breaks,
    leading: bool,
    verbatim: bool,
) -> Seq<Seq<char>>
    decreases text.len(),
{
    if text.len() == 0 {
        Seq::empty()
    } else {
        let before = text.drop_last();
        if text::breaks_at(breaks, text.last()) && ends_in_part(before, breaks, leading, verbatim) {
            closed_gaps(before, breaks, leading, verbatim).push(
                open_gap(before, breaks, leading, verbatim),
            )
        } else {
            closed_gaps(before, breaks, leading, verbatim)
        }
    }
}

/// What is written before each part that the names of a path text stand for.
pub open spec fn name_gaps(
    text: Seq<char>,
    breaks: Breaks,
    leading: bool,
    verbatim: bool,
) -> Seq<Seq<char>> {
    if ends_in_part(text, breaks, leading, verbatim) {
        closed_gaps(text, breaks, leading, verbatim).push(
            open_gap(text, breaks, leading, verbatim),
        )
    } else {
        closed_gaps(text, breaks, leading, verbatim)
    }
}

/// What is written after the last part.
pub open spec fn name_tail(
    text: Seq<char>,
    breaks: Breaks,
    leading: bool,
    verbatim: bool,
) -> Seq<char> {
    if ends_in_part(text, breaks, leading, verbatim) {
        Seq::empty()
    } else {
        open_gap(text, breaks, leading, verbatim) + text::last_piece(text, breaks)
    }
}

/// The prefix and root parts of a path text whose prefix takes `end` characters.
pub open spec fn head_parts(text: Seq<char>, end: int, rooted: bool) -> Seq<PartView> {
    let prefix = if end > 0 {
        seq![PartView::Prefix(text.take(end))]
    } else {
        Seq::empty()
    };
    if rooted {
        prefix.push(PartView::Root)
    } else {
        prefix
    }
}

/// What is written before the prefix and root parts of a path text.
pub open spec fn head_gaps(end: int, rooted: bool, separator: Seq<char>) -> Seq<Seq<char>> {
    let prefix = if end > 0 {
        seq![Seq::<char>::empty()]
    } else {
        Seq::empty()
    };
    if rooted {
        prefix.push(separator)
    } else {
        prefix
    }
}

/// A path text whose prefix, if it has one, takes `end` characters.
pub open spec fn read_after(
    style: PathStyle,
    text: Seq<char>,
    end: int,
    breaks: Breaks,
    always_rooted: bool,
    verbatim: bool,
) -> PathView {
    let rest = text.skip(end);
    let separated = rest.len() > 0 && (text::breaks_at(breaks, rest[0]) || (verbatim && rest[0]
        == '/'));
    let rooted = separated || always_rooted;
    let leading = end == 0 && !rooted;
    let separator = if separated {
        rest.take(1)
    } else {
        Seq::empty()
    };
    let body = rest.skip(separator.len() as int);
    PathView {
        style,
        parts: head_parts(text, end, rooted) + name_parts(
            text::pieces(body, breaks),
            leading,
            verbatim,
        ),
        gaps: head_gaps(end, rooted, separator) + name_gaps(body, breaks, leading, verbatim),
        tail: name_tail(body, breaks, leading, verbatim),
    }
}

/// A path text.
pub open spec fn read(style: PathStyle, text: Seq<char>) -> PathView {
    match style {
        PathStyle::Unix => read_after(style, text, 0, Breaks::Slashes, false, false),
        PathStyle::Windows => match prefix_of(text) {
            Some((kind, end)) => read_after(
                style,
                text,
                end,
                if is_verbatim(kind) {
                    Breaks::Backslashes
                } else {
                    Breaks::BothSlashes
                },
                is_rooted(kind),
                is_verbatim(kind),
            ),
            None => read_after(style, text, 0, Breaks::BothSlashes, false, false),
        },
    }
}

/// The parts of a path text.
pub open spec fn parsed(style: PathStyle, text: Seq<char>) -> Seq<PartView> {
    read(style, text).parts
}

/// What tells a part from others.
#[verifier::ext_equal]
pub enum Identity {
    /// A prefix, by what it stands for.
    Prefix(PrefixView),
    /// Another part, by what it is.
    Part(PartView),
}

/// What tells a part from others.
pub open spec fn identity(part: PartView) -> Identity {
    match part {
        PartView::Prefix(text) => match prefix_of(text) {
            Some((kind, _)) => Identity::Prefix(kind),
            None => Identity::Part(part),
        },
        _ => Identity::Part(part),
    }
}

/// What tells each part of a list from others.
pub open spec fn identities(parts: Seq<PartView>) -> Seq<Identity> {
    parts.map_values(|part: PartView| identity(part))
}

/// Two paths are the same.
pub open spec fn same_place(one: PathView, other: PathView) -> bool {
    one.style == other.style && identities(one.parts) == identities(other.parts)
}

/// A path with a verbatim prefix.
pub open spec fn begins_verbatim(parts: Seq<PartView>) -> bool {
    parts.len() > 0 && match parts[0] {
        PartView::Prefix(text) => match prefix_of(text) {
            Some((kind, _)) => is_verbatim(kind),
            None => false,
        },
        _ => false,
    }
}

/// A file or folder name.
pub open spec fn is_name(part: PartView) -> bool {
    part is Name || part is Opaque
}

/// The text of a part, where it is text.
pub open spec fn part_text(style: PathStyle, part: PartView) -> Option<Seq<char>> {
    match part {
        PartView::Prefix(text) => Some(text),
        PartView::Root => Some(seq![separator(style)]),
        PartView::Current => Some(seq!['.']),
        PartView::Parent => Some(seq!['.', '.']),
        PartView::Name(text) => Some(text),
        PartView::Opaque(_) => None,
    }
}

/// The texts of the parts that are text, in order.
pub open spec fn texts(style: PathStyle, parts: Seq<PartView>) -> Seq<Seq<char>>
    decreases parts.len(),
{
    if parts.len() == 0 {
        Seq::empty()
    } else {
        let before = texts(style, parts.drop_last());
        match part_text(style, parts.last()) {
            Some(text) => before.push(text),
            None => before,
        }
    }
}

/// How a part is displayed.
pub open spec fn part_shown(style: PathStyle, part: PartView) -> Seq<char> {
    match part {
        PartView::Opaque(name) => name.shown,
        _ => part_text(style, part).unwrap(),
    }
}

/// What is written for a part itself. The separator that a root is written with is the gap before
/// it.
pub open spec fn part_written(style: PathStyle, part: PartView) -> Seq<char> {
    if part is Root {
        Seq::empty()
    } else {
        part_shown(style, part)
    }
}

/// What is written before the part with this number.
pub open spec fn gap_at(gaps: Seq<Seq<char>>, at: int) -> Seq<char> {
    if 0 <= at < gaps.len() {
        gaps[at]
    } else {
        Seq::empty()
    }
}

/// What is written before each part.
pub open spec fn gaps_of(path: PathView) -> Seq<Seq<char>> {
    Seq::new(path.parts.len(), |at: int| gap_at(path.gaps, at))
}

/// Parts with what is written before each.
pub open spec fn written(
    style: PathStyle,
    parts: Seq<PartView>,
    gaps: Seq<Seq<char>>,
) -> Seq<char>
    decreases parts.len(),
{
    if parts.len() == 0 {
        Seq::empty()
    } else {
        written(style, parts.drop_last(), gaps) + gap_at(gaps, parts.len() - 1) + part_written(
            style,
            parts.last(),
        )
    }
}

/// How a path is displayed: as it is written.
pub open spec fn shown(path: PathView) -> Seq<char> {
    written(path.style, path.parts, path.gaps) + path.tail
}

/// What is written before the part with this number where there is one separator between
/// neighbours, and none after a prefix or root.
pub open spec fn plain_gap(style: PathStyle, parts: Seq<PartView>, at: int) -> Seq<char> {
    if parts[at] is Root {
        seq![separator(style)]
    } else if at == 0 || parts[at - 1] is Root || parts[at - 1] is Prefix {
        Seq::empty()
    } else {
        seq![separator(style)]
    }
}

/// Parts with one separator between neighbours.
pub open spec fn plain_path(style: PathStyle, parts: Seq<PartView>) -> PathView {
    PathView {
        style,
        parts,
        gaps: Seq::new(parts.len(), |at: int| plain_gap(style, parts, at)),
        tail: Seq::empty(),
    }
}

/// The last part of a path, where it is a name.
pub open spec fn file_name(parts: Seq<PartView>) -> Option<PartView> {
    if parts.len() > 0 && is_name(parts.last()) {
        Some(parts.last())
    } else {
        None
    }
}

/// The file name of a path, where it has one that is text.
pub open spec fn file_name_text(parts: Seq<PartView>) -> Option<Seq<char>> {
    match file_name(parts) {
        Some(PartView::Name(text)) => Some(text),
        _ => None,
    }
}

/// Where the last dot of a text stands, or -1.
pub open spec fn last_dot(text: Seq<char>) -> int
    decreases text.len(),
{
    if text.len() == 0 {
        -1
    } else if text.last() == '.' {
        text.len() - 1
    } else {
        last_dot(text.drop_last())
    }
}

/// What stands after the last dot of a name that does not begin with it.
pub open spec fn name_extension(name: Seq<char>) -> Option<Seq<char>> {
    if last_dot(name) > 0 {
        Some(name.skip(last_dot(name) + 1))
    } else {
        None
    }
}

/// What stands before the last dot of a name, or the whole name where it has no extension.
pub open spec fn name_stem(name: Seq<char>) -> Seq<char> {
    if last_dot(name) > 0 {
        name.take(last_dot(name))
    } else {
        name
    }
}

/// The extension of a path's file name, where it has one that is text.
pub open spec fn extension(parts: Seq<PartView>) -> Option<Seq<char>> {
    match file_name(parts) {
        Some(PartView::Name(text)) => name_extension(text),
        Some(PartView::Opaque(name)) => name.extension,
        _ => None,
    }
}

/// The file name of a path without its extension, where that is text.
pub open spec fn file_stem(parts: Seq<PartView>) -> Option<Seq<char>> {
    match file_name(parts) {
        Some(PartView::Name(text)) => Some(name_stem(text)),
        Some(PartView::Opaque(name)) => name.stem,
        _ => None,
    }
}

/// Whether a path stands in a folder: one that is empty or ends in a prefix or root does not.
pub open spec fn has_parent(parts: Seq<PartView>) -> bool {
    parts.len() > 0 && !(parts.last() is Prefix) && !(parts.last() is Root)
}

/// The names of a path and of the folders above it, from the inside out and in lower case, as far
/// as they are text, over the first `levels` levels.
pub open spec fn level_names(parts: Seq<PartView>, levels: nat) -> Seq<Seq<char>>
    decreases levels,
{
    if levels == 0 {
        Seq::empty()
    } else {
        let own = match file_name_text(parts) {
            Some(text) => seq![text::lower(text)],
            None => Seq::empty(),
        };
        if has_parent(parts) {
            own + level_names(parts.drop_last(), (levels - 1) as nat)
        } else {
            own
        }
    }
}

/// Whether a path lies under (or is) another.
pub open spec fn lies_under(parts: Seq<PartView>, base: Seq<PartView>) -> bool {
    base.len() <= parts.len() && identities(parts.take(base.len() as int)) == identities(base)
}

/// A path relative to a folder that it lies under.
pub open spec fn relative_to(parts: Seq<PartView>, base: Seq<PartView>) -> Option<Seq<PartView>> {
    if lies_under(parts, base) {
        Some(parts.skip(base.len() as int))
    } else {
        None
    }
}

/// What stays of what is written after the last part of a path: the dot that follows a drive.
pub open spec fn kept_tail(path: PathView) -> Seq<char> {
    if path.parts.len() > 0 && path.parts.last() is Prefix && path.tail.len() > 0 {
        path.tail.take(1)
    } else {
        Seq::empty()
    }
}

/// A path relative to a folder that it lies under, without what is written at its two ends. What
/// follows a prefix stays.
pub open spec fn stripped(path: PathView, base: Seq<PartView>) -> Option<PathView> {
    match relative_to(path.parts, base) {
        Some(parts) => {
            let gaps = gaps_of(path).skip(base.len() as int);
            Some(
                PathView {
                    style: path.style,
                    parts,
                    gaps: if parts.len() > 0 && base.len() > 0 && !(path.parts[base.len()
                        - 1] is Prefix) {
                        gaps.update(0, Seq::empty())
                    } else {
                        gaps
                    },
                    tail: kept_tail(path),
                },
            )
        },
        None => None,
    }
}

/// A verbatim path with one more part: dots are taken at their word, since nothing else would.
pub open spec fn stepped(parts: Seq<PartView>, part: PartView) -> Seq<PartView> {
    match part {
        PartView::Root => if parts.len() > 1 {
            parts.take(1).push(PartView::Root)
        } else {
            parts.push(PartView::Root)
        },
        PartView::Current => parts,
        PartView::Parent => if parts.len() > 0 && is_name(parts.last()) {
            parts.drop_last()
        } else {
            parts
        },
        _ => parts.push(part),
    }
}

/// A verbatim path with more parts, one after the other.
pub open spec fn walked(base: Seq<PartView>, other: Seq<PartView>) -> Seq<PartView>
    decreases other.len(),
{
    if other.len() == 0 {
        base
    } else {
        stepped(walked(base, other.drop_last()), other.last())
    }
}

/// A path taken relative to a verbatim one. A separator comes between its prefix and a name.
pub open spec fn walked_from(base: Seq<PartView>, other: Seq<PartView>) -> Seq<PartView> {
    let parts = walked(base, other);
    if base.len() == 1 && parts.len() >= 2 && !(parts[1] is Root) {
        parts.insert(1, PartView::Root)
    } else {
        parts
    }
}

/// A path taken relative to another: one with a prefix stands for itself, a rooted one keeps the
/// base's prefix, and others are appended.
pub open spec fn resolved(base: Seq<PartView>, other: Seq<PartView>) -> Seq<PartView> {
    if other.len() == 0 {
        if begins_verbatim(base) && base.len() == 1 {
            base.push(PartView::Root)
        } else {
            base
        }
    } else if other[0] is Prefix {
        other
    } else if begins_verbatim(base) {
        walked_from(base, other)
    } else if other[0] is Root {
        if base.len() > 0 && base[0] is Prefix {
            seq![base[0]] + other
        } else {
            other
        }
    } else if other[0] is Current && base.len() > 0 {
        base + other.skip(1)
    } else {
        base + other
    }
}

/// A path that is a drive and nothing else.
pub open spec fn is_bare_drive(path: PathView) -> bool {
    path.parts.len() == 1 && match path.parts[0] {
        PartView::Prefix(text) => shown(path) == text && match prefix_of(text) {
            Some((kind, _)) => kind is Drive,
            None => false,
        },
        _ => false,
    }
}

/// A separator is added before more is appended to a path, unless the path ends in one or is empty
/// or a drive.
pub open spec fn needs_separator(path: PathView) -> bool {
    shown(path).len() > 0 && !text::breaks_at(style_breaks(path.style), shown(path).last())
        && !is_bare_drive(path)
}

/// What is written after the last part of a path before more is appended.
pub open spec fn bridge(path: PathView) -> Seq<char> {
    if needs_separator(path) {
        path.tail.push(separator(path.style))
    } else {
        path.tail
    }
}

/// Whether joining writes the separators anew: it does where the base is verbatim.
pub open spec fn joins_plainly(base: PathView, other: PathView) -> bool {
    begins_verbatim(base.parts) && if other.parts.len() == 0 {
        base.parts.len() == 1
    } else {
        !(other.parts[0] is Prefix)
    }
}

/// What is written before each part of a path taken relative to another.
pub open spec fn resolved_gaps(base: PathView, other: PathView) -> Seq<Seq<char>> {
    let own = gaps_of(base);
    let more = gaps_of(other);
    if joins_plainly(base, other) {
        plain_path(base.style, resolved(base.parts, other.parts)).gaps
    } else if other.parts.len() == 0 {
        own
    } else if other.parts[0] is Prefix {
        more
    } else if other.parts[0] is Root {
        if base.parts.len() > 0 && base.parts[0] is Prefix {
            own.take(1) + more
        } else {
            more
        }
    } else if other.parts[0] is Current && base.parts.len() > 0 {
        if other.parts.len() == 1 {
            own
        } else {
            own.push((bridge(base) + more[0]).push('.') + more[1]) + more.skip(2)
        }
    } else {
        own.push(bridge(base) + more[0]) + more.skip(1)
    }
}

/// What is written after the last part of a path taken relative to another.
pub open spec fn resolved_tail(base: PathView, other: PathView) -> Seq<char> {
    if joins_plainly(base, other) {
        Seq::empty()
    } else if other.parts.len() == 0 {
        bridge(base)
    } else if other.parts.len() == 1 && other.parts[0] is Current && base.parts.len() > 0 {
        (bridge(base) + gap_at(other.gaps, 0)).push('.') + other.tail
    } else {
        other.tail
    }
}

/// A path taken relative to another.
pub open spec fn resolved_path(base: PathView, other: PathView) -> PathView {
    PathView {
        style: base.style,
        parts: resolved(base.parts, other.parts),
        gaps: resolved_gaps(base, other),
        tail: resolved_tail(base, other),
    }
}

/// A path with one more part.
pub open spec fn extended(base: PathView, part: PartView) -> PathView {
    resolved_path(base, plain_path(base.style, seq![part]))
}

/// How the last part of a path is displayed, unless it is a prefix.
pub open spec fn last_shown(path: PathView) -> Seq<char> {
    if path.parts.len() == 0 || path.parts.last() is Prefix {
        Seq::empty()
    } else {
        part_shown(path.style, path.parts.last())
    }
}

/// What is taken relative to a folder lies under it, unless it names a place of its own or climbs.
pub proof fn lemma_resolved_lies_under(base: Seq<PartView>, other: Seq<PartView>)
    requires
        other.len() > 0 ==> !(other[0] is Prefix || other[0] is Root),
        begins_verbatim(base) ==> forall|k: int|
            0 <= k < other.len() ==> !((#[trigger] other[k]) is Parent || other[k] is Root),
    ensures
        base.len() <= resolved(base, other).len(),
        resolved(base, other).take(base.len() as int) == base,
        lies_under(resolved(base, other), base),
{
    if begins_verbatim(base) {
        lemma_walked_extends(base, other);
    }
    assert(resolved(base, other).take(base.len() as int) =~= base);
}

proof fn lemma_walked_extends(base: Seq<PartView>, other: Seq<PartView>)
    requires
        forall|k: int|
            0 <= k < other.len() ==> !((#[trigger] other[k]) is Parent || other[k] is Root),
    ensures
        base.len() <= walked(base, other).len(),
        walked(base, other).take(base.len() as int) == base,
    decreases other.len(),
{
    if other.len() > 0 {
        assert forall|k: int| 0 <= k < other.drop_last().len() implies !((
        #[trigger] other.drop_last()[k]) is Parent || other.drop_last()[k] is Root) by {
            assert(other.drop_last()[k] == other[k]);
        }
        lemma_walked_extends(base, other.drop_last());
        assert(walked(base, other).take(base.len() as int) =~= base);
    } else {
        assert(base.take(base.len() as int) =~= base);
    }
}

/// A path with a name appended lies under what it was, and has that name.
pub proof fn lemma_named_lies_under(base: Seq<PartView>, name: PartView)
    requires
        is_name(name),
    ensures
        lies_under(resolved(base, seq![name]), base),
        resolved(base, seq![name]).take(base.len() as int) == base,
        base.len() < resolved(base, seq![name]).len(),
        resolved(base, seq![name]).last() == name,
{
    lemma_resolved_lies_under(base, seq![name]);
    reveal_with_fuel(walked, 2);
    assert(seq![name].drop_last() =~= Seq::<PartView>::empty());
    assert(walked(base, seq![name]) =~= base.push(name));
}

/// A path lies under what one that it lies under lies under.
pub proof fn lemma_lies_under_transitive(
    low: Seq<PartView>,
    middle: Seq<PartView>,
    high: Seq<PartView>,
)
    requires
        lies_under(low, middle),
        lies_under(middle, high),
    ensures
        lies_under(low, high),
{
    assert forall|k: int| 0 <= k < high.len() implies identity(#[trigger] low[k]) == identity(
        high[k],
    ) by {
        assert(identities(low.take(middle.len() as int))[k] == identities(middle)[k]);
        assert(identities(middle.take(high.len() as int))[k] == identities(high)[k]);
    }
    assert(identities(low.take(high.len() as int)) =~= identities(high));
}

/// What is written for parts rests on as many gaps as there are parts.
proof fn lemma_written_by_its_gaps(
    style: PathStyle,
    parts: Seq<PartView>,
    gaps: Seq<Seq<char>>,
    others: Seq<Seq<char>>,
)
    requires
        forall|k: int|
            0 <= k < parts.len() ==> #[trigger] gap_at(gaps, k) == #[trigger] gap_at(others, k),
    ensures
        written(style, parts, gaps) == written(style, parts, others),
    decreases parts.len(),
{
    if parts.len() > 0 {
        lemma_written_by_its_gaps(style, parts.drop_last(), gaps, others);
    }
}

/// Parts that follow others are written after them.
proof fn lemma_written_in_turn(
    style: PathStyle,
    one: Seq<PartView>,
    gaps: Seq<Seq<char>>,
    other: Seq<PartView>,
    more: Seq<Seq<char>>,
)
    requires
        gaps.len() == one.len(),
        more.len() == other.len(),
    ensures
        written(style, one + other, gaps + more) == written(style, one, gaps) + written(
            style,
            other,
            more,
        ),
    decreases other.len(),
{
    if other.len() == 0 {
        assert(one + other =~= one);
        assert(gaps + more =~= gaps);
        assert(written(style, one, gaps) + written(style, other, more) =~= written(
            style,
            one,
            gaps,
        ));
    } else {
        let last = other.len() - 1;
        lemma_written_in_turn(style, one, gaps, other.drop_last(), more.drop_last());
        assert((one + other).drop_last() =~= one + other.drop_last());
        lemma_written_by_its_gaps(
            style,
            one + other.drop_last(),
            gaps + more,
            gaps + more.drop_last(),
        );
        lemma_written_by_its_gaps(style, other.drop_last(), more, more.drop_last());
        assert(gap_at(gaps + more, one.len() + last) == gap_at(more, last));
        assert(written(style, one + other, gaps + more) =~= written(style, one, gaps) + written(
            style,
            other,
            more,
        ));
    }
}

/// The names of a path text and what is written around them make up the text.
proof fn lemma_names_as_written(
    style: PathStyle,
    body: Seq<char>,
    breaks: Breaks,
    leading: bool,
    verbatim: bool,
)
    ensures
        name_parts(text::closed_pieces(body, breaks), leading, verbatim).len() == closed_gaps(
            body,
            breaks,
            leading,
            verbatim,
        ).len(),
        written(
            style,
            name_parts(text::closed_pieces(body, breaks), leading, verbatim),
            closed_gaps(body, breaks, leading, verbatim),
        ) + open_gap(body, breaks, leading, verbatim) + text::last_piece(body, breaks) == body,
    decreases body.len(),
{
    let parts = name_parts(text::closed_pieces(body, breaks), leading, verbatim);
    let gaps = closed_gaps(body, breaks, leading, verbatim);
    let start = written(style, parts, gaps);
    if body.len() == 0 {
        assert(start + open_gap(body, breaks, leading, verbatim) + text::last_piece(body, breaks)
            =~= body);
    } else {
        let before = body.drop_last();
        let last = body.last();
        let name = text::last_piece(before, breaks);
        let gap = open_gap(before, breaks, leading, verbatim);
        let closed = text::closed_pieces(before, breaks);
        let earlier = name_parts(closed, leading, verbatim);
        let passed = closed_gaps(before, breaks, leading, verbatim);
        let known = written(style, earlier, passed);
        lemma_names_as_written(style, before, breaks, leading, verbatim);
        assert(known + gap + name == before);
        assert(body =~= before.push(last));
        assert(closed.push(name).drop_last() =~= closed);
        if !text::breaks_at(breaks, last) {
            assert(known + gap + name.push(last) =~= (known + gap + name).push(last));
        } else if ends_in_part(before, breaks, leading, verbatim) {
            lemma_ends_with_part(style, earlier, passed, name, gap);
            assert(parts == earlier.push(named_part(name)));
            assert(start == known + gap + name);
            assert(start + seq![last] + Seq::<char>::empty() =~= start.push(last));
        } else {
            assert(parts == earlier);
            assert(known + (gap + name).push(last) + Seq::<char>::empty() =~= (known + gap
                + name).push(last));
        }
    }
}

/// A name is written as it stands, after its gap.
proof fn lemma_ends_with_part(
    style: PathStyle,
    parts: Seq<PartView>,
    gaps: Seq<Seq<char>>,
    name: Seq<char>,
    gap: Seq<char>,
)
    requires
        parts.len() == gaps.len(),
    ensures
        written(style, parts.push(named_part(name)), gaps.push(gap)) == written(style, parts, gaps)
            + gap + name,
{
    let now = parts.push(named_part(name));
    assert(now.drop_last() =~= parts);
    lemma_written_by_its_gaps(style, parts, gaps.push(gap), gaps);
    assert(part_written(style, named_part(name)) =~= name);
}

proof fn lemma_next_break_bounds(text: Seq<char>, from: int, breaks: Breaks)
    requires
        0 <= from <= text.len(),
    ensures
        from <= next_break(text, from, breaks) <= text.len(),
    decreases text.len() - from,
{
    if from < text.len() && !text::breaks_at(breaks, text[from]) {
        lemma_next_break_bounds(text, from + 1, breaks);
    }
}

/// A prefix takes at least one character of a text, and no more than there are.
proof fn lemma_prefix_ends_inside(text: Seq<char>)
    ensures
        prefix_of(text) matches Some((_, end)) ==> 0 < end <= text.len(),
{
    if text.len() >= 8 {
        let end = next_break(text, 8, Breaks::Backslashes);
        lemma_next_break_bounds(text, 8, Breaks::Backslashes);
        lemma_next_break_bounds(text, after_break(text, end), Breaks::Backslashes);
    }
    if text.len() >= 4 {
        lemma_next_break_bounds(text, 4, Breaks::Backslashes);
        lemma_next_break_bounds(text, 4, Breaks::BothSlashes);
    }
    if text.len() >= 2 {
        let end = next_break(text, 2, Breaks::BothSlashes);
        lemma_next_break_bounds(text, 2, Breaks::BothSlashes);
        lemma_next_break_bounds(text, after_break(text, end), Breaks::BothSlashes);
    }
}

/// The prefix and root of a path text are written as they stand.
proof fn lemma_head_as_written(
    style: PathStyle,
    text: Seq<char>,
    end: int,
    rooted: bool,
    separator: Seq<char>,
)
    requires
        0 <= end <= text.len(),
        !rooted ==> separator.len() == 0,
    ensures
        written(style, head_parts(text, end, rooted), head_gaps(end, rooted, separator))
            == text.take(end) + separator,
        head_parts(text, end, rooted).len() == head_gaps(end, rooted, separator).len(),
{
    reveal_with_fuel(written, 3);
    let head = head_parts(text, end, rooted);
    let front = head_gaps(end, rooted, separator);
    if end > 0 {
        let prefix = seq![PartView::Prefix(text.take(end))];
        assert(prefix.drop_last() =~= Seq::<PartView>::empty());
        assert(rooted ==> head.drop_last() =~= prefix);
    } else {
        assert(rooted ==> head.drop_last() =~= Seq::<PartView>::empty());
    }
    assert(written(style, head, front) =~= text.take(end) + separator);
}

/// The names of a path text, what is written around them and what follows make up the text.
proof fn lemma_body_as_written(
    style: PathStyle,
    body: Seq<char>,
    breaks: Breaks,
    leading: bool,
    verbatim: bool,
)
    ensures
        written(
            style,
            name_parts(text::pieces(body, breaks), leading, verbatim),
            name_gaps(body, breaks, leading, verbatim),
        ) + name_tail(body, breaks, leading, verbatim) == body,
        name_parts(text::pieces(body, breaks), leading, verbatim).len() == name_gaps(
            body,
            breaks,
            leading,
            verbatim,
        ).len(),
{
    lemma_names_as_written(style, body, breaks, leading, verbatim);
    let closed = text::closed_pieces(body, breaks);
    let name = text::last_piece(body, breaks);
    let earlier = name_parts(closed, leading, verbatim);
    let gaps = closed_gaps(body, breaks, leading, verbatim);
    let gap = open_gap(body, breaks, leading, verbatim);
    assert(closed.push(name).drop_last() =~= closed);
    if ends_in_part(body, breaks, leading, verbatim) {
        lemma_ends_with_part(style, earlier, gaps, name, gap);
        assert(written(style, earlier.push(named_part(name)), gaps.push(gap)) + Seq::<char>::empty()
            =~= body);
    } else {
        assert(name_parts(text::pieces(body, breaks), leading, verbatim) == earlier);
        assert(written(style, earlier, gaps) + (gap + name) =~= body);
    }
}

proof fn lemma_shown_in_turn(
    path: PathView,
    one: Seq<PartView>,
    gaps: Seq<Seq<char>>,
    other: Seq<PartView>,
    more: Seq<Seq<char>>,
)
    requires
        path.parts == one + other,
        path.gaps == gaps + more,
        gaps.len() == one.len(),
        more.len() == other.len(),
    ensures
        shown(path) == written(path.style, one, gaps) + (written(path.style, other, more)
            + path.tail),
{
    lemma_written_in_turn(path.style, one, gaps, other, more);
    let start = written(path.style, one, gaps);
    let rest = written(path.style, other, more);
    assert(start + rest + path.tail =~= start + (rest + path.tail));
}

proof fn lemma_shown_after(
    style: PathStyle,
    text: Seq<char>,
    end: int,
    breaks: Breaks,
    always_rooted: bool,
    verbatim: bool,
)
    requires
        0 <= end <= text.len(),
    ensures
        shown(read_after(style, text, end, breaks, always_rooted, verbatim)) == text,
{
    let rest = text.skip(end);
    let separated = rest.len() > 0 && (text::breaks_at(breaks, rest[0]) || (verbatim && rest[0]
        == '/'));
    let rooted = separated || always_rooted;
    let leading = end == 0 && !rooted;
    let separator = if separated {
        rest.take(1)
    } else {
        Seq::empty()
    };
    let body = rest.skip(separator.len() as int);
    let head = head_parts(text, end, rooted);
    let front = head_gaps(end, rooted, separator);
    let names = name_parts(text::pieces(body, breaks), leading, verbatim);
    let gaps = name_gaps(body, breaks, leading, verbatim);
    lemma_head_as_written(style, text, end, rooted, separator);
    lemma_body_as_written(style, body, breaks, leading, verbatim);
    let path = PathView {
        style,
        parts: head + names,
        gaps: front + gaps,
        tail: name_tail(body, breaks, leading, verbatim),
    };
    assert(read_after(style, text, end, breaks, always_rooted, verbatim) == path);
    lemma_shown_in_turn(path, head, front, names, gaps);
    assert(text.take(end) + separator + body =~= text);
}

/// A path that was read is displayed as it was written.
pub proof fn lemma_shown_as_written(style: PathStyle, text: Seq<char>)
    ensures
        shown(read(style, text)) == text,
{
    match style {
        PathStyle::Unix => {
            lemma_shown_after(style, text, 0, Breaks::Slashes, false, false);
        },
        PathStyle::Windows => {
            lemma_prefix_ends_inside(text);
            match prefix_of(text) {
                Some((kind, end)) => {
                    let breaks = if is_verbatim(kind) {
                        Breaks::Backslashes
                    } else {
                        Breaks::BothSlashes
                    };
                    lemma_shown_after(style, text, end, breaks, is_rooted(kind), is_verbatim(kind));
                },
                None => {
                    lemma_shown_after(style, text, 0, Breaks::BothSlashes, false, false);
                },
            }
        },
    }
}

/// A relative path that is joined to another is displayed after it, with a separator in between
/// where the other needs one.
pub proof fn lemma_joined_as_written(base: PathView, other: PathView)
    requires
        base.style == other.style,
        !begins_verbatim(base.parts),
        other.parts.len() > 0 ==> !(other.parts[0] is Prefix || other.parts[0] is Root),
        other.parts.len() == 0 ==> other.tail.len() == 0,
    ensures
        shown(resolved_path(base, other)) == if needs_separator(base) {
            shown(base).push(separator(base.style)) + shown(other)
        } else {
            shown(base) + shown(other)
        },
{
    let style = base.style;
    let own = gaps_of(base);
    let more = gaps_of(other);
    let start = written(style, base.parts, own);
    let joined = resolved_path(base, other);
    lemma_written_by_its_gaps(style, base.parts, base.gaps, own);
    lemma_written_by_its_gaps(style, other.parts, other.gaps, more);
    if other.parts.len() == 0 {
        assert(shown(joined) =~= start + bridge(base) + shown(other));
    } else if other.parts[0] is Current && base.parts.len() > 0 {
        let between = (bridge(base) + more[0]).push('.');
        lemma_dot_in_front(style, other.parts, more);
        if other.parts.len() == 1 {
            assert(joined.parts =~= base.parts);
            assert(written(style, other.parts.skip(1), more.skip(1)) =~= Seq::<char>::empty());
        } else {
            lemma_joined_gap(
                style,
                base.parts,
                own,
                other.parts.skip(1),
                more.skip(1),
                between,
            );
            assert(joined.gaps =~= own.push(between + more.skip(1)[0]) + more.skip(1).skip(1));
        }
        assert(shown(joined) =~= start + bridge(base) + shown(other));
    } else {
        lemma_joined_gap(style, base.parts, own, other.parts, more, bridge(base));
        assert(shown(joined) =~= start + bridge(base) + shown(other));
    }
    assert(start + bridge(base) =~= if needs_separator(base) {
        shown(base).push(separator(style))
    } else {
        shown(base)
    });
}

/// A dot that a path begins with is written after its gap.
proof fn lemma_dot_in_front(style: PathStyle, parts: Seq<PartView>, gaps: Seq<Seq<char>>)
    requires
        gaps.len() == parts.len() > 0,
        parts[0] is Current,
    ensures
        written(style, parts, gaps) == gaps[0].push('.') + written(
            style,
            parts.skip(1),
            gaps.skip(1),
        ),
{
    let first = parts.take(1);
    assert(first.drop_last() =~= Seq::<PartView>::empty());
    reveal_with_fuel(written, 2);
    assert(parts =~= first + parts.skip(1));
    assert(gaps =~= gaps.take(1) + gaps.skip(1));
    lemma_written_in_turn(style, first, gaps.take(1), parts.skip(1), gaps.skip(1));
    assert(written(style, first, gaps.take(1)) =~= gaps[0].push('.'));
}

/// Parts that follow others with something more in between are written after it.
proof fn lemma_joined_gap(
    style: PathStyle,
    one: Seq<PartView>,
    gaps: Seq<Seq<char>>,
    other: Seq<PartView>,
    more: Seq<Seq<char>>,
    between: Seq<char>,
)
    requires
        gaps.len() == one.len(),
        more.len() == other.len(),
        other.len() > 0,
    ensures
        written(style, one + other, gaps.push(between + more[0]) + more.skip(1)) == written(
            style,
            one,
            gaps,
        ) + between + written(style, other, more),
{
    let first = other.take(1);
    let rest = other.skip(1);
    let changed = seq![between + more[0]];
    assert(first.drop_last() =~= Seq::<PartView>::empty());
    reveal_with_fuel(written, 2);
    assert(other =~= first + rest);
    assert(more =~= more.take(1) + more.skip(1));
    lemma_written_in_turn(style, first, more.take(1), rest, more.skip(1));
    lemma_written_in_turn(style, first, changed, rest, more.skip(1));
    lemma_written_in_turn(style, one, gaps, other, changed + more.skip(1));
    assert(gaps.push(between + more[0]) + more.skip(1) =~= gaps + (changed + more.skip(1)));
    assert(written(style, first, changed) =~= between + written(style, first, more.take(1)));
    assert(written(style, one + other, gaps.push(between + more[0]) + more.skip(1)) =~= written(
        style,
        one,
        gaps,
    ) + between + written(style, other, more));
}

/// Every path is the same as itself, and which of two paths comes first does not matter, nor
/// through which third one two are the same.
pub proof fn lemma_same_place_is_an_equivalence(one: PathView, other: PathView, third: PathView)
    ensures
        same_place(one, one),
        same_place(one, other) ==> same_place(other, one),
        same_place(one, other) && same_place(other, third) ==> same_place(one, third),
{
}

/// A copy of a text that may be missing.
pub fn copy_option(text: &Option<String>) -> (result: Option<String>)
    ensures
        option_text(result) == option_text(*text),
{
    match text {
        Some(text) => Some(text.clone()),
        None => None,
    }
}

/// Whether two texts that may be missing are the same.
pub fn same_option(left: &Option<String>, right: &Option<String>) -> (result: bool)
    ensures
        result == (option_text(*left) == option_text(*right)),
{
    match (left, right) {
        (Some(left), Some(right)) => text::same(left.as_str(), right.as_str()),
        (None, None) => true,
        _ => false,
    }
}

/// Whether two byte strings are the same.
fn same_bytes(left: &Vec<u8>, right: &Vec<u8>) -> (result: bool)
    ensures
        result == (left@ == right@),
{
    if left.len() != right.len() {
        return false;
    }
    let mut at: usize = 0;
    while at < left.len()
        invariant
            at <= left@.len() == right@.len(),
            forall|k: int| 0 <= k < at ==> left@[k] == right@[k],
        decreases left@.len() - at,
    {
        if left[at] != right[at] {
            return false;
        }
        at = at + 1;
    }
    assert(left@ =~= right@);
    true
}

/// A copy of a byte string.
fn copy_bytes(bytes: &Vec<u8>) -> (result: Vec<u8>)
    ensures
        result@ == bytes@,
{
    let mut result: Vec<u8> = Vec::new();
    let mut at: usize = 0;
    while at < bytes.len()
        invariant
            at <= bytes@.len(),
            result@ == bytes@.take(at as int),
        decreases bytes@.len() - at,
    {
        result.push(bytes[at]);
        at = at + 1;
        assert(result@ =~= bytes@.take(at as int));
    }
    assert(bytes@.take(bytes@.len() as int) =~= bytes@);
    result
}

impl Clone for OpaqueName {
    fn clone(&self) -> (result: Self)
        ensures
            result@ == self@,
    {
        OpaqueName {
            raw: copy_bytes(&self.raw),
            shown: self.shown.clone(),
            stem: copy_option(&self.stem),
            extension: copy_option(&self.extension),
        }
    }
}

impl Clone for PathPart {
    fn clone(&self) -> (result: Self)
        ensures
            result@ == self@,
    {
        match self {
            PathPart::Prefix(text) => PathPart::Prefix(text.clone()),
            PathPart::Root => PathPart::Root,
            PathPart::Current => PathPart::Current,
            PathPart::Parent => PathPart::Parent,
            PathPart::Name(text) => PathPart::Name(text.clone()),
            PathPart::Opaque(name) => PathPart::Opaque(name.clone()),
        }
    }
}

/// A copy of `parts[from..to]`.
fn copy_parts(parts: &Vec<PathPart>, from: usize, to: usize) -> (result: Vec<PathPart>)
    requires
        from <= to <= parts@.len(),
    ensures
        part_views(result@) == part_views(parts@).subrange(from as int, to as int),
{
    let mut result: Vec<PathPart> = Vec::new();
    let mut at: usize = from;
    assert(part_views(result@) =~= part_views(parts@).subrange(from as int, at as int));
    while at < to
        invariant
            from <= at <= to <= parts@.len(),
            part_views(result@) == part_views(parts@).subrange(from as int, at as int),
        decreases to - at,
    {
        let ghost earlier = result@;
        let part: PathPart = parts[at].clone();
        result.push(part);
        assert(part_views(result@) =~= part_views(earlier).push(part@));
        at = at + 1;
        assert(part_views(result@) =~= part_views(parts@).subrange(from as int, at as int));
    }
    result
}

impl Clone for RomPath {
    fn clone(&self) -> (result: Self)
        ensures
            result@ == self@,
    {
        let parts: Vec<PathPart> = copy_parts(&self.parts, 0, self.parts.len());
        assert(part_views(parts@) =~= part_views(self.parts@));
        RomPath {
            style: self.style,
            parts,
            gaps: text::copy_all(&self.gaps),
            tail: self.tail.clone(),
        }
    }
}

/// What the prefix of a Windows path stands for.
enum PrefixKind {
    Drive(char),
    Share { server: String, share: String },
    Device(String),
    Verbatim(String),
    VerbatimDrive(char),
    VerbatimShare { server: String, share: String },
}

impl View for PrefixKind {
    type V = PrefixView;

    closed spec fn view(&self) -> PrefixView {
        match self {
            PrefixKind::Drive(letter) => PrefixView::Drive(*letter),
            PrefixKind::Share { server, share } => PrefixView::Share {
                server: server@,
                share: share@,
            },
            PrefixKind::Device(name) => PrefixView::Device(name@),
            PrefixKind::Verbatim(name) => PrefixView::Verbatim(name@),
            PrefixKind::VerbatimDrive(letter) => PrefixView::VerbatimDrive(*letter),
            PrefixKind::VerbatimShare { server, share } => PrefixView::VerbatimShare {
                server: server@,
                share: share@,
            },
        }
    }
}

impl PrefixKind {
    /// Whether two prefixes stand for the same.
    fn same(&self, other: &PrefixKind) -> (result: bool)
        ensures
            result == (self@ == other@),
    {
        match (self, other) {
            (PrefixKind::Drive(left), PrefixKind::Drive(right)) => *left == *right,
            (
                PrefixKind::Share { server: left, share: left_share },
                PrefixKind::Share { server: right, share: right_share },
            ) => text::same(left.as_str(), right.as_str()) && text::same(
                left_share.as_str(),
                right_share.as_str(),
            ),
            (PrefixKind::Device(left), PrefixKind::Device(right)) => text::same(
                left.as_str(),
                right.as_str(),
            ),
            (PrefixKind::Verbatim(left), PrefixKind::Verbatim(right)) => text::same(
                left.as_str(),
                right.as_str(),
            ),
            (PrefixKind::VerbatimDrive(left), PrefixKind::VerbatimDrive(right)) => *left == *right,
            (
                PrefixKind::VerbatimShare { server: left, share: left_share },
                PrefixKind::VerbatimShare { server: right, share: right_share },
            ) => text::same(left.as_str(), right.as_str()) && text::same(
                left_share.as_str(),
                right_share.as_str(),
            ),
            _ => false,
        }
    }

    /// Whether only backslashes separate after the prefix.
    fn is_verbatim(&self) -> (result: bool)
        ensures
            result == is_verbatim(self@),
    {
        match self {
            PrefixKind::Verbatim(_) => true,
            PrefixKind::VerbatimDrive(_) => true,
            PrefixKind::VerbatimShare { .. } => true,
            _ => false,
        }
    }

    /// Whether the prefix is rooted whether or not a separator follows it.
    fn is_rooted(&self) -> (result: bool)
        ensures
            result == is_rooted(self@),
    {
        match self {
            PrefixKind::Share { .. } => true,
            PrefixKind::Device(_) => true,
            _ => false,
        }
    }
}

/// Where the next break stands in a text, or the text's length.
fn find_break(chars: &Vec<char>, from: usize, breaks: Breaks) -> (result: usize)
    requires
        from <= chars@.len(),
    ensures
        result == next_break(chars@, from as int, breaks),
        from <= result <= chars@.len(),
{
    let mut at: usize = from;
    while at < chars.len()
        invariant
            from <= at <= chars@.len(),
            next_break(chars@, from as int, breaks) == next_break(chars@, at as int, breaks),
        decreases chars@.len() - at,
    {
        if text::is_break(breaks, chars[at]) {
            return at;
        }
        at = at + 1;
    }
    at
}

/// Whether a character is an ASCII letter.
fn names_drive(ch: char) -> (result: bool)
    ensures
        result == is_letter(ch),
{
    ('a' <= ch && ch <= 'z') || ('A' <= ch && ch <= 'Z')
}

/// The ASCII upper case of one character.
fn upper_one(ch: char) -> (result: char)
    ensures
        result == upper_char(ch),
{
    if 'a' <= ch && ch <= 'z' {
        ((ch as u8) - 32) as char
    } else {
        ch
    }
}

/// The prefix of a text that begins with `\\?\`, and how many characters it takes.
fn find_verbatim_prefix(chars: &Vec<char>) -> (result: (PrefixKind, usize))
    requires
        chars@.len() >= 4,
    ensures
        (result.0@, result.1 as int) == verbatim_prefix(chars@),
        0 < result.1 <= chars@.len(),
{
    let breaks: Breaks = Breaks::Backslashes;
    let length: usize = chars.len();
    if length >= 8 && chars[4] == 'U' && chars[5] == 'N' && chars[6] == 'C' && text::is_break(
        Breaks::BothSlashes,
        chars[7],
    ) {
        let server_end: usize = find_break(chars, 8, breaks);
        let share_from: usize = if server_end < length {
            server_end + 1
        } else {
            server_end
        };
        let share_end: usize = find_break(chars, share_from, breaks);
        let kind: PrefixKind = PrefixKind::VerbatimShare {
            server: text::text_of(chars, 8, server_end),
            share: text::text_of(chars, share_from, share_end),
        };
        return (
            kind,
            if share_from < share_end {
                share_end
            } else {
                server_end
            },
        );
    }
    if length >= 6 && names_drive(chars[4]) && chars[5] == ':' && (length == 6 || text::is_break(
        Breaks::BothSlashes,
        chars[6],
    )) {
        return (PrefixKind::VerbatimDrive(upper_one(chars[4])), 6);
    }
    let end: usize = find_break(chars, 4, breaks);
    (PrefixKind::Verbatim(text::text_of(chars, 4, end)), end)
}

/// A prefix and how many characters it takes.
spec fn span_view(span: Option<(PrefixKind, usize)>) -> Option<(PrefixView, int)> {
    match span {
        Some((kind, end)) => Some((kind@, end as int)),
        None => None,
    }
}

/// What the prefix of a Windows path text stands for, and how many characters it takes, where
/// there is one.
fn find_prefix(chars: &Vec<char>) -> (result: Option<(PrefixKind, usize)>)
    ensures
        span_view(result) == prefix_of(chars@),
        result matches Some((_, end)) ==> 0 < end <= chars@.len(),
{
    let breaks: Breaks = Breaks::BothSlashes;
    let length: usize = chars.len();
    if length < 2 {
        return None;
    }
    if !text::is_break(breaks, chars[0]) || !text::is_break(breaks, chars[1]) {
        if names_drive(chars[0]) && chars[1] == ':' {
            return Some((PrefixKind::Drive(upper_one(chars[0])), 2));
        }
        return None;
    }
    if length >= 4 && chars[0] == '\\' && chars[1] == '\\' && chars[2] == '?' && chars[3] == '\\' {
        return Some(find_verbatim_prefix(chars));
    }
    if length >= 4 && chars[2] == '.' && text::is_break(breaks, chars[3]) {
        let end: usize = find_break(chars, 4, breaks);
        return Some((PrefixKind::Device(text::text_of(chars, 4, end)), end));
    }
    let server_end: usize = find_break(chars, 2, breaks);
    let share_from: usize = if server_end < length {
        server_end + 1
    } else {
        server_end
    };
    let share_end: usize = find_break(chars, share_from, breaks);
    if server_end == 2 || share_from == share_end {
        return None;
    }
    let kind: PrefixKind = PrefixKind::Share {
        server: text::text_of(chars, 2, server_end),
        share: text::text_of(chars, share_from, share_end),
    };
    Some((kind, share_end))
}

/// What a prefix stands for.
fn kind_of_prefix(prefix: &str) -> (result: Option<PrefixKind>)
    ensures
        match result {
            Some(kind) => prefix_of(prefix@) matches Some((wanted, _)) && kind@ == wanted,
            None => prefix_of(prefix@) is None,
        },
{
    let chars: Vec<char> = text::chars_of(prefix);
    match find_prefix(&chars) {
        Some((kind, _)) => Some(kind),
        None => None,
    }
}

/// Whether two parts are the same.
fn same_part(left: &PathPart, right: &PathPart) -> (result: bool)
    ensures
        result == (identity(left@) == identity(right@)),
{
    match (left, right) {
        (PathPart::Prefix(left), PathPart::Prefix(right)) => match (
            kind_of_prefix(left.as_str()),
            kind_of_prefix(right.as_str()),
        ) {
            (Some(left), Some(right)) => left.same(&right),
            (None, None) => text::same(left.as_str(), right.as_str()),
            _ => false,
        },
        (PathPart::Root, PathPart::Root) => true,
        (PathPart::Current, PathPart::Current) => true,
        (PathPart::Parent, PathPart::Parent) => true,
        (PathPart::Name(left), PathPart::Name(right)) => text::same(left.as_str(), right.as_str()),
        (PathPart::Opaque(left), PathPart::Opaque(right)) => same_bytes(&left.raw, &right.raw)
            && text::same(left.shown.as_str(), right.shown.as_str()) && same_option(
            &left.stem,
            &right.stem,
        ) && same_option(&left.extension, &right.extension),
        _ => false,
    }
}

impl RomPath {
    /// Reads the text of a path.
    pub fn parse(style: PathStyle, path: &str) -> (result: RomPath)
        ensures
            result@ == read(style, path@),
    {
        let chars: Vec<char> = text::chars_of(path);
        if style == PathStyle::Unix {
            return parse_after(style, &chars, 0, Breaks::Slashes, false, false);
        }
        match find_prefix(&chars) {
            Some((kind, end)) => {
                let verbatim: bool = kind.is_verbatim();
                let breaks: Breaks = if verbatim {
                    Breaks::Backslashes
                } else {
                    Breaks::BothSlashes
                };
                parse_after(style, &chars, end, breaks, kind.is_rooted(), verbatim)
            },
            None => parse_after(style, &chars, 0, Breaks::BothSlashes, false, false),
        }
    }

    /// A path of these parts, with one separator between neighbours.
    pub fn of_parts(style: PathStyle, parts: Vec<PathPart>) -> (result: RomPath)
        ensures
            result@ == plain_path(style, part_views(parts@)),
    {
        let gaps: Vec<String> = plain_gaps(style, &parts);
        let tail: String = String::new();
        assert(tail@ =~= Seq::<char>::empty());
        RomPath { style, parts, gaps, tail }
    }

    /// Whether two paths are the same.
    pub fn same(&self, other: &RomPath) -> (result: bool)
        ensures
            result == same_place(self@, other@),
    {
        if self.style != other.style || self.parts.len() != other.parts.len() {
            assert(self@.style != other@.style || identities(self@.parts).len() != identities(
                other@.parts,
            ).len());
            return false;
        }
        let mut left: usize = self.parts.len();
        while left > 0
            invariant
                left <= self.parts@.len() == other.parts@.len(),
                forall|k: int|
                    left <= k < self.parts@.len() ==> identity(self@.parts[k]) == identity(
                        other@.parts[k],
                    ),
            decreases left,
        {
            left = left - 1;
            if !same_part(&self.parts[left], &other.parts[left]) {
                assert(identities(self@.parts)[left as int] != identities(
                    other@.parts,
                )[left as int]);
                return false;
            }
        }
        assert(identities(self@.parts) =~= identities(other@.parts));
        true
    }

    /// Whether the path lies under (or is) another.
    pub fn starts_with(&self, base: &RomPath) -> (result: bool)
        ensures
            result == lies_under(self@.parts, base@.parts),
    {
        if base.parts.len() > self.parts.len() {
            return false;
        }
        let mut at: usize = 0;
        while at < base.parts.len()
            invariant
                at <= base.parts@.len() <= self.parts@.len(),
                forall|k: int|
                    0 <= k < at ==> identity(self@.parts[k]) == identity(base@.parts[k]),
            decreases base.parts@.len() - at,
        {
            if !same_part(&self.parts[at], &base.parts[at]) {
                assert(identities(self@.parts.take(base@.parts.len() as int))[at as int]
                    != identities(base@.parts)[at as int]);
                return false;
            }
            at = at + 1;
        }
        assert(identities(self@.parts.take(base@.parts.len() as int)) =~= identities(
            base@.parts,
        ));
        true
    }

    /// What stays of what is written after the last part.
    fn kept_tail(&self) -> (result: String)
        ensures
            result@ == kept_tail(self@),
    {
        let length: usize = self.parts.len();
        if length > 0 {
            assert(self@.parts.last() == self.parts@[length - 1]@);
            if let PathPart::Prefix(_) = &self.parts[length - 1] {
                let chars: Vec<char> = text::chars_of(self.tail.as_str());
                if chars.len() > 0 {
                    let kept: String = text::text_of(&chars, 0, 1);
                    assert(kept@ =~= chars@.take(1));
                    return kept;
                }
            }
        }
        let nothing: String = String::new();
        assert(nothing@ =~= Seq::<char>::empty());
        nothing
    }

    /// The path relative to a folder that it lies under.
    pub fn strip_prefix(&self, base: &RomPath) -> (result: Option<RomPath>)
        ensures
            match result {
                Some(rest) => stripped(self@, base@.parts) == Some(rest@),
                None => stripped(self@, base@.parts) is None,
            },
    {
        if !self.starts_with(base) {
            return None;
        }
        let from: usize = base.parts.len();
        let parts: Vec<PathPart> = copy_parts(&self.parts, from, self.parts.len());
        assert(part_views(parts@) =~= self@.parts.skip(base@.parts.len() as int));
        let mut gaps: Vec<String> = copy_gaps(self, from);
        let tail: String = self.kept_tail();
        if parts.len() > 0 && from > 0 {
            assert(self@.parts[from - 1] == self.parts@[from - 1]@);
            let after_prefix: bool = match &self.parts[from - 1] {
                PathPart::Prefix(_) => true,
                _ => false,
            };
            if !after_prefix {
                let ghost earlier = text::views(gaps@);
                let nothing: String = String::new();
                assert(nothing@ =~= Seq::<char>::empty());
                gaps.set(0, nothing);
                assert(text::views(gaps@) =~= earlier.update(0, Seq::empty()));
            }
        }
        Some(RomPath { style: self.style, parts, gaps, tail })
    }

    /// The last part of the path, where it is a name.
    pub fn file_name(&self) -> (result: Option<&PathPart>)
        ensures
            match result {
                Some(part) => file_name(self@.parts) == Some(part@),
                None => file_name(self@.parts) is None,
            },
    {
        if self.parts.len() == 0 {
            return None;
        }
        let last: &PathPart = &self.parts[self.parts.len() - 1];
        assert(self@.parts.last() == last@);
        match last {
            PathPart::Name(_) => Some(last),
            PathPart::Opaque(_) => Some(last),
            _ => None,
        }
    }

    /// The file name of the path, where it has one that is text.
    pub fn file_name_text(&self) -> (result: Option<&str>)
        ensures
            match result {
                Some(name) => file_name_text(self@.parts) == Some(name@),
                None => file_name_text(self@.parts) is None,
            },
    {
        match self.file_name() {
            Some(PathPart::Name(name)) => Some(name.as_str()),
            _ => None,
        }
    }

    /// The extension of the path's file name, where it has one that is text.
    pub fn extension(&self) -> (result: Option<String>)
        ensures
            option_text(result) == extension(self@.parts),
    {
        match self.file_name() {
            Some(PathPart::Name(name)) => {
                let chars: Vec<char> = text::chars_of(name.as_str());
                let length: usize = chars.len();
                match find_extension(&chars) {
                    Some(dot) => {
                        assert(chars@.subrange(dot + 1, chars@.len() as int) =~= chars@.skip(
                            dot + 1,
                        ));
                        Some(text::text_of(&chars, dot + 1, length))
                    },
                    None => None,
                }
            },
            Some(PathPart::Opaque(name)) => copy_option(&name.extension),
            _ => None,
        }
    }

    /// The extension of the path's file name in lower case, or nothing.
    pub fn lower_extension(&self) -> (result: String)
        ensures
            result@ == lower_extension(self@.parts),
    {
        match self.extension() {
            Some(extension) => text::to_lower(extension.as_str()),
            None => String::new(),
        }
    }

    /// The file name of the path without its extension, where that is text.
    pub fn file_stem(&self) -> (result: Option<String>)
        ensures
            option_text(result) == file_stem(self@.parts),
    {
        match self.file_name() {
            Some(PathPart::Name(name)) => {
                let chars: Vec<char> = text::chars_of(name.as_str());
                match find_extension(&chars) {
                    Some(dot) => {
                        assert(chars@.subrange(0, dot as int) =~= chars@.take(dot as int));
                        Some(text::text_of(&chars, 0, dot))
                    },
                    None => Some(name.clone()),
                }
            },
            Some(PathPart::Opaque(name)) => copy_option(&name.stem),
            _ => None,
        }
    }

    /// The parts of the path with another taken relative to it.
    fn joined_parts(&self, other: &RomPath) -> (result: Vec<PathPart>)
        ensures
            part_views(result@) == resolved(self@.parts, other@.parts),
    {
        let length: usize = other.parts.len();
        let own: usize = self.parts.len();
        let verbatim: bool = starts_verbatim(&self.parts);
        // What is kept of each of the two.
        let mut kept: usize = own;
        let mut skipped: usize = 0;
        if length == 0 {
            let mut parts: Vec<PathPart> = copy_parts(&self.parts, 0, own);
            assert(part_views(parts@) =~= self@.parts);
            if verbatim && own == 1 {
                let ghost earlier = parts@;
                parts.push(PathPart::Root);
                assert(part_views(parts@) =~= part_views(earlier).push(PartView::Root));
            }
            return parts;
        }
        assert(other@.parts[0] == other.parts@[0]@);
        match &other.parts[0] {
            PathPart::Prefix(_) => {
                kept = 0;
            },
            _ if verbatim => {
                return walk(&self.parts, &other.parts);
            },
            PathPart::Root => {
                kept = 0;
                if own > 0 {
                    assert(self@.parts[0] == self.parts@[0]@);
                    if let PathPart::Prefix(_) = &self.parts[0] {
                        kept = 1;
                    }
                }
            },
            PathPart::Current => {
                if own > 0 {
                    skipped = 1;
                }
            },
            _ => {},
        }
        let mut parts: Vec<PathPart> = copy_parts(&self.parts, 0, kept);
        let mut appended: Vec<PathPart> = copy_parts(&other.parts, skipped, length);
        let ghost front = part_views(parts@);
        let ghost back = part_views(appended@);
        parts.append(&mut appended);
        assert(part_views(parts@) =~= front + back);
        assert(part_views(parts@) =~= resolved(self@.parts, other@.parts));
        parts
    }

    /// What is written before more is appended.
    fn bridge(&self) -> (result: String)
        ensures
            result@ == bridge(self@),
    {
        let written: String = self.display();
        let chars: Vec<char> = text::chars_of(written.as_str());
        let length: usize = chars.len();
        let mut result: String = self.tail.clone();
        let breaks: Breaks = match self.style {
            PathStyle::Windows => Breaks::BothSlashes,
            PathStyle::Unix => Breaks::Slashes,
        };
        if length > 0 && !text::is_break(breaks, chars[length - 1]) {
            let drive: bool = self.parts.len() == 1 && match &self.parts[0] {
                PathPart::Prefix(prefix) => text::same(written.as_str(), prefix.as_str())
                    && match kind_of_prefix(prefix.as_str()) {
                    Some(PrefixKind::Drive(_)) => true,
                    _ => false,
                },
                _ => false,
            };
            assert(self.parts@.len() == 1 ==> self@.parts[0] == self.parts@[0]@);
            if !drive {
                result.push(separator_of(self.style));
            }
        }
        result
    }

    /// The path with another taken relative to it.
    #[verifier::rlimit(30)]
    pub fn join(&self, other: &RomPath) -> (result: RomPath)
        ensures
            result@ == resolved_path(self@, other@),
    {
        let parts: Vec<PathPart> = self.joined_parts(other);
        let nothing: String = String::new();
        assert(nothing@ =~= Seq::<char>::empty());
        let own: usize = self.parts.len();
        let length: usize = other.parts.len();
        let verbatim: bool = starts_verbatim(&self.parts);
        if length == 0 {
            if verbatim && own == 1 {
                let gaps: Vec<String> = plain_gaps(self.style, &parts);
                return RomPath { style: self.style, parts, gaps, tail: nothing };
            }
            let gaps: Vec<String> = copy_gaps(self, 0);
            assert(gaps_of(self@).skip(0) =~= gaps_of(self@));
            return RomPath { style: self.style, parts, gaps, tail: self.bridge() };
        }
        assert(other@.parts[0] == other.parts@[0]@);
        let more: Vec<String> = copy_gaps(other, 0);
        assert(gaps_of(other@).skip(0) =~= gaps_of(other@));
        match &other.parts[0] {
            PathPart::Prefix(_) => RomPath {
                style: self.style,
                parts,
                gaps: more,
                tail: other.tail.clone(),
            },
            _ if verbatim => {
                let gaps: Vec<String> = plain_gaps(self.style, &parts);
                RomPath { style: self.style, parts, gaps, tail: nothing }
            },
            PathPart::Root => {
                let mut gaps: Vec<String> = Vec::new();
                if own > 0 {
                    assert(self@.parts[0] == self.parts@[0]@);
                    if let PathPart::Prefix(_) = &self.parts[0] {
                        let all: Vec<String> = copy_gaps(self, 0);
                        assert(gaps_of(self@).skip(0) =~= gaps_of(self@));
                        gaps.push(all[0].clone());
                        assert(text::views(gaps@) =~= gaps_of(self@).take(1));
                    }
                }
                let ghost front = text::views(gaps@);
                text::append_all(&mut gaps, &more, 0);
                assert(gaps_of(other@).skip(0) =~= gaps_of(other@));
                assert(front.len() == 0 ==> front + gaps_of(other@) =~= gaps_of(other@));
                RomPath { style: self.style, parts, gaps, tail: other.tail.clone() }
            },
            PathPart::Current if own > 0 => {
                let mut gaps: Vec<String> = copy_gaps(self, 0);
                assert(gaps_of(self@).skip(0) =~= gaps_of(self@));
                let mut between: String = self.bridge();
                between.append(more[0].as_str());
                between.push('.');
                if length == 1 {
                    assert(more@[0]@ == gaps_of(other@)[0]);
                    between.append(other.tail.as_str());
                    return RomPath { style: self.style, parts, gaps, tail: between };
                }
                between.append(more[1].as_str());
                let ghost front = text::views(gaps@);
                gaps.push(between);
                assert(text::views(gaps@) =~= front.push(between@));
                text::append_all(&mut gaps, &more, 2);
                RomPath { style: self.style, parts, gaps, tail: other.tail.clone() }
            },
            _ => {
                let mut gaps: Vec<String> = copy_gaps(self, 0);
                assert(gaps_of(self@).skip(0) =~= gaps_of(self@));
                let mut between: String = self.bridge();
                between.append(more[0].as_str());
                let ghost front = text::views(gaps@);
                gaps.push(between);
                assert(text::views(gaps@) =~= front.push(between@));
                text::append_all(&mut gaps, &more, 1);
                RomPath { style: self.style, parts, gaps, tail: other.tail.clone() }
            },
        }
    }

    /// The path with one more part.
    pub fn with_part(&self, part: PathPart) -> (result: RomPath)
        ensures
            result@ == extended(self@, part@),
    {
        let mut parts: Vec<PathPart> = Vec::new();
        parts.push(part);
        assert(part_views(parts@) =~= seq![part@]);
        self.join(&RomPath::of_parts(self.style, parts))
    }

    /// How the last part of the path is displayed, unless it is a prefix.
    pub fn last_shown(&self) -> (result: String)
        ensures
            result@ == last_shown(self@),
    {
        if self.parts.len() == 0 {
            let result: String = String::new();
            assert(result@ =~= Seq::<char>::empty());
            return result;
        }
        let last: &PathPart = &self.parts[self.parts.len() - 1];
        assert(self@.parts.last() == last@);
        match last {
            PathPart::Prefix(_) => {
                let result: String = String::new();
                assert(result@ =~= Seq::<char>::empty());
                result
            },
            PathPart::Opaque(name) => name.shown.clone(),
            _ => match text_of_part(self.style, last) {
                Some(part_text) => part_text,
                None => String::new(),
            },
        }
    }

    /// The names of the path and of the folders above it, from the inside out and in lower case,
    /// as far as they are text, over the first `levels` levels.
    pub fn level_names(&self, levels: usize) -> (result: Vec<String>)
        ensures
            text::views(result@) == level_names(self@.parts, levels as nat),
    {
        let mut result: Vec<String> = Vec::new();
        let mut left: usize = levels;
        let mut length: usize = self.parts.len();
        assert(self@.parts.take(length as int) =~= self@.parts);
        assert(text::views(result@) =~= Seq::<Seq<char>>::empty());
        assert(level_names(self@.parts, levels as nat) =~= text::views(result@) + level_names(
            self@.parts.take(length as int),
            left as nat,
        ));
        while left > 0
            invariant
                left <= levels,
                length <= self.parts@.len(),
                level_names(self@.parts, levels as nat) == text::views(result@) + level_names(
                    self@.parts.take(length as int),
                    left as nat,
                ),
            decreases left,
        {
            let ghost now = self@.parts.take(length as int);
            let ghost rest = level_names(now.drop_last(), (left - 1) as nat);
            let ghost earlier = result@;
            if length == 0 {
                assert(level_names(now, left as nat) =~= Seq::<Seq<char>>::empty());
                assert(text::views(earlier) + Seq::<Seq<char>>::empty() =~= text::views(earlier));
                return result;
            }
            let last: &PathPart = &self.parts[length - 1];
            assert(now.last() == last@);
            assert(now.drop_last() =~= self@.parts.take(length - 1));
            match last {
                PathPart::Name(name) => {
                    let lowered: String = text::to_lower(name.as_str());
                    result.push(lowered);
                    proof {
                        assert(text::views(result@) =~= text::views(earlier).push(lowered@));
                        assert(level_names(now, left as nat) == seq![lowered@] + rest);
                        assert(text::views(earlier) + (seq![lowered@] + rest) =~= text::views(
                            result@,
                        ) + rest);
                    }
                },
                PathPart::Prefix(_) => {
                    assert(level_names(now, left as nat) =~= Seq::<Seq<char>>::empty());
                    assert(text::views(earlier) + Seq::<Seq<char>>::empty() =~= text::views(
                        earlier,
                    ));
                    return result;
                },
                PathPart::Root => {
                    assert(level_names(now, left as nat) =~= Seq::<Seq<char>>::empty());
                    assert(text::views(earlier) + Seq::<Seq<char>>::empty() =~= text::views(
                        earlier,
                    ));
                    return result;
                },
                _ => {
                    assert(level_names(now, left as nat) =~= rest);
                },
            }
            length = length - 1;
            left = left - 1;
        }
        assert(text::views(result@) + Seq::<Seq<char>>::empty() =~= text::views(result@));
        result
    }

    /// The texts of the parts that are text, in order.
    pub fn texts(&self) -> (result: Vec<String>)
        ensures
            text::views(result@) == texts(self@.style, self@.parts),
    {
        let mut result: Vec<String> = Vec::new();
        let mut at: usize = 0;
        assert(text::views(result@) =~= Seq::<Seq<char>>::empty());
        while at < self.parts.len()
            invariant
                at <= self.parts@.len(),
                text::views(result@) == texts(self@.style, self@.parts.take(at as int)),
            decreases self.parts@.len() - at,
        {
            let ghost earlier = result@;
            let part: &PathPart = &self.parts[at];
            proof {
                let now = self@.parts.take(at + 1);
                assert(now.drop_last() =~= self@.parts.take(at as int));
                assert(now.last() == part@);
            }
            match text_of_part(self.style, part) {
                Some(part_text) => {
                    result.push(part_text);
                    assert(text::views(result@) =~= text::views(earlier).push(part_text@));
                },
                None => {},
            }
            at = at + 1;
        }
        assert(self@.parts.take(self.parts@.len() as int) =~= self@.parts);
        result
    }

    /// How the path is displayed.
    pub fn display(&self) -> (result: String)
        ensures
            result@ == shown(self@),
    {
        let mut result: String = String::new();
        let mut at: usize = 0;
        while at < self.parts.len()
            invariant
                at <= self.parts@.len(),
                result@ == written(self@.style, self@.parts.take(at as int), self@.gaps),
            decreases self.parts@.len() - at,
        {
            let part: &PathPart = &self.parts[at];
            proof {
                let now = self@.parts.take(at + 1);
                assert(now.drop_last() =~= self@.parts.take(at as int));
                assert(now.last() == part@);
            }
            let ghost earlier = result@;
            if at < self.gaps.len() {
                assert(self@.gaps[at as int] == self.gaps@[at as int]@);
                result.append(self.gaps[at].as_str());
            } else {
                assert(earlier + Seq::<char>::empty() =~= earlier);
            }
            let ghost before = result@;
            match part {
                PathPart::Root => {
                    assert(before + Seq::<char>::empty() =~= before);
                },
                PathPart::Opaque(name) => {
                    result.append(name.shown.as_str());
                },
                _ => match text_of_part(self.style, part) {
                    Some(part_text) => {
                        result.append(part_text.as_str());
                    },
                    None => {},
                },
            }
            at = at + 1;
        }
        assert(self@.parts.take(self.parts@.len() as int) =~= self@.parts);
        result.append(self.tail.as_str());
        result
    }
}

/// The extension of a path's file name in lower case, or nothing.
pub open spec fn lower_extension(parts: Seq<PartView>) -> Seq<char> {
    match extension(parts) {
        Some(text) => text::lower(text),
        None => Seq::empty(),
    }
}

/// What is written before the part with this number.
fn gap_text(path: &RomPath, at: usize) -> (result: String)
    ensures
        result@ == gap_at(path@.gaps, at as int),
{
    if at < path.gaps.len() {
        assert(path@.gaps[at as int] == path.gaps@[at as int]@);
        path.gaps[at].clone()
    } else {
        let nothing: String = String::new();
        assert(nothing@ =~= Seq::<char>::empty());
        nothing
    }
}

/// What is written before each part, from the one with the number `from` on.
fn copy_gaps(path: &RomPath, from: usize) -> (result: Vec<String>)
    requires
        from <= path.parts@.len(),
    ensures
        text::views(result@) == gaps_of(path@).skip(from as int),
        result@.len() == path.parts@.len() - from,
{
    let ghost wanted = gaps_of(path@).skip(from as int);
    let mut result: Vec<String> = Vec::new();
    let mut at: usize = from;
    while at < path.parts.len()
        invariant
            from <= at <= path.parts@.len(),
            wanted == gaps_of(path@).skip(from as int),
            text::views(result@) =~= wanted.take(at - from),
        decreases path.parts@.len() - at,
    {
        let ghost earlier = result@;
        let gap: String = gap_text(path, at);
        result.push(gap);
        assert(text::views(result@) =~= text::views(earlier).push(gap@));
        assert(wanted[at - from] == gap@);
        at = at + 1;
    }
    assert(wanted.take(path.parts@.len() - from) =~= wanted);
    assert(text::views(result@).len() == result@.len());
    result
}

/// What is written before each part where there is one separator between neighbours.
fn plain_gaps(style: PathStyle, parts: &Vec<PathPart>) -> (result: Vec<String>)
    ensures
        text::views(result@) == plain_path(style, part_views(parts@)).gaps,
{
    let ghost all = part_views(parts@);
    let ghost wanted = plain_path(style, all).gaps;
    let mut result: Vec<String> = Vec::new();
    let mut joined: bool = true;
    let mut at: usize = 0;
    while at < parts.len()
        invariant
            at <= parts@.len(),
            all == part_views(parts@),
            wanted == plain_path(style, all).gaps,
            joined == (at == 0 || all[at - 1] is Root || all[at - 1] is Prefix),
            text::views(result@) =~= wanted.take(at as int),
        decreases parts@.len() - at,
    {
        let ghost earlier = result@;
        assert(all[at as int] == parts@[at as int]@);
        let is_root: bool = match &parts[at] {
            PathPart::Root => true,
            _ => false,
        };
        let mut gap: String = String::new();
        assert(gap@ =~= Seq::<char>::empty());
        if is_root || !joined {
            gap.push(separator_of(style));
            assert(gap@ =~= seq![separator(style)]);
        }
        result.push(gap);
        assert(text::views(result@) =~= text::views(earlier).push(gap@));
        assert(wanted[at as int] == gap@);
        joined = match &parts[at] {
            PathPart::Root => true,
            PathPart::Prefix(_) => true,
            _ => false,
        };
        at = at + 1;
    }
    assert(wanted.take(parts@.len() as int) =~= wanted);
    result
}

/// The part that a name of a path text stands for, if it does.
fn part_for(name: &str, earlier: usize, leading: bool, verbatim: bool) -> (result: Option<PathPart>)
    ensures
        match result {
            Some(part) => is_part(name@, earlier as nat, leading, verbatim) && part@ == named_part(
                name@,
            ),
            None => !is_part(name@, earlier as nat, leading, verbatim),
        },
{
    proof {
        reveal_strlit(".");
        reveal_strlit("..");
        assert("."@ =~= seq!['.']);
        assert(".."@ =~= seq!['.', '.']);
    }
    if name.is_empty() {
        None
    } else if text::same(name, ".") {
        if verbatim || (leading && earlier == 0) {
            Some(PathPart::Current)
        } else {
            None
        }
    } else if text::same(name, "..") {
        Some(PathPart::Parent)
    } else {
        Some(PathPart::Name(name.to_owned()))
    }
}

/// Reads the names of a path text from the character with the number `from` on, with what is
/// written before each and after the last.
fn read_names(
    chars: &Vec<char>,
    from: usize,
    breaks: Breaks,
    leading: bool,
    verbatim: bool,
) -> (result: (Vec<PathPart>, Vec<String>, String))
    requires
        from <= chars@.len(),
    ensures
        part_views(result.0@) == name_parts(
            text::pieces(chars@.skip(from as int), breaks),
            leading,
            verbatim,
        ),
        text::views(result.1@) == name_gaps(chars@.skip(from as int), breaks, leading, verbatim),
        result.2@ == name_tail(chars@.skip(from as int), breaks, leading, verbatim),
{
    let ghost body = chars@.skip(from as int);
    let mut parts: Vec<PathPart> = Vec::new();
    let mut gaps: Vec<String> = Vec::new();
    let mut current: String = String::new();
    let mut gap: String = String::new();
    let mut names: usize = 0;
    let mut at: usize = from;
    proof {
        assert(body.take(0) =~= Seq::<char>::empty());
        assert(current@ =~= Seq::<char>::empty() && gap@ =~= Seq::<char>::empty());
        assert(part_views(parts@) =~= Seq::<PartView>::empty());
        assert(text::views(gaps@) =~= Seq::<Seq<char>>::empty());
    }
    while at < chars.len()
        invariant
            from <= at <= chars@.len(),
            body == chars@.skip(from as int),
            current@ == text::last_piece(body.take(at - from), breaks),
            gap@ == open_gap(body.take(at - from), breaks, leading, verbatim),
            names == text::closed_pieces(body.take(at - from), breaks).len(),
            names <= at - from,
            part_views(parts@) == name_parts(
                text::closed_pieces(body.take(at - from), breaks),
                leading,
                verbatim,
            ),
            text::views(gaps@) == closed_gaps(body.take(at - from), breaks, leading, verbatim),
        decreases chars@.len() - at,
    {
        let ch: char = chars[at];
        proof {
            let before = body.take(at - from);
            let closed = text::closed_pieces(before, breaks);
            let now = body.take(at + 1 - from);
            assert(now.drop_last() =~= before);
            assert(now.last() == ch);
            assert(closed.push(current@).drop_last() =~= closed);
        }
        if text::is_break(breaks, ch) {
            match part_for(current.as_str(), names, leading, verbatim) {
                Some(part) => {
                    let ghost kept = parts@;
                    let ghost told = gaps@;
                    parts.push(part);
                    gaps.push(gap);
                    assert(part_views(parts@) =~= part_views(kept).push(part@));
                    assert(text::views(gaps@) =~= text::views(told).push(gap@));
                    gap = String::new();
                    gap.push(ch);
                    assert(gap@ =~= seq![ch]);
                },
                None => {
                    gap.append(current.as_str());
                    gap.push(ch);
                },
            }
            if !current.as_str().is_empty() {
                names = names + 1;
            }
            current = String::new();
            assert(current@ =~= Seq::<char>::empty());
        } else {
            current.push(ch);
        }
        at = at + 1;
    }
    proof {
        let closed = text::closed_pieces(body, breaks);
        assert(body.take(chars@.len() - from) =~= body);
        assert(closed.push(current@).drop_last() =~= closed);
    }
    let mut tail: String = String::new();
    assert(tail@ =~= Seq::<char>::empty());
    match part_for(current.as_str(), names, leading, verbatim) {
        Some(part) => {
            let ghost kept = parts@;
            let ghost told = gaps@;
            parts.push(part);
            gaps.push(gap);
            assert(part_views(parts@) =~= part_views(kept).push(part@));
            assert(text::views(gaps@) =~= text::views(told).push(gap@));
        },
        None => {
            tail = gap;
            tail.append(current.as_str());
        },
    }
    (parts, gaps, tail)
}

/// Reads the prefix and root of a path text, with what is written before each.
fn read_head(chars: &Vec<char>, end: usize, rooted: bool, from: usize) -> (result: (
    Vec<PathPart>,
    Vec<String>,
))
    requires
        end <= from <= chars@.len(),
    ensures
        part_views(result.0@) == head_parts(chars@, end as int, rooted),
        text::views(result.1@) == head_gaps(
            end as int,
            rooted,
            chars@.subrange(end as int, from as int),
        ),
{
    let mut parts: Vec<PathPart> = Vec::new();
    let mut gaps: Vec<String> = Vec::new();
    if end > 0 {
        parts.push(PathPart::Prefix(text::text_of(chars, 0, end)));
        let nothing: String = String::new();
        assert(nothing@ =~= Seq::<char>::empty());
        gaps.push(nothing);
    }
    if rooted {
        parts.push(PathPart::Root);
        gaps.push(text::text_of(chars, end, from));
    }
    proof {
        assert(chars@.subrange(0, end as int) =~= chars@.take(end as int));
        assert(part_views(parts@) =~= head_parts(chars@, end as int, rooted));
        assert(text::views(gaps@) =~= head_gaps(
            end as int,
            rooted,
            chars@.subrange(end as int, from as int),
        ));
    }
    (parts, gaps)
}

/// Reads a path text whose prefix, if it has one, takes `end` characters.
#[verifier::rlimit(30)]
fn parse_after(
    style: PathStyle,
    chars: &Vec<char>,
    end: usize,
    breaks: Breaks,
    always_rooted: bool,
    verbatim: bool,
) -> (result: RomPath)
    requires
        end <= chars@.len(),
    ensures
        result@ == read_after(style, chars@, end as int, breaks, always_rooted, verbatim),
{
    let separated: bool = end < chars.len() && (text::is_break(breaks, chars[end]) || (verbatim
        && chars[end] == '/'));
    let rooted: bool = separated || always_rooted;
    let from: usize = if separated {
        end + 1
    } else {
        end
    };
    let (mut parts, mut gaps): (Vec<PathPart>, Vec<String>) = read_head(chars, end, rooted, from);
    let (mut names, mut between, tail): (Vec<PathPart>, Vec<String>, String) = read_names(
        chars,
        from,
        breaks,
        end == 0 && !rooted,
        verbatim,
    );
    let ghost head = parts@;
    let ghost front = gaps@;
    let ghost more = names@;
    let ghost others = between@;
    parts.append(&mut names);
    gaps.append(&mut between);
    proof {
        let rest = chars@.skip(end as int);
        let separator = if separated {
            rest.take(1)
        } else {
            Seq::empty()
        };
        assert(chars@.subrange(end as int, from as int) =~= separator);
        assert(rest.skip(separator.len() as int) =~= chars@.skip(from as int));
        assert(part_views(parts@) =~= part_views(head) + part_views(more));
        assert(text::views(gaps@) =~= text::views(front) + text::views(others));
    }
    RomPath { style, parts, gaps, tail }
}

/// Whether a path has a verbatim prefix.
fn starts_verbatim(parts: &Vec<PathPart>) -> (result: bool)
    ensures
        result == begins_verbatim(part_views(parts@)),
{
    if parts.len() == 0 {
        return false;
    }
    assert(part_views(parts@)[0] == parts@[0]@);
    match &parts[0] {
        PathPart::Prefix(prefix) => match kind_of_prefix(prefix.as_str()) {
            Some(kind) => kind.is_verbatim(),
            None => false,
        },
        _ => false,
    }
}

/// A path taken relative to a verbatim one.
fn walk(base: &Vec<PathPart>, other: &Vec<PathPart>) -> (result: Vec<PathPart>)
    requires
        base@.len() > 0,
    ensures
        part_views(result@) == walked_from(part_views(base@), part_views(other@)),
{
    let ghost start = part_views(base@);
    let ghost all = part_views(other@);
    let mut parts: Vec<PathPart> = copy_parts(base, 0, base.len());
    assert(part_views(parts@) =~= start);
    let mut at: usize = 0;
    assert(all.take(0) =~= Seq::<PartView>::empty());
    while at < other.len()
        invariant
            at <= other@.len(),
            all == part_views(other@),
            part_views(parts@) == walked(start, all.take(at as int)),
        decreases other@.len() - at,
    {
        let ghost earlier = part_views(parts@);
        proof {
            let now = all.take(at + 1);
            assert(now.drop_last() =~= all.take(at as int));
            assert(now.last() == other@[at as int]@);
        }
        match &other[at] {
            PathPart::Root => {
                parts.truncate(1);
                assert(part_views(parts@) =~= if earlier.len() > 1 {
                    earlier.take(1)
                } else {
                    earlier
                });
                let ghost kept = parts@;
                parts.push(PathPart::Root);
                assert(part_views(parts@) =~= part_views(kept).push(PartView::Root));
            },
            PathPart::Current => {},
            PathPart::Parent => {
                let length: usize = parts.len();
                let named: bool = length > 0 && match &parts[length - 1] {
                    PathPart::Name(_) => true,
                    PathPart::Opaque(_) => true,
                    _ => false,
                };
                assert(length > 0 ==> earlier.last() == parts@[length - 1]@);
                if named {
                    parts.truncate(length - 1);
                    assert(part_views(parts@) =~= earlier.drop_last());
                }
            },
            part => {
                let ghost kept = parts@;
                parts.push(part.clone());
                assert(part_views(parts@) =~= part_views(kept).push(part@));
            },
        }
        at = at + 1;
    }
    assert(all.take(other@.len() as int) =~= all);
    let ghost reached = part_views(parts@);
    if base.len() == 1 && parts.len() >= 2 {
        assert(reached[1] == parts@[1]@);
        let rooted: bool = match &parts[1] {
            PathPart::Root => true,
            _ => false,
        };
        if !rooted {
            parts.insert(1, PathPart::Root);
            assert(part_views(parts@) =~= reached.insert(1, PartView::Root));
        }
    }
    parts
}

/// The dot before the extension of a name, where it has one.
fn find_extension(chars: &Vec<char>) -> (result: Option<usize>)
    ensures
        match result {
            Some(dot) => 0 < dot < chars@.len() && dot == last_dot(chars@),
            None => last_dot(chars@) <= 0,
        },
{
    let mut at: usize = chars.len();
    assert(chars@.take(chars@.len() as int) =~= chars@);
    while at > 0
        invariant
            at <= chars@.len(),
            last_dot(chars@) == last_dot(chars@.take(at as int)),
        decreases at,
    {
        assert(chars@.take(at as int).drop_last() =~= chars@.take(at - 1));
        if chars[at - 1] == '.' {
            if at == 1 {
                return None;
            }
            return Some(at - 1);
        }
        at = at - 1;
    }
    None
}

/// The separator that a path is displayed with.
fn separator_of(style: PathStyle) -> (result: char)
    ensures
        result == separator(style),
{
    match style {
        PathStyle::Windows => '\\',
        PathStyle::Unix => '/',
    }
}

/// The text of a part, where it is text.
fn text_of_part(style: PathStyle, part: &PathPart) -> (result: Option<String>)
    ensures
        option_text(result) == part_text(style, part@),
{
    match part {
        PathPart::Prefix(text) => Some(text.clone()),
        PathPart::Root => {
            let mut text: String = String::new();
            text.push(separator_of(style));
            assert(text@ =~= seq![separator(style)]);
            Some(text)
        },
        PathPart::Current => {
            proof {
                reveal_strlit(".");
                assert("."@ =~= seq!['.']);
            }
            Some(".".to_owned())
        },
        PathPart::Parent => {
            proof {
                reveal_strlit("..");
                assert(".."@ =~= seq!['.', '.']);
            }
            Some("..".to_owned())
        },
        PathPart::Name(text) => Some(text.clone()),
        PathPart::Opaque(_) => None,
    }
}

}
