//! Text as a sequence of characters: the few string operations the crate needs.

use vstd::prelude::*;

verus! {

/// `String::push` appends one character to the end of the string.
pub assume_specification[ std::string::String::push ](string: &mut String, ch: char)
    ensures
        final(string)@ == old(string)@.push(ch),
;

/// The characters that Unicode gives the property `White_Space`.
pub open spec fn is_white_space(ch: char) -> bool {
    '\u{9}' <= ch <= '\u{d}' || ch == ' ' || ch == '\u{85}' || ch == '\u{a0}' || ch == '\u{1680}'
        || '\u{2000}' <= ch <= '\u{200a}' || ch == '\u{2028}' || ch == '\u{2029}' || ch
        == '\u{202f}' || ch == '\u{205f}' || ch == '\u{3000}'
}

/// `char::is_whitespace` tells whether a character has the Unicode property `White_Space`; the
/// characters that have it are listed in [`is_white_space`].
pub assume_specification[ char::is_whitespace ](ch: char) -> (result: bool)
    ensures
        result == is_white_space(ch),
;

/// The characters of each text of a list.
pub open spec fn views(texts: Seq<String>) -> Seq<Seq<char>> {
    texts.map_values(|text: String| text@)
}

/// The ASCII lower case of one character.
pub open spec fn lower_char(ch: char) -> char {
    if 'A' <= ch <= 'Z' {
        ((ch as u32) + 32) as char
    } else {
        ch
    }
}

/// A text with its ASCII upper case letters in lower case.
pub open spec fn lower(text: Seq<char>) -> Seq<char> {
    text.map_values(|ch: char| lower_char(ch))
}

/// `needle` occurs in `text` at the given position.
pub open spec fn is_at(text: Seq<char>, needle: Seq<char>, at: int) -> bool {
    0 <= at && at + needle.len() <= text.len() && text.subrange(at, at + needle.len()) == needle
}

/// `needle` occurs somewhere in `text`.
pub open spec fn has_infix(text: Seq<char>, needle: Seq<char>) -> bool {
    exists|at: int| is_at(text, needle, at)
}

/// The order of texts by their characters, a text coming after each of its own beginnings.
pub open spec fn precedes(left: Seq<char>, right: Seq<char>) -> bool
    decreases left.len(),
{
    if right.len() == 0 {
        false
    } else if left.len() == 0 {
        true
    } else if left[0] == right[0] {
        precedes(left.skip(1), right.skip(1))
    } else {
        left[0] < right[0]
    }
}

/// The texts of a list with `separator` between neighbours.
pub open spec fn joined(texts: Seq<Seq<char>>, separator: Seq<char>) -> Seq<char>
    decreases texts.len(),
{
    if texts.len() == 0 {
        Seq::empty()
    } else if texts.len() == 1 {
        texts[0]
    } else {
        joined(texts.drop_last(), separator) + separator + texts.last()
    }
}

/// What separates the pieces of a text.
#[derive(Clone, Copy, PartialEq, Eq, Debug, Structural)]
pub enum Breaks {
    /// Everything but ASCII letters and digits.
    NonWords,
    /// Forward slashes.
    Slashes,
    /// Backward slashes.
    Backslashes,
    /// Forward and backward slashes.
    BothSlashes,
}

/// ASCII letters and digits.
pub open spec fn is_word_char(ch: char) -> bool {
    'a' <= ch <= 'z' || 'A' <= ch <= 'Z' || '0' <= ch <= '9'
}

/// Whether the pieces of a text break at this character.
pub open spec fn breaks_at(breaks: Breaks, ch: char) -> bool {
    match breaks {
        Breaks::NonWords => !is_word_char(ch),
        Breaks::Slashes => ch == '/',
        Breaks::Backslashes => ch == '\\',
        Breaks::BothSlashes => ch == '/' || ch == '\\',
    }
}

/// The piece that a text ends in: what stands after its last break.
pub open spec fn last_piece(text: Seq<char>, breaks: Breaks) -> Seq<char>
    decreases text.len(),
{
    if text.len() == 0 || breaks_at(breaks, text.last()) {
        Seq::empty()
    } else {
        last_piece(text.drop_last(), breaks).push(text.last())
    }
}

/// The pieces of a text that a break closes, empty ones left out.
pub open spec fn closed_pieces(text: Seq<char>, breaks: Breaks) -> Seq<Seq<char>>
    decreases text.len(),
{
    if text.len() == 0 {
        Seq::empty()
    } else {
        let before = text.drop_last();
        if breaks_at(breaks, text.last()) && last_piece(before, breaks).len() > 0 {
            closed_pieces(before, breaks).push(last_piece(before, breaks))
        } else {
            closed_pieces(before, breaks)
        }
    }
}

/// The pieces of a text between its breaks, in order, empty ones left out.
pub open spec fn pieces(text: Seq<char>, breaks: Breaks) -> Seq<Seq<char>> {
    if last_piece(text, breaks).len() > 0 {
        closed_pieces(text, breaks).push(last_piece(text, breaks))
    } else {
        closed_pieces(text, breaks)
    }
}

/// A text without white space at its end.
pub open spec fn trim_end(text: Seq<char>) -> Seq<char>
    decreases text.len(),
{
    if text.len() > 0 && is_white_space(text.last()) {
        trim_end(text.drop_last())
    } else {
        text
    }
}

/// A text without white space at its two ends.
pub open spec fn trim(text: Seq<char>) -> Seq<char>
    decreases text.len(),
{
    if text.len() > 0 && is_white_space(text[0]) {
        trim(text.skip(1))
    } else {
        trim_end(text)
    }
}

/// One decimal digit.
pub open spec fn digit(value: nat) -> char {
    ((('0' as u32) + value) as u32) as char
}

/// A number in decimal digits.
pub open spec fn decimal(value: nat) -> Seq<char>
    decreases value,
{
    if value < 10 {
        seq![digit(value)]
    } else {
        decimal(value / 10).push(digit(value % 10))
    }
}

/// The order of texts is transitive.
pub proof fn lemma_precedes_transitive(a: Seq<char>, b: Seq<char>, c: Seq<char>)
    requires
        precedes(a, b),
        precedes(b, c),
    ensures
        precedes(a, c),
    decreases a.len(),
{
    if a.len() > 0 && b.len() > 0 && c.len() > 0 && a[0] == b[0] && b[0] == c[0] {
        lemma_precedes_transitive(a.skip(1), b.skip(1), c.skip(1));
    }
}

/// Of two texts at most one precedes the other, and none precedes itself.
pub proof fn lemma_precedes_asymmetric(a: Seq<char>, b: Seq<char>)
    ensures
        precedes(a, b) ==> !precedes(b, a) && a != b,
    decreases a.len(),
{
    if a.len() > 0 && b.len() > 0 && a[0] == b[0] {
        lemma_precedes_asymmetric(a.skip(1), b.skip(1));
    }
}

/// Of two different texts one precedes the other.
pub proof fn lemma_precedes_total(a: Seq<char>, b: Seq<char>)
    ensures
        precedes(a, b) || precedes(b, a) || a == b,
    decreases a.len(),
{
    if a.len() > 0 && b.len() > 0 && a[0] == b[0] {
        lemma_precedes_total(a.skip(1), b.skip(1));
        if a.skip(1) == b.skip(1) {
            assert(a =~= seq![a[0]] + a.skip(1));
            assert(b =~= seq![b[0]] + b.skip(1));
        }
    } else if a.len() == 0 && b.len() == 0 {
        assert(a =~= b);
    }
}

/// A text in lower case stays as it is.
pub proof fn lemma_lower_twice(text: Seq<char>)
    ensures
        lower(lower(text)) == lower(text),
{
    assert(lower(lower(text)) =~= lower(text));
}

/// The ASCII lower case of one character.
pub fn lower_one(ch: char) -> (result: char)
    ensures
        result == lower_char(ch),
{
    if 'A' <= ch && ch <= 'Z' {
        ((ch as u8) + 32) as char
    } else {
        ch
    }
}

/// A text in ASCII lower case.
pub fn to_lower(text: &str) -> (result: String)
    ensures
        result@ == lower(text@),
{
    let mut result: String = String::new();
    for ch in it: text.chars()
        invariant
            result@ == lower(text@.take(it.index())),
            it.seq() == text@,
    {
        result.push(lower_one(ch));
        assert(text@.take(it.index() + 1) =~= text@.take(it.index()).push(ch));
        assert(result@ =~= lower(text@.take(it.index() + 1)));
    }
    assert(text@.take(text@.len() as int) =~= text@);
    result
}

/// The characters of a text, one by one.
pub fn chars_of(text: &str) -> (result: Vec<char>)
    ensures
        result@ == text@,
{
    let mut result: Vec<char> = Vec::new();
    for ch in it: text.chars()
        invariant
            result@ == text@.take(it.index()),
            it.seq() == text@,
    {
        result.push(ch);
        assert(text@.take(it.index() + 1) =~= text@.take(it.index()).push(ch));
    }
    assert(text@.take(text@.len() as int) =~= text@);
    result
}

/// The text made of `chars[from..to]`.
pub fn text_of(chars: &Vec<char>, from: usize, to: usize) -> (result: String)
    requires
        from <= to <= chars@.len(),
    ensures
        result@ == chars@.subrange(from as int, to as int),
{
    let mut result: String = String::new();
    let mut at: usize = from;
    while at < to
        invariant
            from <= at <= to <= chars@.len(),
            result@ == chars@.subrange(from as int, at as int),
        decreases to - at,
    {
        result.push(chars[at]);
        at = at + 1;
        assert(result@ =~= chars@.subrange(from as int, at as int));
    }
    result
}

/// Whether two texts are the same.
pub fn same(left: &str, right: &str) -> (result: bool)
    ensures
        result == (left@ == right@),
{
    let mut left_chars = left.chars();
    let mut right_chars = right.chars();
    let ghost mut at: int = 0;
    loop
        invariant
            0 <= at <= left@.len(),
            at <= right@.len(),
            vstd::std_specs::iter::IteratorSpec::remaining(&left_chars) == left@.skip(at),
            vstd::std_specs::iter::IteratorSpec::remaining(&right_chars) == right@.skip(at),
            left@.take(at) == right@.take(at),
        decreases left@.len() - at,
    {
        match (left_chars.next(), right_chars.next()) {
            (Some(a), Some(b)) => {
                if a != b {
                    return false;
                }
                proof {
                    at = at + 1;
                }
            },
            (None, None) => {
                assert(left@.take(at) =~= left@);
                assert(right@.take(at) =~= right@);
                return true;
            },
            _ => {
                return false;
            },
        }
    }
}

/// Whether two texts are the same up to the case of ASCII letters.
pub fn same_ignoring_case(left: &str, right: &str) -> (result: bool)
    ensures
        result == (lower(left@) == lower(right@)),
{
    let left_lower: String = to_lower(left);
    let right_lower: String = to_lower(right);
    same(left_lower.as_str(), right_lower.as_str())
}

/// Whether `left` comes before `right` in the order of texts.
pub fn before(left: &str, right: &str) -> (result: bool)
    ensures
        result == precedes(left@, right@),
{
    let mut left_chars = left.chars();
    let mut right_chars = right.chars();
    let ghost mut at: int = 0;
    assert(left@.skip(0) =~= left@);
    assert(right@.skip(0) =~= right@);
    loop
        invariant
            0 <= at <= left@.len(),
            at <= right@.len(),
            vstd::std_specs::iter::IteratorSpec::remaining(&left_chars) == left@.skip(at),
            vstd::std_specs::iter::IteratorSpec::remaining(&right_chars) == right@.skip(at),
            precedes(left@, right@) == precedes(left@.skip(at), right@.skip(at)),
        decreases left@.len() - at,
    {
        match (left_chars.next(), right_chars.next()) {
            (Some(a), Some(b)) => {
                if a != b {
                    return a < b;
                }
                proof {
                    assert(left@.skip(at).skip(1) =~= left@.skip(at + 1));
                    assert(right@.skip(at).skip(1) =~= right@.skip(at + 1));
                    at = at + 1;
                }
            },
            (None, Some(_)) => {
                return true;
            },
            _ => {
                return false;
            },
        }
    }
}

/// Whether a text begins with the given one.
pub fn begins_with(text: &str, beginning: &str) -> (result: bool)
    ensures
        result == is_at(text@, beginning@, 0),
{
    let chars: Vec<char> = chars_of(text);
    let wanted: Vec<char> = chars_of(beginning);
    found_at(&chars, &wanted, 0)
}

/// Whether `wanted` stands in `chars` at the given position.
fn found_at(chars: &Vec<char>, wanted: &Vec<char>, at: usize) -> (result: bool)
    requires
        at <= chars@.len(),
    ensures
        result == is_at(chars@, wanted@, at as int),
{
    let length: usize = chars.len();
    if wanted.len() > length - at {
        return false;
    }
    let mut k: usize = 0;
    while k < wanted.len()
        invariant
            k <= wanted@.len(),
            length == chars@.len(),
            at + wanted@.len() <= length,
            forall|j: int| 0 <= j < k ==> chars@[at + j] == wanted@[j],
        decreases wanted@.len() - k,
    {
        if chars[at + k] != wanted[k] {
            assert(chars@.subrange(at as int, at + wanted@.len())[k as int] != wanted@[k as int]);
            return false;
        }
        k = k + 1;
    }
    assert(chars@.subrange(at as int, at + wanted@.len()) =~= wanted@);
    true
}

/// Whether `needle` occurs in `text`.
pub fn contains(text: &str, needle: &str) -> (result: bool)
    ensures
        result == has_infix(text@, needle@),
{
    let chars: Vec<char> = chars_of(text);
    let wanted: Vec<char> = chars_of(needle);
    let mut at: usize = 0;
    loop
        invariant
            at <= chars@.len(),
            chars@ == text@,
            wanted@ == needle@,
            forall|k: int| 0 <= k < at ==> !is_at(text@, needle@, k),
        decreases chars@.len() - at,
    {
        if found_at(&chars, &wanted, at) {
            assert(is_at(text@, needle@, at as int));
            return true;
        }
        if at == chars.len() {
            assert(forall|k: int| !is_at(text@, needle@, k));
            return false;
        }
        at = at + 1;
    }
}

/// Whether a list holds the given text.
pub fn holds(texts: &Vec<String>, wanted: &str) -> (result: bool)
    ensures
        result == views(texts@).contains(wanted@),
{
    let mut at: usize = 0;
    while at < texts.len()
        invariant
            at <= texts@.len(),
            forall|k: int| 0 <= k < at ==> views(texts@)[k] != wanted@,
        decreases texts@.len() - at,
    {
        if same(texts[at].as_str(), wanted) {
            assert(views(texts@)[at as int] == wanted@);
            return true;
        }
        at = at + 1;
    }
    false
}

/// Appends copies of the texts of a list, from the one with the number `from` on.
pub fn append_all(texts: &mut Vec<String>, more: &Vec<String>, from: usize)
    requires
        from <= more@.len(),
    ensures
        views(final(texts)@) == views(old(texts)@) + views(more@).skip(from as int),
{
    let ghost before = views(texts@);
    let ghost wanted = views(more@).skip(from as int);
    let mut at: usize = from;
    assert(before + wanted.take(0) =~= before);
    while at < more.len()
        invariant
            from <= at <= more@.len(),
            wanted == views(more@).skip(from as int),
            views(texts@) == before + wanted.take(at - from),
        decreases more@.len() - at,
    {
        let ghost earlier = texts@;
        texts.push(more[at].clone());
        assert(views(texts@) =~= views(earlier).push(more@[at as int]@));
        assert(wanted[at - from] == more@[at as int]@);
        at = at + 1;
        assert(views(texts@) =~= before + wanted.take(at - from));
    }
    assert(wanted.take(more@.len() - from) =~= wanted);
}

/// A copy of a list of texts.
pub fn copy_all(texts: &Vec<String>) -> (result: Vec<String>)
    ensures
        views(result@) == views(texts@),
{
    let mut result: Vec<String> = Vec::new();
    append_all(&mut result, texts, 0);
    assert(views(result@) =~= views(texts@));
    result
}

/// The texts of a list with `separator` between neighbours.
pub fn join(texts: &Vec<String>, separator: &str) -> (result: String)
    ensures
        result@ == joined(views(texts@), separator@),
{
    let mut result: String = String::new();
    let mut at: usize = 0;
    while at < texts.len()
        invariant
            at <= texts@.len(),
            result@ == joined(views(texts@).take(at as int), separator@),
        decreases texts@.len() - at,
    {
        proof {
            let now = views(texts@).take(at + 1);
            assert(now.drop_last() =~= views(texts@).take(at as int));
            assert(now.last() == texts@[at as int]@);
        }
        if at > 0 {
            result.append(separator);
        } else {
            assert(result@ =~= Seq::<char>::empty());
            assert(Seq::<char>::empty() + texts@[0]@ =~= texts@[0]@);
        }
        result.append(texts[at].as_str());
        at = at + 1;
    }
    assert(views(texts@).take(texts@.len() as int) =~= views(texts@));
    result
}

/// Whether the pieces of a text break at this character.
pub fn is_break(breaks: Breaks, ch: char) -> (result: bool)
    ensures
        result == breaks_at(breaks, ch),
{
    match breaks {
        Breaks::NonWords => !(('a' <= ch && ch <= 'z') || ('A' <= ch && ch <= 'Z') || ('0' <= ch
            && ch <= '9')),
        Breaks::Slashes => ch == '/',
        Breaks::Backslashes => ch == '\\',
        Breaks::BothSlashes => ch == '/' || ch == '\\',
    }
}

/// The pieces of `chars[from..]` between its breaks, in order, empty ones left out.
pub fn split(chars: &Vec<char>, from: usize, breaks: Breaks) -> (result: Vec<String>)
    requires
        from <= chars@.len(),
    ensures
        views(result@) == pieces(chars@.skip(from as int), breaks),
{
    let mut result: Vec<String> = Vec::new();
    let mut current: String = String::new();
    let ghost rest = chars@.skip(from as int);
    let mut at: usize = from;
    assert(rest.take(0) =~= Seq::<char>::empty());
    assert(views(result@) =~= closed_pieces(rest.take(0), breaks));
    while at < chars.len()
        invariant
            from <= at <= chars@.len(),
            rest == chars@.skip(from as int),
            views(result@) == closed_pieces(rest.take(at - from), breaks),
            current@ == last_piece(rest.take(at - from), breaks),
        decreases chars@.len() - at,
    {
        let ch: char = chars[at];
        proof {
            let now = rest.take(at + 1 - from);
            assert(now.drop_last() =~= rest.take(at - from));
            assert(now.last() == ch);
        }
        if is_break(breaks, ch) {
            if !current.as_str().is_empty() {
                let ghost earlier = result@;
                result.push(current);
                assert(views(result@) =~= views(earlier).push(current@));
            }
            current = String::new();
        } else {
            current.push(ch);
        }
        at = at + 1;
    }
    assert(rest.take(chars@.len() - from) =~= rest);
    if !current.as_str().is_empty() {
        let ghost earlier = result@;
        result.push(current);
        assert(views(result@) =~= views(earlier).push(current@));
    }
    result
}

/// A text without white space at its two ends.
pub fn trimmed(text: &str) -> (result: String)
    ensures
        result@ == trim(text@),
{
    let chars: Vec<char> = chars_of(text);
    let mut from: usize = 0;
    assert(chars@.skip(0) =~= text@);
    while from < chars.len() && chars[from].is_whitespace()
        invariant
            from <= chars@.len(),
            trim(text@) == trim(chars@.skip(from as int)),
        decreases chars@.len() - from,
    {
        assert(chars@.skip(from as int).skip(1) =~= chars@.skip(from + 1));
        from = from + 1;
    }
    let mut to: usize = chars.len();
    assert(chars@.subrange(from as int, to as int) =~= chars@.skip(from as int));
    while to > from && chars[to - 1].is_whitespace()
        invariant
            from <= to <= chars@.len(),
            trim_end(chars@.skip(from as int)) == trim_end(
                chars@.subrange(from as int, to as int),
            ),
        decreases to - from,
    {
        assert(chars@.subrange(from as int, to as int).drop_last() =~= chars@.subrange(
            from as int,
            to - 1,
        ));
        to = to - 1;
    }
    text_of(&chars, from, to)
}

/// A number in decimal digits.
pub fn decimal_text(value: usize) -> (result: String)
    ensures
        result@ == decimal(value as nat),
    decreases value,
{
    let units: char = (48 + (value % 10) as u8) as char;
    let mut result: String = if value < 10 {
        String::new()
    } else {
        decimal_text(value / 10)
    };
    result.push(units);
    assert(value < 10 ==> result@ =~= seq![units]);
    result
}

}
