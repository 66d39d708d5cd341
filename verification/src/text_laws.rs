//! What holds of texts, character by character.

use vstd::prelude::*;
use crate::text;
use crate::text::Breaks;

verus! {

// ---------------------------------------------------------------------------------------------
// Letters

/// Two characters that are the same, or an ASCII letter in its two cases.
pub open spec fn same_letter(one: char, other: char) -> bool {
    ||| one == other
    ||| 'A' <= one <= 'Z' && other as int == one as int + 32
    ||| 'A' <= other <= 'Z' && one as int == other as int + 32
}

/// Two texts that differ in the case of ASCII letters at most.
pub open spec fn same_but_case(one: Seq<char>, other: Seq<char>) -> bool {
    one.len() == other.len() && forall|k: int|
        0 <= k < one.len() ==> same_letter(#[trigger] one[k], other[k])
}

/// `small` is `text` with `A` to `Z` written small, and nothing else changed.
pub open spec fn is_written_small(text: Seq<char>, small: Seq<char>) -> bool {
    small.len() == text.len() && forall|k: int|
        0 <= k < text.len() ==> (#[trigger] small[k]) as int == text[k] as int + if 'A' <= text[k]
            <= 'Z' {
            32int
        } else {
            0
        }
}

/// The lower case of a text is the text with `A` to `Z` written small, and nothing else changed.
pub proof fn lemma_lower_letter_by_letter(text: Seq<char>)
    ensures
        is_written_small(text, text::lower(text)),
{
}

/// There is only one way to write a text small.
pub proof fn lemma_written_small_in_one_way(text: Seq<char>, small: Seq<char>)
    requires
        is_written_small(text, small),
    ensures
        small == text::lower(text),
{
    assert(small =~= text::lower(text)) by {
        assert forall|k: int| 0 <= k < text.len() implies small[k] == text::lower(text)[k] by {
            assert(small[k] as int == text::lower(text)[k] as int);
        }
    }
}

/// Two texts have the same lower case exactly when they differ in the case of ASCII letters at
/// most.
pub proof fn lemma_same_but_case(one: Seq<char>, other: Seq<char>)
    ensures
        text::lower(one) == text::lower(other) <==> same_but_case(one, other),
{
    let small = text::lower(one);
    let other_small = text::lower(other);
    if small == other_small {
        assert(one.len() == small.len() && other.len() == other_small.len());
        assert forall|k: int| 0 <= k < one.len() implies same_letter(#[trigger] one[k], other[k]) by {
            assert(small[k] == other_small[k]);
            assert(small[k] == text::lower_char(one[k]));
            assert(other_small[k] == text::lower_char(other[k]));
        }
    }
    if same_but_case(one, other) {
        assert forall|k: int| 0 <= k < one.len() implies small[k] == other_small[k] by {
            assert(same_letter(one[k], other[k]));
        }
        assert(small =~= other_small);
    }
}

// ---------------------------------------------------------------------------------------------
// Occurrences

/// The characters of `needle` stand in `text` one after the other, from `at` on.
pub open spec fn stands_at(text: Seq<char>, needle: Seq<char>, at: int) -> bool {
    0 <= at && at + needle.len() <= text.len() && forall|k: int|
        0 <= k < needle.len() ==> text[at + k] == #[trigger] needle[k]
}

/// A text contains another exactly when the other's characters stand in it one after the other.
pub proof fn lemma_contains_by_characters(text: Seq<char>, needle: Seq<char>)
    ensures
        text::has_infix(text, needle) <==> exists|at: int| stands_at(text, needle, at),
{
    if text::has_infix(text, needle) {
        let at = choose|at: int| text::is_at(text, needle, at);
        let part = text.subrange(at, at + needle.len());
        assert forall|k: int| 0 <= k < needle.len() implies text[at + k] == #[trigger] needle[k] by {
            assert(part[k] == needle[k]);
        }
        assert(stands_at(text, needle, at));
    }
    if exists|at: int| stands_at(text, needle, at) {
        let at = choose|at: int| stands_at(text, needle, at);
        assert(text.subrange(at, at + needle.len()) =~= needle);
        assert(text::is_at(text, needle, at));
    }
}

/// A text contains what stands between two others that make it up with it.
pub proof fn lemma_contains_its_middle(before: Seq<char>, middle: Seq<char>, after: Seq<char>)
    ensures
        text::has_infix(before + middle + after, middle),
{
    let whole = before + middle + after;
    assert(whole.subrange(before.len() as int, (before.len() + middle.len()) as int) =~= middle);
    assert(text::is_at(whole, middle, before.len() as int));
}

// ---------------------------------------------------------------------------------------------
// Order

/// A text comes before another exactly when it is a beginning of it, or has the smaller character
/// where the two first differ.
pub proof fn lemma_order_by_first_difference(left: Seq<char>, right: Seq<char>)
    ensures
        text::precedes(left, right) <==> exists|k: int| #[trigger] differs_first(left, right, k),
    decreases left.len(),
{
    if left.len() > 0 && right.len() > 0 && left[0] == right[0] {
        let less = left.skip(1);
        let more = right.skip(1);
        lemma_order_by_first_difference(less, more);
        if exists|k: int| #[trigger] differs_first(left, right, k) {
            let k = choose|k: int| #[trigger] differs_first(left, right, k);
            assert(k > 0);
            assert forall|j: int| 0 <= j < k - 1 implies #[trigger] less[j] == more[j] by {
                assert(left[j + 1] == right[j + 1]);
            }
            assert(differs_first(less, more, k - 1));
        }
        if exists|k: int| #[trigger] differs_first(less, more, k) {
            let k = choose|k: int| #[trigger] differs_first(less, more, k);
            assert forall|j: int| 0 <= j < k + 1 implies #[trigger] left[j] == right[j] by {
                if j > 0 {
                    assert(less[j - 1] == more[j - 1]);
                }
            }
            assert(differs_first(left, right, k + 1));
        }
    } else if right.len() > 0 {
        if left.len() == 0 || left[0] < right[0] {
            assert(differs_first(left, right, 0));
        } else {
            assert forall|k: int| !(#[trigger] differs_first(left, right, k)) by {
                if differs_first(left, right, k) && k > 0 {
                    assert(left[0] == right[0]);
                }
            }
        }
    }
}

/// Two texts agree up to `at`, and there the first one ends or has the smaller character.
pub open spec fn differs_first(left: Seq<char>, right: Seq<char>, at: int) -> bool {
    &&& 0 <= at <= left.len() && at < right.len()
    &&& forall|k: int| 0 <= k < at ==> #[trigger] left[k] == right[k]
    &&& at == left.len() || left[at] < right[at]
}

// ---------------------------------------------------------------------------------------------
// Lists of texts

/// Nothing joined is nothing, and one text is itself.
pub proof fn lemma_joined_short(one: Seq<char>, separator: Seq<char>)
    ensures
        text::joined(Seq::empty(), separator) == Seq::<char>::empty(),
        text::joined(seq![one], separator) == one,
{
}

/// Two lists joined together are the one, the separator and the other.
pub proof fn lemma_joined_in_turn(
    one: Seq<Seq<char>>,
    other: Seq<Seq<char>>,
    separator: Seq<char>,
)
    requires
        one.len() > 0,
        other.len() > 0,
    ensures
        text::joined(one + other, separator) == text::joined(one, separator) + separator
            + text::joined(other, separator),
    decreases other.len(),
{
    let both = one + other;
    assert(both.drop_last() =~= one + other.drop_last());
    if other.len() == 1 {
        assert(one + other.drop_last() =~= one);
        assert(text::joined(other, separator) == other[0]);
    } else {
        lemma_joined_in_turn(one, other.drop_last(), separator);
        assert(text::joined(both, separator) =~= text::joined(one, separator) + separator
            + text::joined(other, separator));
    }
}

// ---------------------------------------------------------------------------------------------
// Pieces

/// No character of a text is a break.
pub open spec fn is_unbroken(text: Seq<char>, breaks: Breaks) -> bool {
    forall|k: int| 0 <= k < text.len() ==> !text::breaks_at(breaks, #[trigger] text[k])
}

/// Texts break at what their breaks are named for.
pub proof fn lemma_breaks_by_character(ch: char)
    ensures
        text::breaks_at(Breaks::NonWords, ch) <==> !('a' <= ch <= 'z' || 'A' <= ch <= 'Z' || '0'
            <= ch <= '9'),
        text::breaks_at(Breaks::Slashes, ch) <==> ch == '/',
        text::breaks_at(Breaks::Backslashes, ch) <==> ch == '\\',
        text::breaks_at(Breaks::BothSlashes, ch) <==> ch == '/' || ch == '\\',
{
}

/// A text without breaks is one piece, and nothing has none.
pub proof fn lemma_unbroken_is_one_piece(text: Seq<char>, breaks: Breaks)
    requires
        is_unbroken(text, breaks),
    ensures
        text::last_piece(text, breaks) == text,
        text::closed_pieces(text, breaks) == Seq::<Seq<char>>::empty(),
        text::pieces(text, breaks) == if text.len() > 0 {
            seq![text]
        } else {
            Seq::empty()
        },
    decreases text.len(),
{
    if text.len() > 0 {
        let before = text.drop_last();
        assert forall|k: int| 0 <= k < before.len() implies !text::breaks_at(
            breaks,
            #[trigger] before[k],
        ) by {
            assert(before[k] == text[k]);
        }
        lemma_unbroken_is_one_piece(before, breaks);
        assert(!text::breaks_at(breaks, text[text.len() - 1]));
        assert(before.push(text.last()) =~= text);
        assert(text::pieces(text, breaks) =~= seq![text]);
    } else {
        assert(text =~= Seq::<char>::empty());
        assert(text::pieces(text, breaks) =~= Seq::<Seq<char>>::empty());
    }
}

/// The pieces of a text with a break in it are those before the break and those after it.
pub proof fn lemma_pieces_on_both_sides(
    before: Seq<char>,
    ch: char,
    after: Seq<char>,
    breaks: Breaks,
)
    requires
        text::breaks_at(breaks, ch),
    ensures
        text::pieces(before.push(ch) + after, breaks) == text::pieces(before, breaks)
            + text::pieces(after, breaks),
{
    lemma_pieces_after_break(before, ch, after, breaks);
    let whole = before.push(ch) + after;
    assert(text::pieces(whole, breaks) =~= text::pieces(before, breaks) + text::pieces(
        after,
        breaks,
    ));
}

proof fn lemma_pieces_after_break(before: Seq<char>, ch: char, after: Seq<char>, breaks: Breaks)
    requires
        text::breaks_at(breaks, ch),
    ensures
        text::last_piece(before.push(ch) + after, breaks) == text::last_piece(after, breaks),
        text::closed_pieces(before.push(ch) + after, breaks) == text::pieces(before, breaks)
            + text::closed_pieces(after, breaks),
    decreases after.len(),
{
    let whole = before.push(ch) + after;
    if after.len() == 0 {
        assert(whole =~= before.push(ch));
        assert(whole.drop_last() =~= before);
        assert(text::closed_pieces(whole, breaks) =~= text::pieces(before, breaks)
            + text::closed_pieces(after, breaks));
    } else {
        assert(whole.drop_last() =~= before.push(ch) + after.drop_last());
        assert(whole.last() == after.last());
        lemma_pieces_after_break(before, ch, after.drop_last(), breaks);
        assert(text::closed_pieces(whole, breaks) =~= text::pieces(before, breaks)
            + text::closed_pieces(after, breaks));
    }
}

// ---------------------------------------------------------------------------------------------
// White space

/// All characters of a text are white space.
pub open spec fn is_blank(text: Seq<char>) -> bool {
    forall|k: int| 0 <= k < text.len() ==> text::is_white_space(#[trigger] text[k])
}

/// Trimming takes away the white space at the two ends of a text, and nothing else.
pub proof fn lemma_trimming_leaves_the_middle(
    before: Seq<char>,
    middle: Seq<char>,
    after: Seq<char>,
)
    requires
        is_blank(before),
        is_blank(after),
        middle.len() > 0 ==> !text::is_white_space(middle[0]) && !text::is_white_space(
            middle.last(),
        ),
    ensures
        text::trim(before + middle + after) == middle,
    decreases before.len(),
{
    let whole = before + middle + after;
    if before.len() > 0 {
        assert(text::is_white_space(before[0]));
        assert(whole.skip(1) =~= before.skip(1) + middle + after);
        assert forall|k: int| 0 <= k < before.skip(1).len() implies text::is_white_space(
            #[trigger] before.skip(1)[k],
        ) by {
            assert(before[k + 1] == before.skip(1)[k]);
        }
        lemma_trimming_leaves_the_middle(before.skip(1), middle, after);
    } else {
        assert(whole =~= middle + after);
        if middle.len() == 0 {
            assert(whole =~= after);
            lemma_blank_is_trimmed(after);
            assert(middle =~= Seq::<char>::empty());
        } else {
            assert(whole[0] == middle[0]);
            lemma_end_is_trimmed(middle, after);
        }
    }
}

proof fn lemma_end_is_trimmed(middle: Seq<char>, after: Seq<char>)
    requires
        is_blank(after),
        middle.len() > 0,
        !text::is_white_space(middle.last()),
    ensures
        text::trim_end(middle + after) == middle,
    decreases after.len(),
{
    let whole = middle + after;
    if after.len() == 0 {
        assert(whole =~= middle);
    } else {
        assert(text::is_white_space(after[after.len() - 1]));
        assert(whole.drop_last() =~= middle + after.drop_last());
        assert forall|k: int| 0 <= k < after.drop_last().len() implies text::is_white_space(
            #[trigger] after.drop_last()[k],
        ) by {
            assert(after[k] == after.drop_last()[k]);
        }
        lemma_end_is_trimmed(middle, after.drop_last());
    }
}

proof fn lemma_blank_is_trimmed(text: Seq<char>)
    requires
        is_blank(text),
    ensures
        text::trim(text) == Seq::<char>::empty(),
    decreases text.len(),
{
    if text.len() > 0 {
        assert(text::is_white_space(text[0]));
        assert forall|k: int| 0 <= k < text.skip(1).len() implies text::is_white_space(
            #[trigger] text.skip(1)[k],
        ) by {
            assert(text[k + 1] == text.skip(1)[k]);
        }
        lemma_blank_is_trimmed(text.skip(1));
    } else {
        assert(text =~= Seq::<char>::empty());
    }
}

// ---------------------------------------------------------------------------------------------
// Numbers

/// The number that digits tell, read from the left.
pub open spec fn told_by(digits: Seq<char>) -> int
    decreases digits.len(),
{
    if digits.len() == 0 {
        0
    } else {
        told_by(digits.drop_last()) * 10 + (digits.last() as int - 48)
    }
}

/// A number is written in the digits zero to nine, without a zero in front unless it is zero, and
/// is what the digits tell.
pub proof fn lemma_digits_tell_the_number(value: nat)
    ensures
        text::decimal(value).len() > 0,
        forall|k: int|
            0 <= k < text::decimal(value).len() ==> '0' <= #[trigger] text::decimal(value)[k]
                <= '9',
        value > 0 ==> text::decimal(value)[0] != '0',
        told_by(text::decimal(value)) == value,
    decreases value,
{
    let digits = text::decimal(value);
    if value < 10 {
        assert(digits.drop_last() =~= Seq::<char>::empty());
        assert(told_by(digits.drop_last()) == 0);
        assert(digits.last() as int == 48 + value);
    } else {
        lemma_digits_tell_the_number(value / 10);
        assert(digits.drop_last() =~= text::decimal(value / 10));
        assert(digits.last() as int == 48 + value % 10);
    }
}

}
