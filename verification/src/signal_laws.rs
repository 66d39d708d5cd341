//! What speaks for a platform, how much, and which platform wins.

use vstd::prelude::*;
use crate::classifier;
use crate::classifier::{ClassificationView, RuleView, Signals};
use crate::model::Confidence;
use crate::text;
use crate::text::Breaks;
use crate::text_laws;

verus! {

// ---------------------------------------------------------------------------------------------
// The words of a text

/// The words of a text without anything but letters and digits are the text, written small.
pub proof fn lemma_word_is_normalized(word: Seq<char>)
    requires
        forall|k: int|
            0 <= k < word.len() ==> ('a' <= #[trigger] word[k] <= 'z' || 'A' <= word[k] <= 'Z'
                || '0' <= word[k] <= '9'),
    ensures
        text_laws::is_written_small(word, classifier::normalized(word)),
{
    let small = text::lower(word);
    text_laws::lemma_lower_letter_by_letter(word);
    assert forall|k: int| 0 <= k < small.len() implies !text::breaks_at(
        Breaks::NonWords,
        #[trigger] small[k],
    ) by {
        assert('a' <= word[k] <= 'z' || 'A' <= word[k] <= 'Z' || '0' <= word[k] <= '9');
    }
    text_laws::lemma_unbroken_is_one_piece(small, Breaks::NonWords);
    if word.len() > 0 {
        text_laws::lemma_joined_short(small, " "@);
    } else {
        text_laws::lemma_joined_short(small, " "@);
        assert(small =~= Seq::<char>::empty());
    }
}

/// The words on the two sides of anything that is neither letter nor digit stand with one space
/// between them.
pub proof fn lemma_words_on_both_sides(before: Seq<char>, ch: char, after: Seq<char>)
    requires
        !('a' <= ch <= 'z' || 'A' <= ch <= 'Z' || '0' <= ch <= '9'),
    ensures
        ({
            let one = classifier::normalized(before);
            let other = classifier::normalized(after);
            classifier::normalized(before.push(ch) + after) == if one.len() == 0 {
                other
            } else if other.len() == 0 {
                one
            } else {
                one.push(' ') + other
            }
        }),
{
    reveal_strlit(" ");
    assert(" "@ =~= seq![' ']);
    let whole = before.push(ch) + after;
    let left = text::lower(before);
    let right = text::lower(after);
    assert(text::lower(whole) =~= left.push(ch) + right);
    text_laws::lemma_pieces_on_both_sides(left, ch, right, Breaks::NonWords);
    let one = text::pieces(left, Breaks::NonWords);
    let other = text::pieces(right, Breaks::NonWords);
    lemma_joined_pieces_are_not_empty(left);
    lemma_joined_pieces_are_not_empty(right);
    if one.len() == 0 {
        assert(one + other =~= other);
        text_laws::lemma_joined_short(left, " "@);
        assert(one =~= Seq::<Seq<char>>::empty());
    } else if other.len() == 0 {
        assert(one + other =~= one);
        text_laws::lemma_joined_short(left, " "@);
        assert(other =~= Seq::<Seq<char>>::empty());
    } else {
        text_laws::lemma_joined_in_turn(one, other, " "@);
        assert(text::joined(one, " "@) + " "@ + text::joined(other, " "@) =~= text::joined(
            one,
            " "@,
        ).push(' ') + text::joined(other, " "@));
    }
}

/// A text with pieces has something left when they are joined.
proof fn lemma_joined_pieces_are_not_empty(text: Seq<char>)
    ensures
        text::pieces(text, Breaks::NonWords).len() > 0 ==> text::joined(
            text::pieces(text, Breaks::NonWords),
            " "@,
        ).len() > 0,
{
    reveal_strlit(" ");
    let all = text::pieces(text, Breaks::NonWords);
    if all.len() == 1 {
        lemma_pieces_have_characters(text);
        assert(all[0].len() > 0);
    }
}

proof fn lemma_pieces_have_characters(text: Seq<char>)
    ensures
        forall|k: int|
            0 <= k < text::closed_pieces(text, Breaks::NonWords).len()
                ==> (#[trigger] text::closed_pieces(text, Breaks::NonWords)[k]).len() > 0,
    decreases text.len(),
{
    if text.len() > 0 {
        let before = text.drop_last();
        lemma_pieces_have_characters(before);
        let all = text::closed_pieces(text, Breaks::NonWords);
        let fewer = text::closed_pieces(before, Breaks::NonWords);
        assert forall|k: int| 0 <= k < all.len() implies (#[trigger] all[k]).len() > 0 by {
            if k < fewer.len() {
                assert(fewer[k] == all[k]);
            }
        }
    }
}

// ---------------------------------------------------------------------------------------------
// What speaks for a rule

/// A text is one of a list, whatever the case of the letters.
pub open spec fn is_listed(list: Seq<Seq<char>>, wanted: Seq<char>) -> bool {
    exists|k: int| 0 <= k < list.len() && text_laws::same_but_case(#[trigger] list[k], wanted)
}

/// The characters of a hint, written small, stand in a text from `at` on.
pub open spec fn stands_small(text: Seq<char>, hint: Seq<char>, at: int) -> bool {
    0 <= at && at + hint.len() <= text.len() && forall|k: int|
        0 <= k < hint.len() ==> text[at + k] as int == (#[trigger] hint[k]) as int + if 'A'
            <= hint[k] <= 'Z' {
            32int
        } else {
            0
        }
}

/// A hint, written small, stands somewhere in one of these texts.
pub open spec fn is_hinted(texts: Seq<Seq<char>>, hint: Seq<char>) -> bool {
    exists|t: int, at: int|
        0 <= t < texts.len() && #[trigger] stands_small(texts[t], hint, at)
}

/// One of these hints, written small, stands somewhere in one of these texts.
pub open spec fn is_any_hinted(texts: Seq<Seq<char>>, hints: Seq<Seq<char>>) -> bool {
    exists|h: int| 0 <= h < hints.len() && is_hinted(texts, #[trigger] hints[h])
}

/// A text stands among words, with a space or an end of the words on either side.
pub open spec fn surrounds(
    words: Seq<char>,
    before: Seq<char>,
    inner: Seq<char>,
    after: Seq<char>,
) -> bool {
    &&& words == before + inner + after
    &&& before.len() == 0 || before.last() == ' '
    &&& after.len() == 0 || after[0] == ' '
}

/// The words of an alias, if it has any, stand among these words, one after the other.
pub open spec fn is_aliased(words: Seq<char>, alias: Seq<char>) -> bool {
    classifier::normalized(alias).len() > 0 && exists|before: Seq<char>, after: Seq<char>|
        #[trigger] surrounds(words, before, classifier::normalized(alias), after)
}

/// The extension of the file is one of the platform's own.
pub open spec fn by_extension(rule: RuleView, signals: Signals) -> bool {
    signals.extension.len() > 0 && is_listed(rule.rom_extensions, signals.extension)
}

/// A folder hint stands in the name of the file or of a folder above it.
pub open spec fn by_folder(rule: RuleView, signals: Signals) -> bool {
    is_any_hinted(signals.folders, rule.folder_hints)
}

/// An alias stands among the words of the file name.
pub open spec fn by_alias(rule: RuleView, signals: Signals) -> bool {
    exists|k: int|
        0 <= k < rule.aliases.len() && is_aliased(signals.words, #[trigger] rule.aliases[k])
}

/// A dat token stands in a bracketed token of the file name.
pub open spec fn by_token(rule: RuleView, signals: Signals) -> bool {
    is_any_hinted(signals.tokens, rule.dat_tokens)
}

/// A member of the archive has an extension that is one of the platform's own.
pub open spec fn by_member(rule: RuleView, signals: Signals) -> bool {
    signals.members matches Some(members) && exists|j: int|
        0 <= j < members.len() && is_listed(rule.rom_extensions, #[trigger] members[j])
}

/// What the signals that speak for a rule weigh together: a member of an archive ninety, the
/// extension seventy, a dat token fifty, a folder hint forty and an alias thirty.
pub open spec fn weight(rule: RuleView, signals: Signals) -> nat {
    (if by_member(rule, signals) {
        90nat
    } else {
        0
    }) + (if by_extension(rule, signals) {
        70nat
    } else {
        0
    }) + (if by_token(rule, signals) {
        50nat
    } else {
        0
    }) + (if by_folder(rule, signals) {
        40nat
    } else {
        0
    }) + (if by_alias(rule, signals) {
        30nat
    } else {
        0
    })
}

proof fn lemma_listed(list: Seq<Seq<char>>, wanted: Seq<char>)
    ensures
        classifier::lists_extension(list, wanted) <==> is_listed(list, wanted),
{
    if classifier::lists_extension(list, wanted) {
        let k = choose|k: int|
            0 <= k < list.len() && text::lower(#[trigger] list[k]) == text::lower(wanted);
        text_laws::lemma_same_but_case(list[k], wanted);
    }
    if is_listed(list, wanted) {
        let k = choose|k: int|
            0 <= k < list.len() && text_laws::same_but_case(#[trigger] list[k], wanted);
        text_laws::lemma_same_but_case(list[k], wanted);
    }
}

proof fn lemma_stands_small(text: Seq<char>, hint: Seq<char>, at: int)
    ensures
        text_laws::stands_at(text, text::lower(hint), at) <==> stands_small(text, hint, at),
{
    let small = text::lower(hint);
    text_laws::lemma_lower_letter_by_letter(hint);
    if text_laws::stands_at(text, small, at) {
        assert forall|k: int| 0 <= k < hint.len() implies text[at + k] as int == (
        #[trigger] hint[k]) as int + if 'A' <= hint[k] <= 'Z' {
            32int
        } else {
            0
        } by {
            assert(text[at + k] == small[k]);
        }
    }
    if stands_small(text, hint, at) {
        assert forall|k: int| 0 <= k < small.len() implies text[at + k] == #[trigger] small[k] by {
            assert(small[k] as int == hint[k] as int + if 'A' <= hint[k] <= 'Z' {
                32int
            } else {
                0
            });
            assert(text[at + k] as int == small[k] as int);
        }
    }
}

proof fn lemma_hinted(texts: Seq<Seq<char>>, hints: Seq<Seq<char>>)
    ensures
        classifier::mentions_any(texts, hints) <==> is_any_hinted(texts, hints),
{
    assert forall|h: int| 0 <= h < hints.len() implies classifier::mentioned(
        texts,
        #[trigger] hints[h],
    ) == is_hinted(texts, hints[h]) by {
        let hint = hints[h];
        if classifier::mentioned(texts, hint) {
            let t = choose|t: int|
                0 <= t < texts.len() && text::has_infix(#[trigger] texts[t], text::lower(hint));
            text_laws::lemma_contains_by_characters(texts[t], text::lower(hint));
            let at = choose|at: int| text_laws::stands_at(texts[t], text::lower(hint), at);
            lemma_stands_small(texts[t], hint, at);
            assert(stands_small(texts[t], hint, at));
        }
        if is_hinted(texts, hint) {
            let (t, at) = choose|t: int, at: int|
                0 <= t < texts.len() && #[trigger] stands_small(texts[t], hint, at);
            lemma_stands_small(texts[t], hint, at);
            text_laws::lemma_contains_by_characters(texts[t], text::lower(hint));
            assert(text::has_infix(texts[t], text::lower(hint)));
        }
    }
    if classifier::mentions_any(texts, hints) {
        let h = choose|h: int|
            0 <= h < hints.len() && classifier::mentioned(texts, #[trigger] hints[h]);
        assert(is_hinted(texts, hints[h]));
    }
    if is_any_hinted(texts, hints) {
        let h = choose|h: int| 0 <= h < hints.len() && is_hinted(texts, #[trigger] hints[h]);
        assert(classifier::mentioned(texts, hints[h]));
    }
}

proof fn lemma_aliased(words: Seq<char>, alias: Seq<char>)
    ensures
        classifier::alias_occurs(words, alias) <==> is_aliased(words, alias),
{
    reveal_strlit(" ");
    assert(" "@ =~= seq![' ']);
    let inner = classifier::normalized(alias);
    let hay = " "@ + words + " "@;
    let needle = " "@ + inner + " "@;
    text_laws::lemma_contains_by_characters(hay, needle);
    if classifier::alias_occurs(words, alias) {
        let at = choose|at: int| text_laws::stands_at(hay, needle, at);
        let before = words.take(at);
        let after = words.skip(at + inner.len());
        assert(hay.len() == words.len() + 2 && needle.len() == inner.len() + 2);
        assert forall|k: int| 0 <= k < inner.len() implies words[at + k] == inner[k] by {
            assert(hay[at + (k + 1)] == needle[k + 1]);
        }
        assert(words =~= before + inner + after);
        assert(hay[at + 0] == needle[0]);
        assert(hay[at + (inner.len() + 1)] == needle[(inner.len() + 1) as int]);
        assert(surrounds(words, before, inner, after));
    }
    if is_aliased(words, alias) {
        let (before, after) = choose|before: Seq<char>, after: Seq<char>| #[trigger]
            surrounds(words, before, inner, after);
        let at = before.len() as int;
        assert forall|k: int| 0 <= k < needle.len() implies hay[at + k] == #[trigger] needle[k] by {
            if k == 0 {
                if at > 0 {
                    assert(hay[at] == words[at - 1]);
                    assert(words[at - 1] == before.last());
                }
            } else if k <= inner.len() {
                assert(hay[at + k] == words[at + k - 1]);
            } else {
                if after.len() > 0 {
                    assert(hay[at + k] == words[at + k - 1]);
                    assert(words[at + inner.len()] == after[0]);
                }
            }
        }
        assert(text_laws::stands_at(hay, needle, at));
    }
}

/// The member extension that speaks for a rule is the first that the rule lists.
pub proof fn lemma_first_member_that_is_listed(members: Seq<Seq<char>>, list: Seq<Seq<char>>)
    ensures
        match classifier::first_listed(members, list) {
            Some(found) => exists|j: int|
                0 <= j < members.len() && #[trigger] members[j] == found && is_listed(list, found)
                    && forall|k: int| 0 <= k < j ==> !is_listed(list, #[trigger] members[k]),
            None => forall|k: int|
                0 <= k < members.len() ==> !is_listed(list, #[trigger] members[k]),
        },
    decreases members.len(),
{
    if members.len() > 0 {
        let less = members.drop_last();
        lemma_first_member_that_is_listed(less, list);
        lemma_listed(list, members.last());
        match classifier::first_listed(less, list) {
            Some(found) => {
                let j = choose|j: int|
                    0 <= j < less.len() && #[trigger] less[j] == found && is_listed(list, found)
                        && forall|k: int| 0 <= k < j ==> !is_listed(list, #[trigger] less[k]);
                assert(members[j] == found);
                assert forall|k: int| 0 <= k < j implies !is_listed(
                    list,
                    #[trigger] members[k],
                ) by {
                    assert(less[k] == members[k]);
                }
            },
            None => {
                assert forall|k: int| 0 <= k < less.len() implies !is_listed(
                    list,
                    #[trigger] members[k],
                ) by {
                    assert(less[k] == members[k]);
                }
                assert(members[members.len() - 1] == members.last());
            },
        }
    }
}

/// The score of a rule is what the signals that speak for it weigh.
proof fn lemma_score_is_weight(rule: RuleView, signals: Signals)
    ensures
        classifier::score(rule, signals) == weight(rule, signals),
        classifier::extension_speaks(rule, signals) == by_extension(rule, signals),
        classifier::mentions_any(signals.folders, rule.folder_hints) == by_folder(rule, signals),
        classifier::any_alias_occurs(signals.words, rule.aliases) == by_alias(rule, signals),
        classifier::mentions_any(signals.tokens, rule.dat_tokens) == by_token(rule, signals),
        classifier::found_member(rule, signals) is Some == by_member(rule, signals),
{
    lemma_listed(rule.rom_extensions, signals.extension);
    lemma_hinted(signals.folders, rule.folder_hints);
    lemma_hinted(signals.tokens, rule.dat_tokens);
    assert(classifier::any_alias_occurs(signals.words, rule.aliases) == by_alias(rule, signals))
        by {
        if classifier::any_alias_occurs(signals.words, rule.aliases) {
            let k = choose|k: int|
                0 <= k < rule.aliases.len() && classifier::alias_occurs(
                    signals.words,
                    #[trigger] rule.aliases[k],
                );
            lemma_aliased(signals.words, rule.aliases[k]);
        }
        if by_alias(rule, signals) {
            let k = choose|k: int|
                0 <= k < rule.aliases.len() && is_aliased(
                    signals.words,
                    #[trigger] rule.aliases[k],
                );
            lemma_aliased(signals.words, rule.aliases[k]);
        }
    }
    if let Some(members) = signals.members {
        lemma_first_member_that_is_listed(members, rule.rom_extensions);
    }
}

// ---------------------------------------------------------------------------------------------
// What each signal adds

/// A member of an archive whose extension is one of the platform's own adds ninety.
pub proof fn lemma_member_adds_ninety(rule: RuleView, signals: Signals)
    ensures
        classifier::score(rule, signals) == classifier::score(
            rule,
            Signals { members: None, ..signals },
        ) + if by_member(rule, signals) {
            90int
        } else {
            0
        },
{
    lemma_score_is_weight(rule, signals);
    lemma_score_is_weight(rule, Signals { members: None, ..signals });
}

/// The extension of the file, where it is one of the platform's own, adds seventy.
pub proof fn lemma_extension_adds_seventy(rule: RuleView, signals: Signals)
    ensures
        classifier::score(rule, signals) == classifier::score(
            rule,
            Signals { extension: Seq::empty(), ..signals },
        ) + if by_extension(rule, signals) {
            70int
        } else {
            0
        },
{
    lemma_score_is_weight(rule, signals);
    lemma_score_is_weight(rule, Signals { extension: Seq::empty(), ..signals });
}

/// A dat token adds fifty.
pub proof fn lemma_token_adds_fifty(rule: RuleView, signals: Signals)
    ensures
        classifier::score(rule, signals) == classifier::score(
            RuleView { dat_tokens: Seq::empty(), ..rule },
            signals,
        ) + if by_token(rule, signals) {
            50int
        } else {
            0
        },
{
    lemma_score_is_weight(rule, signals);
    lemma_score_is_weight(RuleView { dat_tokens: Seq::empty(), ..rule }, signals);
}

/// A folder hint adds forty.
pub proof fn lemma_folder_adds_forty(rule: RuleView, signals: Signals)
    ensures
        classifier::score(rule, signals) == classifier::score(
            RuleView { folder_hints: Seq::empty(), ..rule },
            signals,
        ) + if by_folder(rule, signals) {
            40int
        } else {
            0
        },
{
    lemma_score_is_weight(rule, signals);
    lemma_score_is_weight(RuleView { folder_hints: Seq::empty(), ..rule }, signals);
}

/// An alias adds thirty.
pub proof fn lemma_alias_adds_thirty(rule: RuleView, signals: Signals)
    ensures
        classifier::score(rule, signals) == classifier::score(
            RuleView { aliases: Seq::empty(), ..rule },
            signals,
        ) + if by_alias(rule, signals) {
            30int
        } else {
            0
        },
{
    lemma_score_is_weight(rule, signals);
    lemma_score_is_weight(RuleView { aliases: Seq::empty(), ..rule }, signals);
}

/// A rule for which no signal speaks has nothing for it.
pub proof fn lemma_nothing_adds_nothing(rule: RuleView, signals: Signals)
    requires
        !by_member(rule, signals),
        !by_extension(rule, signals),
        !by_token(rule, signals),
        !by_folder(rule, signals),
        !by_alias(rule, signals),
    ensures
        classifier::score(rule, signals) == 0,
{
    lemma_score_is_weight(rule, signals);
}

// ---------------------------------------------------------------------------------------------
// Which platform wins

/// What is said where the signals for one rule weigh more than those for any other: its platform is
/// named, and that is exact from a hundred on.
pub proof fn lemma_most_weight_wins(rules: Seq<RuleView>, signals: Signals, at: int)
    requires
        0 <= at < rules.len(),
        weight(rules[at], signals) > 0,
        forall|k: int|
            0 <= k < rules.len() && k != at ==> weight(#[trigger] rules[k], signals) < weight(
                rules[at],
                signals,
            ),
    ensures
        ({
            let said = classifier::verdict(rules, signals);
            &&& said.platform_slug == Some(rules[at].slug)
            &&& weight(rules[at], signals) >= 100 ==> said.confidence == Confidence::Exact
            &&& weight(rules[at], signals) < 100 ==> said.confidence == Confidence::High
            &&& said.reason == text::joined(told(rules[at], signals), seq![',', ' '])
        }),
{
    lemma_score_is_weight(rules[at], signals);
    assert forall|k: int| 0 <= k < rules.len() && k != at implies classifier::score(
        #[trigger] rules[k],
        signals,
    ) < classifier::score(rules[at], signals) by {
        lemma_score_is_weight(rules[k], signals);
    }
    assert(classifier::wins(rules, signals, at));
    classifier::lemma_one_winner(rules, signals);
    lemma_reasons_are_told(rules[at], signals);
    reveal_strlit(", ");
    assert(", "@ =~= seq![',', ' ']);
}

/// What is said where no rule has more weight than two that have equally much: no platform is named.
pub proof fn lemma_equal_weight_names_none(
    rules: Seq<RuleView>,
    signals: Signals,
    one: int,
    other: int,
)
    requires
        0 <= one < other < rules.len(),
        weight(rules[one], signals) > 0,
        weight(rules[one], signals) == weight(rules[other], signals),
        forall|k: int|
            0 <= k < rules.len() ==> weight(#[trigger] rules[k], signals) <= weight(
                rules[one],
                signals,
            ),
    ensures
        classifier::verdict(rules, signals) == (ClassificationView {
            platform_slug: None,
            confidence: Confidence::Ambiguous,
            reason: "multiple platforms matched with equal score"@,
        }),
{
    lemma_score_is_weight(rules[one], signals);
    lemma_score_is_weight(rules[other], signals);
    assert forall|k: int| 0 <= k < rules.len() implies classifier::score(
        #[trigger] rules[k],
        signals,
    ) <= classifier::score(rules[one], signals) by {
        lemma_score_is_weight(rules[k], signals);
    }
    assert(classifier::ties(rules, signals, one, other));
    classifier::lemma_one_outcome(rules, signals);
}

/// What is said where no signal speaks for any rule: no platform is named, and none is known.
pub proof fn lemma_no_weight_names_none(rules: Seq<RuleView>, signals: Signals)
    requires
        forall|k: int| 0 <= k < rules.len() ==> weight(#[trigger] rules[k], signals) == 0,
    ensures
        classifier::verdict(rules, signals) == (ClassificationView {
            platform_slug: None,
            confidence: Confidence::Unknown,
            reason: "no platform match"@,
        }),
{
    assert forall|k: int| 0 <= k < rules.len() implies classifier::score(
        #[trigger] rules[k],
        signals,
    ) == 0 by {
        lemma_score_is_weight(rules[k], signals);
    }
    assert(classifier::silent(rules, signals));
    classifier::lemma_one_outcome(rules, signals);
}

/// The words for the signals that speak for a rule: extension, folder hint, alias, dat token and
/// member of an archive, in this order.
pub open spec fn told(rule: RuleView, signals: Signals) -> Seq<Seq<char>> {
    (if by_extension(rule, signals) {
        seq!["extension ."@ + signals.extension]
    } else {
        Seq::empty()
    }) + (if by_folder(rule, signals) {
        seq!["folder hint"@]
    } else {
        Seq::empty()
    }) + (if by_alias(rule, signals) {
        seq!["filename alias"@]
    } else {
        Seq::empty()
    }) + (if by_token(rule, signals) {
        seq!["dat token"@]
    } else {
        Seq::empty()
    }) + (if by_member(rule, signals) {
        seq![
            "archive member extension ."@ + classifier::first_listed(
                signals.members.unwrap(),
                rule.rom_extensions,
            ).unwrap(),
        ]
    } else {
        Seq::empty()
    })
}

proof fn lemma_reasons_are_told(rule: RuleView, signals: Signals)
    ensures
        classifier::reasons(rule, signals) == told(rule, signals),
{
    lemma_score_is_weight(rule, signals);
    assert(classifier::reasons(rule, signals) =~= told(rule, signals));
}

/// How strong a kind of signal is: a member of an archive is the strongest, then come the extension,
/// a dat token, a folder hint and an alias.
pub open spec fn strength_of_lone_signal(rule: RuleView, signals: Signals) -> int {
    let member = by_member(rule, signals);
    let extension = by_extension(rule, signals);
    let token = by_token(rule, signals);
    let folder = by_folder(rule, signals);
    let alias = by_alias(rule, signals);
    if member && !extension && !token && !folder && !alias {
        5
    } else if !member && extension && !token && !folder && !alias {
        4
    } else if !member && !extension && token && !folder && !alias {
        3
    } else if !member && !extension && !token && folder && !alias {
        2
    } else if !member && !extension && !token && !folder && alias {
        1
    } else if !member && !extension && !token && !folder && !alias {
        0
    } else {
        -1
    }
}

/// Where at most one kind of signal speaks for each rule, and a stronger kind for one of them than
/// for any other, the platform of that one is named, and the classification is sure but not exact.
pub proof fn lemma_stronger_signal_wins(rules: Seq<RuleView>, signals: Signals, at: int)
    requires
        0 <= at < rules.len(),
        strength_of_lone_signal(rules[at], signals) > 0,
        forall|k: int|
            0 <= k < rules.len() && k != at ==> 0 <= strength_of_lone_signal(
                #[trigger] rules[k],
                signals,
            ) < strength_of_lone_signal(rules[at], signals),
    ensures
        classifier::verdict(rules, signals).platform_slug == Some(rules[at].slug),
        classifier::verdict(rules, signals).confidence == Confidence::High,
{
    assert forall|k: int| 0 <= k < rules.len() && k != at implies weight(
        #[trigger] rules[k],
        signals,
    ) < weight(rules[at], signals) by {
        assert(0 <= strength_of_lone_signal(rules[k], signals) < strength_of_lone_signal(
            rules[at],
            signals,
        ));
    }
    lemma_most_weight_wins(rules, signals, at);
}

/// A rule for which a member of the archive speaks is named if at most one other kind of signal
/// speaks for every other rule, and neither a member nor more than that one.
pub proof fn lemma_member_beats_any_lone_signal(rules: Seq<RuleView>, signals: Signals, at: int)
    requires
        0 <= at < rules.len(),
        by_member(rules[at], signals),
        forall|k: int|
            0 <= k < rules.len() && k != at ==> 0 <= strength_of_lone_signal(
                #[trigger] rules[k],
                signals,
            ) < 5,
    ensures
        classifier::verdict(rules, signals).platform_slug == Some(rules[at].slug),
{
    assert forall|k: int| 0 <= k < rules.len() && k != at implies weight(
        #[trigger] rules[k],
        signals,
    ) < weight(rules[at], signals) by {
        assert(0 <= strength_of_lone_signal(rules[k], signals) < 5);
    }
    lemma_most_weight_wins(rules, signals, at);
}

/// A platform is named only if a signal speaks for its rule, and then no other rule has as much
/// weight.
pub proof fn lemma_named_platform_has_most_weight(rules: Seq<RuleView>, signals: Signals) -> (at: int)
    requires
        classifier::verdict(rules, signals).platform_slug is Some,
    ensures
        0 <= at < rules.len(),
        classifier::verdict(rules, signals).platform_slug == Some(rules[at].slug),
        weight(rules[at], signals) > 0,
        forall|k: int|
            0 <= k < rules.len() && k != at ==> weight(#[trigger] rules[k], signals) < weight(
                rules[at],
                signals,
            ),
{
    let at = choose|at: int| classifier::wins(rules, signals, at);
    lemma_score_is_weight(rules[at], signals);
    assert forall|k: int| 0 <= k < rules.len() && k != at implies weight(
        #[trigger] rules[k],
        signals,
    ) < weight(rules[at], signals) by {
        lemma_score_is_weight(rules[k], signals);
    }
    at
}

/// A signal more for the named platform, and none more for another, leaves it named.
pub proof fn lemma_more_for_the_winner_keeps_it(
    rules: Seq<RuleView>,
    signals: Signals,
    more: Signals,
    at: int,
)
    requires
        0 <= at < rules.len(),
        weight(rules[at], signals) > 0,
        forall|k: int|
            0 <= k < rules.len() && k != at ==> weight(#[trigger] rules[k], signals) < weight(
                rules[at],
                signals,
            ) && speaks_no_more(rules[k], more, signals),
        speaks_no_more(rules[at], signals, more),
    ensures
        classifier::verdict(rules, signals).platform_slug == Some(rules[at].slug),
        classifier::verdict(rules, more).platform_slug == Some(rules[at].slug),
{
    lemma_most_weight_wins(rules, signals, at);
    assert forall|k: int| 0 <= k < rules.len() && k != at implies weight(#[trigger] rules[k], more)
        < weight(rules[at], more) by {
        assert(weight(rules[k], signals) < weight(rules[at], signals));
        assert(speaks_no_more(rules[k], more, signals));
    }
    lemma_most_weight_wins(rules, more, at);
}

/// Every kind of signal that speaks for a rule among `few` does among `many`.
pub open spec fn speaks_no_more(rule: RuleView, few: Signals, many: Signals) -> bool {
    &&& by_member(rule, few) ==> by_member(rule, many)
    &&& by_extension(rule, few) ==> by_extension(rule, many)
    &&& by_token(rule, few) ==> by_token(rule, many)
    &&& by_folder(rule, few) ==> by_folder(rule, many)
    &&& by_alias(rule, few) ==> by_alias(rule, many)
}

}
