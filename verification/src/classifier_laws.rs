//! What does not matter to a classification.

use vstd::prelude::*;
use crate::classifier;
use crate::classifier::{Classifier, EntryView, RuleView, Signals};
use crate::paths;
use crate::paths::{PartView, PathView};
use crate::text;
use crate::text::Breaks;

verus! {

// ---------------------------------------------------------------------------------------------
// The order of rules

/// The same rules in another order say the same.
pub proof fn lemma_order_of_rules_is_idle(
    rules: Seq<RuleView>,
    others: Seq<RuleView>,
    signals: Signals,
)
    requires
        rules.to_multiset() == others.to_multiset(),
    ensures
        classifier::verdict(rules, signals) == classifier::verdict(others, signals),
{
    classifier::lemma_one_outcome(rules, signals);
    classifier::lemma_one_outcome(others, signals);
    classifier::lemma_one_winner(rules, signals);
    classifier::lemma_one_winner(others, signals);
    lemma_silence_in_any_order(rules, others, signals);
    lemma_silence_in_any_order(others, rules, signals);
    if exists|at: int| classifier::wins(rules, signals, at) {
        let at = choose|at: int| classifier::wins(rules, signals, at);
        let found = winner_in_any_order(rules, others, signals, at);
        assert(classifier::wins(others, signals, found));
    } else if exists|at: int| classifier::wins(others, signals, at) {
        let at = choose|at: int| classifier::wins(others, signals, at);
        let found = winner_in_any_order(others, rules, signals, at);
        assert(classifier::wins(rules, signals, found));
    }
}

proof fn lemma_silence_in_any_order(
    rules: Seq<RuleView>,
    others: Seq<RuleView>,
    signals: Signals,
)
    requires
        rules.to_multiset() == others.to_multiset(),
    ensures
        classifier::silent(rules, signals) ==> classifier::silent(others, signals),
{
    if classifier::silent(rules, signals) {
        assert forall|k: int| 0 <= k < others.len() implies classifier::score(
            #[trigger] others[k],
            signals,
        ) == 0 by {
            lemma_held_in_any_order(others, rules, k);
        }
    }
}

/// A rule of one order stands in the other.
proof fn lemma_held_in_any_order(rules: Seq<RuleView>, others: Seq<RuleView>, at: int)
    requires
        rules.to_multiset() == others.to_multiset(),
        0 <= at < rules.len(),
    ensures
        others.contains(rules[at]),
{
    rules.to_multiset_ensures();
    others.to_multiset_ensures();
    assert(rules.contains(rules[at]));
    assert(rules.to_multiset().count(rules[at]) > 0);
}

/// Where the winning rule stands in another order.
proof fn winner_in_any_order(
    rules: Seq<RuleView>,
    others: Seq<RuleView>,
    signals: Signals,
    at: int,
) -> (found: int)
    requires
        rules.to_multiset() == others.to_multiset(),
        classifier::wins(rules, signals, at),
    ensures
        classifier::wins(others, signals, found),
        others[found] == rules[at],
{
    let rule = rules[at];
    lemma_held_in_any_order(rules, others, at);
    let found = choose|found: int| 0 <= found < others.len() && others[found] == rule;
    assert forall|k: int| 0 <= k < others.len() && k != found implies classifier::score(
        #[trigger] others[k],
        signals,
    ) < classifier::score(others[found], signals) by {
        lemma_held_in_any_order(others, rules, k);
        let j = choose|j: int| 0 <= j < rules.len() && rules[j] == others[k];
        if j == at {
            // The rule would stand twice in one order and so in the other.
            let fewer = others.remove(found);
            assert(fewer[if k < found {
                k
            } else {
                k - 1
            }] == rule);
            rules.to_multiset_ensures();
            others.to_multiset_ensures();
            assert(fewer.to_multiset() == rules.remove(at).to_multiset());
            lemma_held_in_any_order(
                fewer,
                rules.remove(at),
                if k < found {
                    k
                } else {
                    k - 1
                },
            );
            let m = choose|m: int|
                0 <= m < rules.remove(at).len() && rules.remove(at)[m] == rule;
            let twin = if m < at {
                m
            } else {
                m + 1
            };
            assert(rules[twin] == rule);
        }
    }
    found
}

// ---------------------------------------------------------------------------------------------
// The case of letters

/// Parts that differ in the case of ASCII letters in names and prefixes at most.
pub open spec fn alike(one: Seq<PartView>, other: Seq<PartView>) -> bool {
    one.len() == other.len() && forall|k: int|
        0 <= k < one.len() ==> alike_parts(#[trigger] one[k], other[k])
}

/// Parts that are the same, or names or prefixes that differ in the case of ASCII letters at most.
pub open spec fn alike_parts(one: PartView, other: PartView) -> bool {
    match (one, other) {
        (PartView::Name(one), PartView::Name(other)) => text::lower(one) == text::lower(other),
        (PartView::Prefix(one), PartView::Prefix(other)) => text::lower(one) == text::lower(other),
        _ => one == other,
    }
}

/// The case of ASCII letters in a path does not matter, nor how its separators are written.
pub proof fn lemma_case_of_path_is_idle(
    classifier: Classifier,
    one: PathView,
    other: PathView,
    listing: Option<Seq<EntryView>>,
)
    requires
        one.style == other.style,
        alike(one.parts, other.parts),
    ensures
        classifier.says(one, listing) == classifier.says(other, listing),
{
    if one.parts.len() > 0 {
        let last = one.parts.len() - 1;
        assert(alike_parts(one.parts[last], other.parts[last]));
        if let (PartView::Name(a), PartView::Name(b)) = (one.parts[last], other.parts[last]) {
            lemma_lower_extension(a);
            lemma_lower_extension(b);
        }
    }
    assert(paths::lower_extension(one.parts) == paths::lower_extension(other.parts));
    assert(classifier::lower_name(one) == classifier::lower_name(other));
    lemma_levels_alike(one.parts, other.parts, classifier::FOLDER_LEVELS as nat);
    assert(classifier::signals(classifier.archives(), one, listing) == classifier::signals(
        classifier.archives(),
        other,
        listing,
    ));
}

/// The lower case of a name's extension is the extension of its lower case.
proof fn lemma_lower_extension(name: Seq<char>)
    ensures
        paths::name_extension(text::lower(name)) == match paths::name_extension(name) {
            Some(extension) => Some(text::lower(extension)),
            None => None,
        },
{
    lemma_lower_keeps_dots(name);
    if paths::last_dot(name) > 0 {
        let from = paths::last_dot(name) + 1;
        assert(text::lower(name).skip(from) =~= text::lower(name.skip(from)));
    }
}

proof fn lemma_lower_keeps_dots(name: Seq<char>)
    ensures
        paths::last_dot(text::lower(name)) == paths::last_dot(name),
        paths::last_dot(name) < name.len(),
    decreases name.len(),
{
    if name.len() > 0 {
        lemma_lower_keeps_dots(name.drop_last());
        assert(text::lower(name).drop_last() =~= text::lower(name.drop_last()));
        assert(text::lower(name).last() == text::lower_char(name.last()));
    }
}

proof fn lemma_levels_alike(one: Seq<PartView>, other: Seq<PartView>, levels: nat)
    requires
        alike(one, other),
    ensures
        paths::level_names(one, levels) == paths::level_names(other, levels),
    decreases levels,
{
    if levels > 0 && one.len() > 0 {
        assert(alike_parts(one[one.len() - 1], other[one.len() - 1]));
        assert forall|k: int| 0 <= k < one.drop_last().len() implies alike_parts(
            #[trigger] one.drop_last()[k],
            other.drop_last()[k],
        ) by {
            assert(alike_parts(one[k], other[k]));
        }
        lemma_levels_alike(one.drop_last(), other.drop_last(), (levels - 1) as nat);
    }
}

/// Rules of one platform whose lists differ in the case of ASCII letters at most.
pub open spec fn alike_rules(one: RuleView, other: RuleView) -> bool {
    &&& one.slug == other.slug
    &&& classifier::lower_all(one.rom_extensions) == classifier::lower_all(other.rom_extensions)
    &&& classifier::lower_all(one.folder_hints) == classifier::lower_all(other.folder_hints)
    &&& classifier::lower_all(one.aliases) == classifier::lower_all(other.aliases)
    &&& classifier::lower_all(one.dat_tokens) == classifier::lower_all(other.dat_tokens)
}

/// The case of ASCII letters in the lists of rules does not matter.
pub proof fn lemma_case_of_rules_is_idle(
    rules: Seq<RuleView>,
    others: Seq<RuleView>,
    signals: Signals,
)
    requires
        rules.len() == others.len(),
        forall|k: int| 0 <= k < rules.len() ==> alike_rules(#[trigger] rules[k], others[k]),
    ensures
        classifier::verdict(rules, signals) == classifier::verdict(others, signals),
{
    assert forall|k: int| 0 <= k < rules.len() implies classifier::score(
        #[trigger] rules[k],
        signals,
    ) == classifier::score(others[k], signals) && classifier::won_by(rules[k], signals)
        == classifier::won_by(others[k], signals) by {
        assert(alike_rules(rules[k], others[k]));
        lemma_rule_alike(rules[k], others[k], signals);
    }
    assert forall|at: int|
        classifier::wins(rules, signals, at) == classifier::wins(others, signals, at) by {
        lemma_wins_alike(rules, others, signals, at);
        lemma_wins_alike(others, rules, signals, at);
    }
    assert forall|one: int, other: int|
        classifier::ties(rules, signals, one, other) == classifier::ties(
            others,
            signals,
            one,
            other,
        ) by {
        lemma_ties_alike(rules, others, signals, one, other);
        lemma_ties_alike(others, rules, signals, one, other);
    }
    classifier::lemma_one_winner(rules, signals);
    classifier::lemma_one_winner(others, signals);
}

/// Two lists of rules have equally much for them, rule by rule.
spec fn equal_scores(rules: Seq<RuleView>, others: Seq<RuleView>, signals: Signals) -> bool {
    rules.len() == others.len() && forall|k: int|
        0 <= k < rules.len() ==> classifier::score(#[trigger] rules[k], signals)
            == classifier::score(others[k], signals)
}

proof fn lemma_wins_alike(rules: Seq<RuleView>, others: Seq<RuleView>, signals: Signals, at: int)
    requires
        equal_scores(rules, others, signals),
    ensures
        classifier::wins(rules, signals, at) ==> classifier::wins(others, signals, at),
{
    if classifier::wins(rules, signals, at) {
        assert(classifier::score(rules[at], signals) == classifier::score(others[at], signals));
        assert forall|k: int| 0 <= k < others.len() && k != at implies classifier::score(
            #[trigger] others[k],
            signals,
        ) < classifier::score(others[at], signals) by {
            assert(classifier::score(rules[k], signals) < classifier::score(rules[at], signals));
        }
    }
}

proof fn lemma_ties_alike(
    rules: Seq<RuleView>,
    others: Seq<RuleView>,
    signals: Signals,
    one: int,
    other: int,
)
    requires
        equal_scores(rules, others, signals),
    ensures
        classifier::ties(rules, signals, one, other) ==> classifier::ties(
            others,
            signals,
            one,
            other,
        ),
{
    if classifier::ties(rules, signals, one, other) {
        assert(classifier::score(rules[one], signals) == classifier::score(others[one], signals));
        assert(classifier::score(rules[other], signals) == classifier::score(
            others[other],
            signals,
        ));
        assert forall|k: int| 0 <= k < others.len() implies classifier::score(
            #[trigger] others[k],
            signals,
        ) <= classifier::score(others[one], signals) by {
            assert(classifier::score(rules[k], signals) <= classifier::score(rules[one], signals));
        }
    }
}

proof fn lemma_rule_alike(one: RuleView, other: RuleView, signals: Signals)
    requires
        alike_rules(one, other),
    ensures
        classifier::score(one, signals) == classifier::score(other, signals),
        classifier::won_by(one, signals) == classifier::won_by(other, signals),
{
    lemma_extension_alike(one.rom_extensions, other.rom_extensions, signals.extension);
    lemma_extension_alike(other.rom_extensions, one.rom_extensions, signals.extension);
    lemma_hints_alike(signals.folders, one.folder_hints, other.folder_hints);
    lemma_hints_alike(signals.folders, other.folder_hints, one.folder_hints);
    lemma_hints_alike(signals.tokens, one.dat_tokens, other.dat_tokens);
    lemma_hints_alike(signals.tokens, other.dat_tokens, one.dat_tokens);
    lemma_aliases_alike(signals.words, one.aliases, other.aliases);
    lemma_aliases_alike(signals.words, other.aliases, one.aliases);
    if let Some(members) = signals.members {
        lemma_members_alike(members, one.rom_extensions, other.rom_extensions);
    }
    assert(classifier::reasons(one, signals) == classifier::reasons(other, signals));
}

proof fn lemma_extension_alike(one: Seq<Seq<char>>, other: Seq<Seq<char>>, extension: Seq<char>)
    requires
        classifier::lower_all(one) == classifier::lower_all(other),
    ensures
        classifier::lists_extension(one, extension) ==> classifier::lists_extension(other, extension),
{
    if classifier::lists_extension(one, extension) {
        let k = choose|k: int|
            0 <= k < one.len() && text::lower(#[trigger] one[k]) == text::lower(extension);
        assert(classifier::lower_all(one).len() == one.len());
        assert(classifier::lower_all(other).len() == other.len());
        assert(classifier::lower_all(one)[k] == classifier::lower_all(other)[k]);
        assert(text::lower(other[k]) == text::lower(extension));
    }
}

proof fn lemma_hints_alike(texts: Seq<Seq<char>>, one: Seq<Seq<char>>, other: Seq<Seq<char>>)
    requires
        classifier::lower_all(one) == classifier::lower_all(other),
    ensures
        classifier::mentions_any(texts, one) ==> classifier::mentions_any(texts, other),
{
    if classifier::mentions_any(texts, one) {
        let k = choose|k: int| 0 <= k < one.len() && classifier::mentioned(texts, #[trigger] one[k]);
        assert(classifier::lower_all(one).len() == one.len());
        assert(classifier::lower_all(other).len() == other.len());
        assert(classifier::lower_all(one)[k] == classifier::lower_all(other)[k]);
        assert(classifier::mentioned(texts, other[k]));
    }
}

proof fn lemma_aliases_alike(words: Seq<char>, one: Seq<Seq<char>>, other: Seq<Seq<char>>)
    requires
        classifier::lower_all(one) == classifier::lower_all(other),
    ensures
        classifier::any_alias_occurs(words, one) ==> classifier::any_alias_occurs(words, other),
{
    if classifier::any_alias_occurs(words, one) {
        let k = choose|k: int|
            0 <= k < one.len() && classifier::alias_occurs(words, #[trigger] one[k]);
        assert(classifier::lower_all(one).len() == one.len());
        assert(classifier::lower_all(other).len() == other.len());
        assert(classifier::lower_all(one)[k] == classifier::lower_all(other)[k]);
        assert(classifier::normalized(one[k]) == classifier::normalized(other[k]));
        assert(classifier::alias_occurs(words, other[k]));
    }
}

proof fn lemma_members_alike(
    members: Seq<Seq<char>>,
    one: Seq<Seq<char>>,
    other: Seq<Seq<char>>,
)
    requires
        classifier::lower_all(one) == classifier::lower_all(other),
    ensures
        classifier::first_listed(members, one) == classifier::first_listed(members, other),
    decreases members.len(),
{
    if members.len() > 0 {
        lemma_members_alike(members.drop_last(), one, other);
        if classifier::lists_extension(one, members.last()) {
            lemma_extension_alike(one, other, members.last());
        }
        if classifier::lists_extension(other, members.last()) {
            lemma_extension_alike(other, one, members.last());
        }
    }
}

// ---------------------------------------------------------------------------------------------
// Normalizing

/// Normalizing a text a second time changes nothing.
pub proof fn lemma_normalizing_is_idempotent(input: Seq<char>)
    ensures
        classifier::normalized(classifier::normalized(input)) == classifier::normalized(input),
{
    let lowered = text::lower(input);
    let words = text::pieces(lowered, Breaks::NonWords);
    text::lemma_lower_twice(input);
    lemma_pieces_are_words(lowered);
    lemma_joined_is_lower(words);
    lemma_pieces_of_joined(words);
}

/// A word in lower case.
spec fn is_word(word: Seq<char>) -> bool {
    word.len() > 0 && is_plain(word)
}

/// A text of ASCII letters in lower case and digits.
spec fn is_plain(word: Seq<char>) -> bool {
    forall|k: int|
        0 <= k < word.len() ==> text::is_word_char(#[trigger] word[k]) && text::lower_char(word[k])
            == word[k]
}

spec fn are_words(words: Seq<Seq<char>>) -> bool {
    forall|k: int| 0 <= k < words.len() ==> is_word(#[trigger] words[k])
}

proof fn lemma_pieces_are_words(input: Seq<char>)
    requires
        text::lower(input) == input,
    ensures
        is_plain(text::last_piece(input, Breaks::NonWords)),
        are_words(text::closed_pieces(input, Breaks::NonWords)),
        are_words(text::pieces(input, Breaks::NonWords)),
    decreases input.len(),
{
    if input.len() > 0 {
        let before = input.drop_last();
        assert(text::lower(before) =~= text::lower(input).drop_last());
        assert(text::lower(input)[input.len() - 1] == text::lower_char(input.last()));
        lemma_pieces_are_words(before);
    }
}

/// Words with a space between neighbours are in lower case.
proof fn lemma_joined_is_lower(words: Seq<Seq<char>>)
    requires
        are_words(words),
    ensures
        text::lower(text::joined(words, " "@)) == text::joined(words, " "@),
    decreases words.len(),
{
    reveal_strlit(" ");
    assert(" "@ =~= seq![' ']);
    let all = text::joined(words, " "@);
    if words.len() == 1 {
        assert(is_word(words[0]));
        assert(text::lower(all) =~= all);
    } else if words.len() > 1 {
        let before = text::joined(words.drop_last(), " "@);
        assert(are_words(words.drop_last()));
        lemma_joined_is_lower(words.drop_last());
        assert(is_word(words.last()));
        assert forall|k: int| 0 <= k < all.len() implies text::lower_char(#[trigger] all[k])
            == all[k] by {
            if k < before.len() {
                assert(text::lower(before)[k] == before[k]);
            } else if k == before.len() {
                assert(all[k] == ' ');
            } else {
                assert(all[k] == words.last()[k - before.len() - 1]);
            }
        }
        assert(text::lower(all) =~= all);
    } else {
        assert(text::lower(all) =~= all);
    }
}

/// A word after a break is the last piece, and closes what stands before.
proof fn lemma_word_after_break(before: Seq<char>, word: Seq<char>)
    requires
        is_plain(word),
    ensures
        text::last_piece(before.push(' ') + word, Breaks::NonWords) == word,
        text::closed_pieces(before.push(' ') + word, Breaks::NonWords) == text::pieces(
            before,
            Breaks::NonWords,
        ),
    decreases word.len(),
{
    let all = before.push(' ') + word;
    if word.len() == 0 {
        assert(all =~= before.push(' '));
        assert(all.drop_last() =~= before);
        assert(word =~= Seq::<char>::empty());
    } else {
        assert(all.drop_last() =~= before.push(' ') + word.drop_last());
        assert(all.last() == word.last());
        lemma_word_after_break(before, word.drop_last());
        assert(word.drop_last().push(word.last()) =~= word);
    }
}

proof fn lemma_lone_word(word: Seq<char>)
    requires
        is_plain(word),
    ensures
        text::last_piece(word, Breaks::NonWords) == word,
        text::closed_pieces(word, Breaks::NonWords) == Seq::<Seq<char>>::empty(),
    decreases word.len(),
{
    if word.len() > 0 {
        lemma_lone_word(word.drop_last());
        assert(word.drop_last().push(word.last()) =~= word);
    } else {
        assert(word =~= Seq::<char>::empty());
    }
}

/// The words of words with a space between neighbours are those words.
proof fn lemma_pieces_of_joined(words: Seq<Seq<char>>)
    requires
        are_words(words),
    ensures
        text::pieces(text::joined(words, " "@), Breaks::NonWords) == words,
    decreases words.len(),
{
    reveal_strlit(" ");
    assert(" "@ =~= seq![' ']);
    if words.len() == 0 {
        assert(words =~= Seq::<Seq<char>>::empty());
    } else if words.len() == 1 {
        assert(is_word(words[0]));
        lemma_lone_word(words[0]);
        assert(text::pieces(words[0], Breaks::NonWords) =~= words);
    } else {
        let before = text::joined(words.drop_last(), " "@);
        assert(are_words(words.drop_last()));
        lemma_pieces_of_joined(words.drop_last());
        assert(is_word(words.last()));
        lemma_word_after_break(before, words.last());
        assert(text::joined(words, " "@) =~= before.push(' ') + words.last());
        assert(words.drop_last().push(words.last()) =~= words);
    }
}

}
