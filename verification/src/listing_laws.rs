//! Which rows a plan has, what they tell, and in which order they stand.

use vstd::prelude::*;
use crate::model::MoveView;
use crate::path_laws;
use crate::paths;
use crate::paths::{PartView, PathView};
use crate::row_laws;
use crate::rows;
use crate::rows::{GameGroup, RowView, SlugGroup};
use crate::text;

verus! {

// ---------------------------------------------------------------------------------------------
// Platforms and games

/// A move is listed under its platform, and under `unclassified` if it has none.
pub proof fn lemma_listed_under_its_platform(item: MoveView)
    ensures
        item.platform_slug matches Some(slug) ==> rows::row_slug(item) == slug,
        item.platform_slug is None ==> rows::row_slug(item) == seq![
            'u',
            'n',
            'c',
            'l',
            'a',
            's',
            's',
            'i',
            'f',
            'i',
            'e',
            'd',
        ],
{
    reveal_strlit("unclassified");
    assert("unclassified"@ =~= seq!['u', 'n', 'c', 'l', 'a', 's', 's', 'i', 'f', 'i', 'e', 'd']);
}

/// A move whose destination goes at least two names deep into the output folder is listed under the
/// second of them.
pub proof fn lemma_listed_under_the_second_name(
    item: MoveView,
    output_root: Seq<PartView>,
    first: Seq<char>,
    second: Seq<char>,
    more: Seq<PartView>,
)
    requires
        item.destination matches Some(place) && place.parts == output_root + seq![
            PartView::Name(first),
            PartView::Name(second),
        ] + more,
    ensures
        rows::game_name(item, output_root) == second,
{
    let place = item.destination.unwrap();
    let two = seq![PartView::Name(first), PartView::Name(second)];
    let one = seq![PartView::Name(first)];
    let other = seq![PartView::Name(second)];
    assert(output_root + two + more =~= output_root + (two + more));
    path_laws::lemma_below_its_folder(output_root, two + more);
    path_laws::lemma_texts_in_turn(place.style, two, more);
    assert(two =~= one + other);
    path_laws::lemma_texts_in_turn(place.style, one, other);
    path_laws::lemma_text_of_one_part(place.style, PartView::Name(first));
    path_laws::lemma_text_of_one_part(place.style, PartView::Name(second));
    let names = paths::texts(place.style, two + more);
    assert(names[1] == second);
}

/// A move that goes nowhere, or elsewhere, or no deeper than one name into the output folder, is
/// listed under the name of its file without the extension.
pub proof fn lemma_listed_under_its_file(
    item: MoveView,
    output_root: Seq<PartView>,
    name: PartView,
    at: int,
)
    requires
        ({
            ||| item.destination is None
            ||| item.destination matches Some(place) && place.parts == output_root.push(name)
            ||| item.destination matches Some(place) && 0 <= at < output_root.len() && (at
                < place.parts.len() ==> !path_laws::same_or_prefixes(
                place.parts[at],
                output_root[at],
            ))
        }),
    ensures
        rows::game_name(item, output_root) == file_or_unknown(item.source),
{
    reveal_strlit("unknown-game");
    assert("unknown-game"@ =~= seq!['u', 'n', 'k', 'n', 'o', 'w', 'n', '-', 'g', 'a', 'm', 'e']);
    if let Some(place) = item.destination {
        if place.parts == output_root.push(name) {
            assert(output_root.push(name) =~= output_root + seq![name]);
            path_laws::lemma_below_its_folder(output_root, seq![name]);
            path_laws::lemma_text_of_one_part(place.style, name);
        } else {
            path_laws::lemma_elsewhere(place.parts, output_root, at);
        }
    }
}

/// The name of a file without its extension, or `unknown-game` where it has none that is text.
pub open spec fn file_or_unknown(source: PathView) -> Seq<char> {
    match paths::file_stem(source.parts) {
        Some(stem) => stem,
        None => seq!['u', 'n', 'k', 'n', 'o', 'w', 'n', '-', 'g', 'a', 'm', 'e'],
    }
}

/// A game is remembered by its platform and its name, with two colons between them.
pub proof fn lemma_key_is_platform_and_game(slug: Seq<char>, game: Seq<char>)
    ensures
        rows::key(slug, game) == slug.push(':').push(':') + game,
{
    reveal_strlit("::");
    assert("::"@ =~= seq![':', ':']);
    assert(rows::key(slug, game) =~= slug.push(':').push(':') + game);
}

// ---------------------------------------------------------------------------------------------
// The moves of a platform and of a game

/// The numbers of the first `count` moves of a plan that are listed under a platform.
pub open spec fn moves_of_platform(plan: Seq<MoveView>, slug: Seq<char>, count: nat) -> Seq<int> {
    Seq::new(count, |at: int| at).filter(|at: int| rows::row_slug(plan[at]) == slug)
}

/// The numbers of the first `count` moves of a plan that are listed under a game of a platform.
pub open spec fn moves_of_game(
    plan: Seq<MoveView>,
    output_root: Seq<PartView>,
    slug: Seq<char>,
    game: Seq<char>,
    count: nat,
) -> Seq<int> {
    Seq::new(count, |at: int| at).filter(
        |at: int|
            rows::row_slug(plan[at]) == slug && rows::game_name(plan[at], output_root) == game,
    )
}

proof fn lemma_one_more_move(
    plan: Seq<MoveView>,
    output_root: Seq<PartView>,
    slug: Seq<char>,
    game: Seq<char>,
    count: nat,
)
    ensures
        moves_of_platform(plan, slug, count + 1) == if rows::row_slug(plan[count as int]) == slug {
            moves_of_platform(plan, slug, count).push(count as int)
        } else {
            moves_of_platform(plan, slug, count)
        },
        moves_of_game(plan, output_root, slug, game, count + 1) == if rows::row_slug(
            plan[count as int],
        ) == slug && rows::game_name(plan[count as int], output_root) == game {
            moves_of_game(plan, output_root, slug, game, count).push(count as int)
        } else {
            moves_of_game(plan, output_root, slug, game, count)
        },
{
    reveal(Seq::filter);
    assert(Seq::new(count + 1, |at: int| at).drop_last() =~= Seq::new(count, |at: int| at));
}

proof fn lemma_no_moves(
    plan: Seq<MoveView>,
    output_root: Seq<PartView>,
    slug: Seq<char>,
    game: Seq<char>,
    count: nat,
)
    ensures
        (forall|at: int| 0 <= at < count ==> rows::row_slug(#[trigger] plan[at]) != slug)
            ==> moves_of_platform(plan, slug, count) == Seq::<int>::empty(),
        (forall|at: int|
            0 <= at < count ==> !(rows::row_slug(#[trigger] plan[at]) == slug && rows::game_name(
                plan[at],
                output_root,
            ) == game)) ==> moves_of_game(plan, output_root, slug, game, count)
            == Seq::<int>::empty(),
    decreases count,
{
    if count == 0 {
        reveal(Seq::filter);
        assert(moves_of_platform(plan, slug, count) =~= Seq::<int>::empty());
        assert(moves_of_game(plan, output_root, slug, game, count) =~= Seq::<int>::empty());
    } else {
        let less = (count - 1) as nat;
        lemma_no_moves(plan, output_root, slug, game, less);
        lemma_one_more_move(plan, output_root, slug, game, less);
    }
}

/// Groups list the moves of each platform and game, all of them in the order of the plan.
spec fn lists_moves(
    plan: Seq<MoveView>,
    output_root: Seq<PartView>,
    groups: Seq<SlugGroup>,
    count: nat,
) -> bool {
    &&& forall|s: int|
        0 <= s < groups.len() ==> rows::move_count((#[trigger] groups[s]).games)
            == moves_of_platform(plan, groups[s].slug, count).len()
    &&& forall|s: int, m: int|
        0 <= s < groups.len() && 0 <= m < groups[s].games.len() ==> (
        #[trigger] groups[s].games[m]).indices == moves_of_game(
            plan,
            output_root,
            groups[s].slug,
            groups[s].games[m].game,
            count,
        )
}

proof fn lemma_place_of_listed(names: Seq<Seq<char>>, name: Seq<char>, at: int)
    requires
        rows::ascending(names),
        0 <= at < names.len(),
        names[at] == name,
    ensures
        rows::place(names, name) == at,
{
    let found = rows::place(names, name);
    rows::lemma_place_bounds(names, name);
    if at < found {
        assert(text::precedes(names[at], name));
        text::lemma_precedes_asymmetric(name, name);
    } else if found < at {
        assert(text::precedes(names[found], names[at]));
    }
}

proof fn lemma_groups_list_moves(plan: Seq<MoveView>, output_root: Seq<PartView>, count: nat)
    requires
        count <= plan.len(),
    ensures
        lists_moves(plan, output_root, rows::grouped(plan, output_root, count), count),
    decreases count,
{
    if count > 0 {
        let less = (count - 1) as nat;
        let last = less as int;
        let item = plan[last];
        let slug = rows::row_slug(item);
        let game = rows::game_name(item, output_root);
        let groups = rows::grouped(plan, output_root, less);
        let names = rows::slug_names(groups);
        let at = rows::place(names, slug);
        let now = rows::grouped(plan, output_root, count);
        lemma_groups_list_moves(plan, output_root, less);
        rows::lemma_grouping_is_faithful(plan, output_root, less);
        rows::lemma_place_bounds(names, slug);
        let known = at < groups.len() && groups[at].slug == slug;
        if !known {
            assert forall|k: int| 0 <= k < less implies rows::row_slug(#[trigger] plan[k])
                != slug by {
                if rows::row_slug(plan[k]) == slug {
                    let other = rows::game_name(plan[k], output_root);
                    assert(rows::in_slugs(groups, slug, other, k));
                    let s = choose|s: int|
                        0 <= s < groups.len() && (#[trigger] groups[s]).slug == slug
                            && rows::in_games(groups[s].games, other, k);
                    assert(names[s] == slug);
                    lemma_place_of_listed(names, slug, s);
                }
            }
            lemma_no_moves(plan, output_root, slug, game, less);
        }
        assert forall|s: int| 0 <= s < now.len() implies lists_platform(
            plan,
            output_root,
            #[trigger] now[s],
            count,
        ) by {
            lemma_one_more_move(plan, output_root, now[s].slug, game, less);
            if known {
                if s == at {
                    lemma_games_list_moves(plan, output_root, groups, at, less);
                } else {
                    assert(names[s] == groups[s].slug && names[at] == slug);
                    if s < at {
                        text::lemma_precedes_asymmetric(names[s], names[at]);
                    } else {
                        text::lemma_precedes_asymmetric(names[at], names[s]);
                    }
                    lemma_unchanged_platform(plan, output_root, groups, s, less);
                }
            } else if s == at {
                lemma_first_of_platform(plan, output_root, less);
            } else {
                let before = if s < at {
                    s
                } else {
                    s - 1
                };
                assert(names[before] == groups[before].slug);
                if groups[before].slug == slug {
                    lemma_place_of_listed(names, slug, before);
                }
                lemma_unchanged_platform(plan, output_root, groups, before, less);
            }
        }
        assert forall|s: int, m: int|
            0 <= s < now.len() && 0 <= m < now[s].games.len() implies (
        #[trigger] now[s].games[m]).indices == moves_of_game(
            plan,
            output_root,
            now[s].slug,
            now[s].games[m].game,
            count,
        ) by {
            assert(lists_platform(plan, output_root, now[s], count));
        }
        assert forall|s: int| 0 <= s < now.len() implies rows::move_count((#[trigger] now[s]).games)
            == moves_of_platform(plan, now[s].slug, count).len() by {
            assert(lists_platform(plan, output_root, now[s], count));
        }
    }
}

/// A group lists the moves of its platform.
spec fn lists_platform(
    plan: Seq<MoveView>,
    output_root: Seq<PartView>,
    group: SlugGroup,
    count: nat,
) -> bool {
    &&& rows::move_count(group.games) == moves_of_platform(plan, group.slug, count).len()
    &&& forall|m: int|
        0 <= m < group.games.len() ==> (#[trigger] group.games[m]).indices == moves_of_game(
            plan,
            output_root,
            group.slug,
            group.games[m].game,
            count,
        )
}

proof fn lemma_unchanged_platform(
    plan: Seq<MoveView>,
    output_root: Seq<PartView>,
    groups: Seq<SlugGroup>,
    s: int,
    count: nat,
)
    requires
        lists_moves(plan, output_root, groups, count),
        0 <= s < groups.len(),
        groups[s].slug != rows::row_slug(plan[count as int]),
    ensures
        lists_platform(plan, output_root, groups[s], count + 1),
{
    let group = groups[s];
    lemma_one_more_move(plan, output_root, group.slug, Seq::empty(), count);
    assert forall|m: int| 0 <= m < group.games.len() implies (#[trigger] group.games[m]).indices
        == moves_of_game(plan, output_root, group.slug, group.games[m].game, count + 1) by {
        assert(groups[s].games[m].indices == moves_of_game(
            plan,
            output_root,
            groups[s].slug,
            groups[s].games[m].game,
            count,
        ));
        lemma_one_more_move(plan, output_root, group.slug, group.games[m].game, count);
    }
}

proof fn lemma_first_of_platform(plan: Seq<MoveView>, output_root: Seq<PartView>, count: nat)
    requires
        count < plan.len(),
        moves_of_platform(plan, rows::row_slug(plan[count as int]), count) == Seq::<int>::empty(),
        moves_of_game(
            plan,
            output_root,
            rows::row_slug(plan[count as int]),
            rows::game_name(plan[count as int], output_root),
            count,
        ) == Seq::<int>::empty(),
    ensures
        lists_platform(
            plan,
            output_root,
            SlugGroup {
                slug: rows::row_slug(plan[count as int]),
                games: rows::add_to_games(
                    Seq::empty(),
                    rows::game_name(plan[count as int], output_root),
                    count as int,
                ),
            },
            count + 1,
        ),
{
    let slug = rows::row_slug(plan[count as int]);
    let game = rows::game_name(plan[count as int], output_root);
    let none = Seq::<GameGroup>::empty();
    let games = rows::add_to_games(none, game, count as int);
    lemma_one_more_move(plan, output_root, slug, game, count);
    assert(rows::ascending(rows::game_names(none)));
    rows::lemma_add_to_games(none, game, count as int);
    rows::lemma_place_bounds(rows::game_names(none), game);
    assert(games =~= seq![GameGroup { game, indices: seq![count as int] }]);
    assert(Seq::<int>::empty().push(count as int) =~= seq![count as int]);
}

proof fn lemma_games_list_moves(
    plan: Seq<MoveView>,
    output_root: Seq<PartView>,
    groups: Seq<SlugGroup>,
    at: int,
    count: nat,
)
    requires
        count < plan.len(),
        groups == rows::grouped(plan, output_root, count),
        lists_moves(plan, output_root, groups, count),
        0 <= at < groups.len(),
        groups[at].slug == rows::row_slug(plan[count as int]),
    ensures
        lists_platform(
            plan,
            output_root,
            SlugGroup {
                slug: groups[at].slug,
                games: rows::add_to_games(
                    groups[at].games,
                    rows::game_name(plan[count as int], output_root),
                    count as int,
                ),
            },
            count + 1,
        ),
{
    let slug = groups[at].slug;
    let game = rows::game_name(plan[count as int], output_root);
    let games = groups[at].games;
    let names = rows::game_names(games);
    let spot = rows::place(names, game);
    let now = rows::add_to_games(games, game, count as int);
    rows::lemma_grouping_is_faithful(plan, output_root, count);
    assert(rows::games_in_order(games));
    rows::lemma_add_to_games(games, game, count as int);
    rows::lemma_place_bounds(names, game);
    lemma_one_more_move(plan, output_root, slug, game, count);
    let known = spot < games.len() && games[spot].game == game;
    if !known {
        assert forall|k: int| 0 <= k < count implies !(rows::row_slug(#[trigger] plan[k]) == slug
            && rows::game_name(plan[k], output_root) == game) by {
            if rows::row_slug(plan[k]) == slug && rows::game_name(plan[k], output_root) == game {
                assert(rows::in_slugs(groups, slug, game, k));
                let s = choose|s: int|
                    0 <= s < groups.len() && (#[trigger] groups[s]).slug == slug && rows::in_games(
                        groups[s].games,
                        game,
                        k,
                    );
                if s < at {
                    row_laws::lemma_slugs_differ(groups, s, at);
                } else if at < s {
                    row_laws::lemma_slugs_differ(groups, at, s);
                }
                let m = choose|m: int|
                    0 <= m < games.len() && (#[trigger] games[m]).game == game
                        && games[m].indices.contains(k);
                assert(names[m] == game);
                lemma_place_of_listed(names, game, m);
            }
        }
        lemma_no_moves(plan, output_root, slug, game, count);
    }
    assert forall|m: int| 0 <= m < now.len() implies (#[trigger] now[m]).indices == moves_of_game(
        plan,
        output_root,
        slug,
        now[m].game,
        count + 1,
    ) by {
        lemma_one_more_move(plan, output_root, slug, now[m].game, count);
        if known {
            assert(groups[at].games[m].indices == moves_of_game(
                plan,
                output_root,
                groups[at].slug,
                groups[at].games[m].game,
                count,
            ));
            if m != spot {
                assert(names[m] == games[m].game && names[spot] == game);
                if m < spot {
                    text::lemma_precedes_asymmetric(names[m], names[spot]);
                } else {
                    text::lemma_precedes_asymmetric(names[spot], names[m]);
                }
            }
        } else if m == spot {
            assert(Seq::<int>::empty().push(count as int) =~= seq![count as int]);
        } else {
            let before = if m < spot {
                m
            } else {
                m - 1
            };
            assert(groups[at].games[before].indices == moves_of_game(
                plan,
                output_root,
                groups[at].slug,
                groups[at].games[before].game,
                count,
            ));
            assert(names[before] == games[before].game);
            if games[before].game == game {
                lemma_place_of_listed(names, game, before);
            }
        }
    }
}

// ---------------------------------------------------------------------------------------------
// Headers

/// There is a header for each platform that a move is listed under, and for no other; it tells how
/// many moves are listed under the platform, and whether it is expanded.
pub proof fn lemma_header_of_each_platform(
    plan: Seq<MoveView>,
    output_root: Seq<PartView>,
    expanded_slugs: Set<Seq<char>>,
    expanded_games: Set<Seq<char>>,
    slug: Seq<char>,
    count: nat,
    expanded: bool,
)
    ensures
        rows::display_rows(plan, output_root, expanded_slugs, expanded_games).contains(
            RowView::SlugHeader { slug, count, expanded },
        ) <==> (exists|at: int| 0 <= at < plan.len() && rows::row_slug(#[trigger] plan[at]) == slug)
            && count == moves_of_platform(plan, slug, plan.len()).len() && expanded
            == expanded_slugs.contains(slug),
{
    let groups = rows::grouped(plan, output_root, plan.len());
    let shown = rows::display_rows(plan, output_root, expanded_slugs, expanded_games);
    let row = RowView::SlugHeader { slug, count, expanded };
    rows::lemma_grouping_is_faithful(plan, output_root, plan.len());
    lemma_groups_list_moves(plan, output_root, plan.len());
    if shown.contains(row) {
        let k = choose|k: int| 0 <= k < shown.len() && shown[k] == row;
        let s = row_laws::slug_at(plan, groups, expanded_slugs, expanded_games, k);
        assert(rows::games_in_order(groups[s].games));
        assert(rows::move_count(groups[s].games) == moves_of_platform(
            plan,
            groups[s].slug,
            plan.len(),
        ).len());
        lemma_platform_has_a_game(plan, output_root, s);
        let index = row_laws::lemma_listed_game_has_move(plan, output_root, s, 0);
        assert(rows::row_slug(plan[index]) == slug);
    }
    if (exists|at: int| 0 <= at < plan.len() && rows::row_slug(#[trigger] plan[at]) == slug)
        && count == moves_of_platform(plan, slug, plan.len()).len() && expanded
        == expanded_slugs.contains(slug) {
        let at = choose|at: int| 0 <= at < plan.len() && rows::row_slug(#[trigger] plan[at]) == slug;
        let game = rows::game_name(plan[at], output_root);
        assert(rows::in_slugs(groups, slug, game, at));
        let s = choose|s: int|
            0 <= s < groups.len() && (#[trigger] groups[s]).slug == slug && rows::in_games(
                groups[s].games,
                game,
                at,
            );
        assert(rows::move_count(groups[s].games) == count);
        row_laws::lemma_row_of_slug(plan, groups, expanded_slugs, expanded_games, s, 0);
        let k = rows::slugs_rows(plan, groups.take(s), expanded_slugs, expanded_games).len();
        assert(shown[k as int] == row);
    }
}

/// A platform that is listed has a game.
proof fn lemma_platform_has_a_game(plan: Seq<MoveView>, output_root: Seq<PartView>, s: int)
    requires
        0 <= s < rows::grouped(plan, output_root, plan.len()).len(),
    ensures
        rows::grouped(plan, output_root, plan.len())[s].games.len() > 0,
{
    lemma_all_platforms_have_games(plan, output_root, plan.len(), s);
}

proof fn lemma_all_platforms_have_games(
    plan: Seq<MoveView>,
    output_root: Seq<PartView>,
    count: nat,
    s: int,
)
    requires
        count <= plan.len(),
        0 <= s < rows::grouped(plan, output_root, count).len(),
    ensures
        rows::grouped(plan, output_root, count)[s].games.len() > 0,
    decreases count,
{
    if count > 0 {
        let less = (count - 1) as nat;
        let groups = rows::grouped(plan, output_root, less);
        let names = rows::slug_names(groups);
        let slug = rows::row_slug(plan[less as int]);
        let game = rows::game_name(plan[less as int], output_root);
        let at = rows::place(names, slug);
        rows::lemma_place_bounds(names, slug);
        if at < groups.len() && groups[at].slug == slug {
            rows::lemma_place_bounds(rows::game_names(groups[at].games), game);
            if s != at {
                lemma_all_platforms_have_games(plan, output_root, less, s);
            } else {
                lemma_all_platforms_have_games(plan, output_root, less, at);
            }
        } else if s == at {
            rows::lemma_place_bounds(rows::game_names(Seq::<GameGroup>::empty()), game);
        } else {
            lemma_all_platforms_have_games(
                plan,
                output_root,
                less,
                if s < at {
                    s
                } else {
                    s - 1
                },
            );
        }
    }
}

/// There is a header for each game of an expanded platform that a move is listed under, and for no
/// other; it tells how many moves are listed under the game, the confidence and reason of the first
/// of them, whether any of them is marked, and whether the game is expanded.
pub proof fn lemma_header_of_each_game(
    plan: Seq<MoveView>,
    output_root: Seq<PartView>,
    expanded_slugs: Set<Seq<char>>,
    expanded_games: Set<Seq<char>>,
    row: RowView,
)
    requires
        row is GameHeader,
    ensures
        rows::display_rows(plan, output_root, expanded_slugs, expanded_games).contains(row)
            <==> tells_of_game(plan, output_root, expanded_slugs, expanded_games, row),
{
    let groups = rows::grouped(plan, output_root, plan.len());
    let shown = rows::display_rows(plan, output_root, expanded_slugs, expanded_games);
    rows::lemma_grouping_is_faithful(plan, output_root, plan.len());
    lemma_groups_list_moves(plan, output_root, plan.len());
    if shown.contains(row) {
        let k = choose|k: int| 0 <= k < shown.len() && shown[k] == row;
        let (s, m) = row_laws::slug_and_game_at(plan, groups, expanded_slugs, expanded_games, k);
        let games = groups[s].games;
        assert(rows::games_in_order(games));
        assert(groups[s].games[m].indices == moves_of_game(
            plan,
            output_root,
            groups[s].slug,
            groups[s].games[m].game,
            plan.len(),
        ));
    }
    if tells_of_game(plan, output_root, expanded_slugs, expanded_games, row) {
        if let RowView::GameHeader { slug, game, .. } = row {
            let own = moves_of_game(plan, output_root, slug, game, plan.len());
            lemma_moves_are_of_the_game(plan, output_root, slug, game, plan.len(), 0);
            let index = own[0];
            assert(rows::in_slugs(groups, slug, game, index));
            let s = choose|s: int|
                0 <= s < groups.len() && (#[trigger] groups[s]).slug == slug && rows::in_games(
                    groups[s].games,
                    game,
                    index,
                );
            let games = groups[s].games;
            let m = choose|m: int|
                0 <= m < games.len() && (#[trigger] games[m]).game == game
                    && games[m].indices.contains(index);
            assert(groups[s].games[m].indices == own);
            row_laws::lemma_row_of_game(plan, slug, games, expanded_games, m);
            let within = rows::games_rows(plan, slug, games.take(m), expanded_games).len() as int;
            let rows_of_slug = rows::slug_rows(plan, groups[s], expanded_slugs, expanded_games);
            assert(rows_of_slug[within + 1] == rows::games_rows(
                plan,
                slug,
                games,
                expanded_games,
            )[within]);
            row_laws::lemma_row_of_slug(
                plan,
                groups,
                expanded_slugs,
                expanded_games,
                s,
                within + 1,
            );
            let k = rows::slugs_rows(plan, groups.take(s), expanded_slugs, expanded_games).len()
                + within + 1;
            assert(shown[k as int] == row);
        }
    }
}

/// What the header of a game tells.
pub open spec fn tells_of_game(
    plan: Seq<MoveView>,
    output_root: Seq<PartView>,
    expanded_slugs: Set<Seq<char>>,
    expanded_games: Set<Seq<char>>,
    row: RowView,
) -> bool {
    row matches RowView::GameHeader {
        slug,
        game,
        count,
        confidence,
        reason,
        has_conflict,
        expanded,
    } && {
        let own = moves_of_game(plan, output_root, slug, game, plan.len());
        &&& expanded_slugs.contains(slug)
        &&& own.len() > 0
        &&& count == own.len()
        &&& confidence == plan[own[0]].confidence
        &&& reason == plan[own[0]].reason
        &&& has_conflict == has_marked(plan, own)
        &&& expanded == expanded_games.contains(rows::key(slug, game))
    }
}

/// Any of these moves is marked.
pub open spec fn has_marked(plan: Seq<MoveView>, indices: Seq<int>) -> bool {
    exists|k: int| 0 <= k < indices.len() && plan[#[trigger] indices[k]].has_conflict
}

/// The moves that are listed under a game are of that platform and game, and stand in the order of
/// the plan.
pub proof fn lemma_moves_are_of_the_game(
    plan: Seq<MoveView>,
    output_root: Seq<PartView>,
    slug: Seq<char>,
    game: Seq<char>,
    count: nat,
    k: int,
)
    requires
        0 <= k < moves_of_game(plan, output_root, slug, game, count).len(),
    ensures
        ({
            let own = moves_of_game(plan, output_root, slug, game, count);
            &&& 0 <= own[k] < count
            &&& rows::row_slug(plan[own[k]]) == slug
            &&& rows::game_name(plan[own[k]], output_root) == game
            &&& forall|j: int| 0 <= j < k ==> #[trigger] own[j] < own[k]
        }),
    decreases count,
{
    let own = moves_of_game(plan, output_root, slug, game, count);
    if count == 0 {
        reveal(Seq::filter);
        assert(false);
    } else {
        let less = (count - 1) as nat;
        let before = moves_of_game(plan, output_root, slug, game, less);
        lemma_one_more_move(plan, output_root, slug, game, less);
        if k < before.len() {
            lemma_moves_are_of_the_game(plan, output_root, slug, game, less, k);
            assert forall|j: int| 0 <= j < k implies #[trigger] own[j] < own[k] by {
                assert(before[j] < before[k]);
            }
        } else {
            assert forall|j: int| 0 <= j < k implies #[trigger] own[j] < own[k] by {
                lemma_moves_are_of_the_game(plan, output_root, slug, game, less, j);
                assert(before[j] == own[j]);
            }
        }
    }
}

// ---------------------------------------------------------------------------------------------
// Order

/// The platform that a row belongs to.
pub open spec fn platform_of(plan: Seq<MoveView>, row: RowView) -> Seq<char> {
    match row {
        RowView::SlugHeader { slug, .. } => slug,
        RowView::GameHeader { slug, .. } => slug,
        RowView::Item { plan_index } => rows::row_slug(plan[plan_index]),
    }
}

/// The game that a row belongs to.
pub open spec fn game_of(
    plan: Seq<MoveView>,
    output_root: Seq<PartView>,
    row: RowView,
) -> Seq<char> {
    match row {
        RowView::SlugHeader { .. } => Seq::empty(),
        RowView::GameHeader { game, .. } => game,
        RowView::Item { plan_index } => rows::game_name(plan[plan_index], output_root),
    }
}

/// A row comes before another: by platform; within a platform its header first and then by game;
/// within a game its header first and then by the order of the plan.
pub open spec fn comes_before(
    plan: Seq<MoveView>,
    output_root: Seq<PartView>,
    one: RowView,
    other: RowView,
) -> bool {
    let slug = platform_of(plan, one);
    let next_slug = platform_of(plan, other);
    let game = game_of(plan, output_root, one);
    let next_game = game_of(plan, output_root, other);
    ||| text::precedes(slug, next_slug)
    ||| slug == next_slug && one is SlugHeader && !(other is SlugHeader)
    ||| slug == next_slug && !(one is SlugHeader) && !(other is SlugHeader) && text::precedes(
        game,
        next_game,
    )
    ||| slug == next_slug && game == next_game && one is GameHeader && other is Item
    ||| slug == next_slug && game == next_game && (one matches RowView::Item { plan_index: here }
        && other matches RowView::Item { plan_index: there } && here < there)
}

/// Rows stand in order.
pub open spec fn in_order(
    plan: Seq<MoveView>,
    output_root: Seq<PartView>,
    shown: Seq<RowView>,
) -> bool {
    forall|one: int, other: int|
        0 <= one < other < shown.len() ==> comes_before(
            plan,
            output_root,
            #[trigger] shown[one],
            #[trigger] shown[other],
        )
}

/// The rows of a plan stand in order.
pub proof fn lemma_rows_are_in_order(
    plan: Seq<MoveView>,
    output_root: Seq<PartView>,
    expanded_slugs: Set<Seq<char>>,
    expanded_games: Set<Seq<char>>,
)
    ensures
        in_order(
            plan,
            output_root,
            rows::display_rows(plan, output_root, expanded_slugs, expanded_games),
        ),
{
    let groups = rows::grouped(plan, output_root, plan.len());
    rows::lemma_grouping_is_faithful(plan, output_root, plan.len());
    lemma_groups_list_moves(plan, output_root, plan.len());
    assert(groups.take(groups.len() as int) =~= groups);
    lemma_slugs_in_order(plan, output_root, expanded_slugs, expanded_games, groups.len());
}

proof fn lemma_slugs_in_order(
    plan: Seq<MoveView>,
    output_root: Seq<PartView>,
    expanded_slugs: Set<Seq<char>>,
    expanded_games: Set<Seq<char>>,
    limit: nat,
)
    requires
        limit <= rows::grouped(plan, output_root, plan.len()).len(),
    ensures
        ({
            let groups = rows::grouped(plan, output_root, plan.len());
            let shown = rows::slugs_rows(
                plan,
                groups.take(limit as int),
                expanded_slugs,
                expanded_games,
            );
            &&& in_order(plan, output_root, shown)
            &&& forall|k: int|
                0 <= k < shown.len() ==> exists|s: int|
                    0 <= s < limit && platform_of(plan, #[trigger] shown[k]) == (
                    #[trigger] groups[s]).slug
        }),
    decreases limit,
{
    let groups = rows::grouped(plan, output_root, plan.len());
    let some = groups.take(limit as int);
    let shown = rows::slugs_rows(plan, some, expanded_slugs, expanded_games);
    if limit > 0 {
        let at = limit - 1;
        let fewer = groups.take(at);
        let group = groups[at];
        let before = rows::slugs_rows(plan, fewer, expanded_slugs, expanded_games);
        let own = rows::slug_rows(plan, group, expanded_slugs, expanded_games);
        let inner = rows::games_rows(plan, group.slug, group.games, expanded_games);
        rows::lemma_grouping_is_faithful(plan, output_root, plan.len());
        lemma_slugs_in_order(plan, output_root, expanded_slugs, expanded_games, at as nat);
        assert(some.drop_last() =~= fewer);
        assert(some.last() == group);
        assert(shown == before + own);
        assert(group.games.take(group.games.len() as int) =~= group.games);
        lemma_games_in_order(plan, output_root, expanded_games, at, group.games.len());
        assert forall|k: int| 0 <= k < own.len() implies platform_of(plan, #[trigger] own[k])
            == group.slug && (k > 0 ==> !(own[k] is SlugHeader)) by {
            if k > 0 {
                assert(own[k] == inner[k - 1]);
                assert(platform_of(plan, inner[k - 1]) == group.slug);
            }
        }
        assert forall|one: int, other: int| 0 <= one < other < shown.len() implies comes_before(
            plan,
            output_root,
            #[trigger] shown[one],
            #[trigger] shown[other],
        ) by {
            if other < before.len() {
                assert(shown[one] == before[one] && shown[other] == before[other]);
            } else if one >= before.len() {
                let i = one - before.len();
                let j = other - before.len();
                assert(shown[one] == own[i] && shown[other] == own[j]);
                if i > 0 {
                    assert(own[i] == inner[i - 1] && own[j] == inner[j - 1]);
                }
            } else {
                assert(shown[one] == before[one] && shown[other] == own[other - before.len()]);
                let s = choose|s: int|
                    0 <= s < at && platform_of(plan, before[one]) == (#[trigger] groups[s]).slug;
                let names = rows::slug_names(groups);
                assert(names[s] == groups[s].slug && names[at] == group.slug);
                assert(text::precedes(names[s], names[at]));
            }
        }
        assert forall|k: int| 0 <= k < shown.len() implies exists|s: int|
            0 <= s < limit && platform_of(plan, #[trigger] shown[k]) == (
            #[trigger] groups[s]).slug by {
            if k < before.len() {
                assert(shown[k] == before[k]);
            } else {
                assert(shown[k] == own[k - before.len()]);
                assert(platform_of(plan, shown[k]) == groups[at].slug);
            }
        }
    }
}

proof fn lemma_games_in_order(
    plan: Seq<MoveView>,
    output_root: Seq<PartView>,
    expanded_games: Set<Seq<char>>,
    s: int,
    limit: nat,
)
    requires
        0 <= s < rows::grouped(plan, output_root, plan.len()).len(),
        limit <= rows::grouped(plan, output_root, plan.len())[s].games.len(),
    ensures
        ({
            let group = rows::grouped(plan, output_root, plan.len())[s];
            let shown = rows::games_rows(
                plan,
                group.slug,
                group.games.take(limit as int),
                expanded_games,
            );
            &&& in_order(plan, output_root, shown)
            &&& forall|k: int|
                0 <= k < shown.len() ==> platform_of(plan, #[trigger] shown[k]) == group.slug
                    && !(shown[k] is SlugHeader)
            &&& forall|k: int|
                0 <= k < shown.len() ==> exists|m: int|
                    0 <= m < limit && game_of(plan, output_root, #[trigger] shown[k]) == (
                    #[trigger] group.games[m]).game
        }),
    decreases limit,
{
    let group = rows::grouped(plan, output_root, plan.len())[s];
    let games = group.games;
    let some = games.take(limit as int);
    let shown = rows::games_rows(plan, group.slug, some, expanded_games);
    if limit > 0 {
        let at = limit - 1;
        let fewer = games.take(at);
        let game = games[at];
        let before = rows::games_rows(plan, group.slug, fewer, expanded_games);
        let own = rows::game_rows(plan, group.slug, game, expanded_games);
        let items = rows::item_rows(game.indices);
        rows::lemma_grouping_is_faithful(plan, output_root, plan.len());
        lemma_groups_list_moves(plan, output_root, plan.len());
        lemma_games_in_order(plan, output_root, expanded_games, s, at as nat);
        assert(some.drop_last() =~= fewer);
        assert(some.last() == game);
        assert(shown == before + own);
        assert(rows::games_in_order(games));
        assert(rows::grouped(plan, output_root, plan.len())[s].games[at].indices == moves_of_game(
            plan,
            output_root,
            group.slug,
            game.game,
            plan.len(),
        ));
        assert forall|k: int| 0 <= k < own.len() implies platform_of(plan, #[trigger] own[k])
            == group.slug && game_of(plan, output_root, own[k]) == game.game && !(
        own[k] is SlugHeader) && (k > 0 ==> own[k] == (RowView::Item {
            plan_index: game.indices[k - 1],
        })) by {
            if k > 0 {
                assert(own[k] == items[k - 1]);
                lemma_moves_are_of_the_game(
                    plan,
                    output_root,
                    group.slug,
                    game.game,
                    plan.len(),
                    k - 1,
                );
            }
        }
        assert forall|one: int, other: int| 0 <= one < other < shown.len() implies comes_before(
            plan,
            output_root,
            #[trigger] shown[one],
            #[trigger] shown[other],
        ) by {
            if other < before.len() {
                assert(shown[one] == before[one] && shown[other] == before[other]);
            } else if one >= before.len() {
                let i = one - before.len();
                let j = other - before.len();
                assert(shown[one] == own[i] && shown[other] == own[j]);
                if i > 0 {
                    lemma_moves_are_of_the_game(
                        plan,
                        output_root,
                        group.slug,
                        game.game,
                        plan.len(),
                        j - 1,
                    );
                    assert(game.indices[i - 1] < game.indices[j - 1]);
                }
            } else {
                assert(shown[one] == before[one] && shown[other] == own[other - before.len()]);
                let m = choose|m: int|
                    0 <= m < at && game_of(plan, output_root, before[one]) == (
                    #[trigger] games[m]).game;
                let names = rows::game_names(games);
                assert(names[m] == games[m].game && names[at] == game.game);
                assert(text::precedes(names[m], names[at]));
            }
        }
        assert forall|k: int| 0 <= k < shown.len() implies platform_of(plan, #[trigger] shown[k])
            == group.slug && !(shown[k] is SlugHeader) && exists|m: int|
            0 <= m < limit && game_of(plan, output_root, shown[k]) == (
            #[trigger] games[m]).game by {
            if k < before.len() {
                assert(shown[k] == before[k]);
            } else {
                assert(shown[k] == own[k - before.len()]);
                assert(game_of(plan, output_root, shown[k]) == games[at].game);
            }
        }
    }
}

}
