//! What holds of the rows of a plan.

use vstd::prelude::*;
use crate::model::MoveView;
use crate::paths::PartView;
use crate::rows;
use crate::rows::{GameGroup, RowView, SlugGroup};

verus! {

/// Rows of single moves name moves of the plan.
pub proof fn lemma_rows_point_into_plan(
    plan: Seq<MoveView>,
    output_root: Seq<PartView>,
    expanded_slugs: Set<Seq<char>>,
    expanded_games: Set<Seq<char>>,
)
    ensures
        forall|k: int|
            #![trigger rows::display_rows(plan, output_root, expanded_slugs, expanded_games)[k]]
            0 <= k < rows::display_rows(plan, output_root, expanded_slugs, expanded_games).len()
                ==> (rows::display_rows(plan, output_root, expanded_slugs, expanded_games)[k] matches
            RowView::Item { plan_index } ==> 0 <= plan_index < plan.len()),
{
    let shown = rows::display_rows(plan, output_root, expanded_slugs, expanded_games);
    assert forall|k: int| #![trigger shown[k]] 0 <= k < shown.len() implies (
    shown[k] matches RowView::Item { plan_index } ==> 0 <= plan_index < plan.len()) by {
        if let RowView::Item { plan_index } = shown[k] {
            assert(shown.contains(RowView::Item { plan_index }));
            lemma_item_shown_when_expanded(
                plan,
                output_root,
                expanded_slugs,
                expanded_games,
                plan_index,
            );
        }
    }
}

/// A move has a row of its own exactly when its platform and its game are expanded.
pub proof fn lemma_item_shown_when_expanded(
    plan: Seq<MoveView>,
    output_root: Seq<PartView>,
    expanded_slugs: Set<Seq<char>>,
    expanded_games: Set<Seq<char>>,
    index: int,
)
    ensures
        rows::display_rows(plan, output_root, expanded_slugs, expanded_games).contains(
            RowView::Item { plan_index: index },
        ) <==> 0 <= index < plan.len() && expanded_slugs.contains(rows::row_slug(plan[index]))
            && expanded_games.contains(
            rows::key(
                rows::row_slug(plan[index]),
                rows::game_name(plan[index], output_root),
            ),
        ),
{
    let groups = rows::grouped(plan, output_root, plan.len());
    rows::lemma_grouping_is_faithful(plan, output_root, plan.len());
    lemma_slugs_items(plan, groups, expanded_slugs, expanded_games, index);
    if in_expanded_slugs(groups, expanded_slugs, expanded_games, index) {
        let s = choose|s: int|
            0 <= s < groups.len() && expanded_slugs.contains((#[trigger] groups[s]).slug)
                && in_expanded_games(groups[s].slug, groups[s].games, expanded_games, index);
        let games = groups[s].games;
        let m = choose|m: int|
            0 <= m < games.len() && expanded_games.contains(
                rows::key(groups[s].slug, (#[trigger] games[m]).game),
            ) && games[m].indices.contains(index);
        assert(rows::in_games(games, games[m].game, index));
        assert(rows::in_slugs(groups, groups[s].slug, games[m].game, index));
    }
    if 0 <= index < plan.len() && expanded_slugs.contains(rows::row_slug(plan[index]))
        && expanded_games.contains(
        rows::key(rows::row_slug(plan[index]), rows::game_name(plan[index], output_root)),
    ) {
        let slug = rows::row_slug(plan[index]);
        let game = rows::game_name(plan[index], output_root);
        assert(rows::in_slugs(groups, slug, game, index));
        let s = choose|s: int|
            0 <= s < groups.len() && (#[trigger] groups[s]).slug == slug && rows::in_games(
                groups[s].games,
                game,
                index,
            );
        let games = groups[s].games;
        let m = choose|m: int|
            0 <= m < games.len() && (#[trigger] games[m]).game == game
                && games[m].indices.contains(index);
        assert(in_expanded_games(groups[s].slug, games, expanded_games, index));
    }
}

/// A move is listed under an expanded game of these.
spec fn in_expanded_games(
    slug: Seq<char>,
    games: Seq<GameGroup>,
    expanded_games: Set<Seq<char>>,
    index: int,
) -> bool {
    exists|m: int|
        0 <= m < games.len() && expanded_games.contains(
            rows::key(slug, (#[trigger] games[m]).game),
        ) && games[m].indices.contains(index)
}

/// A move is listed under an expanded game of an expanded platform of these.
spec fn in_expanded_slugs(
    groups: Seq<SlugGroup>,
    expanded_slugs: Set<Seq<char>>,
    expanded_games: Set<Seq<char>>,
    index: int,
) -> bool {
    exists|s: int|
        0 <= s < groups.len() && expanded_slugs.contains((#[trigger] groups[s]).slug)
            && in_expanded_games(groups[s].slug, groups[s].games, expanded_games, index)
}

/// What a list made of two holds.
proof fn lemma_contains_sum(one: Seq<RowView>, other: Seq<RowView>, row: RowView)
    ensures
        (one + other).contains(row) <==> one.contains(row) || other.contains(row),
{
    let sum = one + other;
    if one.contains(row) {
        let k = choose|k: int| 0 <= k < one.len() && one[k] == row;
        assert(sum[k] == row);
    }
    if other.contains(row) {
        let k = choose|k: int| 0 <= k < other.len() && other[k] == row;
        assert(sum[one.len() + k] == row);
    }
    if sum.contains(row) {
        let k = choose|k: int| 0 <= k < sum.len() && sum[k] == row;
        if k < one.len() {
            assert(one[k] == row);
        } else {
            assert(other[k - one.len()] == row);
        }
    }
}

proof fn lemma_games_items(
    plan: Seq<MoveView>,
    slug: Seq<char>,
    games: Seq<GameGroup>,
    expanded_games: Set<Seq<char>>,
    index: int,
)
    ensures
        rows::games_rows(plan, slug, games, expanded_games).contains(
            RowView::Item { plan_index: index },
        ) <==> in_expanded_games(slug, games, expanded_games, index),
    decreases games.len(),
{
    let item = RowView::Item { plan_index: index };
    if games.len() > 0 {
        let fewer = games.drop_last();
        let last = games.last();
        let head = seq![rows::game_header(plan, slug, last, expanded_games)];
        lemma_games_items(plan, slug, fewer, expanded_games, index);
        lemma_contains_sum(
            rows::games_rows(plan, slug, fewer, expanded_games),
            rows::game_rows(plan, slug, last, expanded_games),
            item,
        );
        lemma_contains_sum(head, rows::item_rows(last.indices), item);
        assert(!head.contains(item));
        let of_last = rows::item_rows(last.indices);
        if of_last.contains(item) {
            let k = choose|k: int| 0 <= k < of_last.len() && of_last[k] == item;
            assert(last.indices[k] == index);
        }
        if last.indices.contains(index) {
            let k = choose|k: int| 0 <= k < last.indices.len() && last.indices[k] == index;
            assert(of_last[k] == item);
        }
        if in_expanded_games(slug, fewer, expanded_games, index) {
            let m = choose|m: int|
                0 <= m < fewer.len() && expanded_games.contains(
                    rows::key(slug, (#[trigger] fewer[m]).game),
                ) && fewer[m].indices.contains(index);
            assert(games[m] == fewer[m]);
        }
        if in_expanded_games(slug, games, expanded_games, index) {
            let m = choose|m: int|
                0 <= m < games.len() && expanded_games.contains(
                    rows::key(slug, (#[trigger] games[m]).game),
                ) && games[m].indices.contains(index);
            if m < fewer.len() {
                assert(games[m] == fewer[m]);
            }
        }
        if expanded_games.contains(rows::key(slug, last.game)) && last.indices.contains(index) {
            assert(games[games.len() - 1] == last);
        }
    }
}

proof fn lemma_slugs_items(
    plan: Seq<MoveView>,
    groups: Seq<SlugGroup>,
    expanded_slugs: Set<Seq<char>>,
    expanded_games: Set<Seq<char>>,
    index: int,
)
    ensures
        rows::slugs_rows(plan, groups, expanded_slugs, expanded_games).contains(
            RowView::Item { plan_index: index },
        ) <==> in_expanded_slugs(groups, expanded_slugs, expanded_games, index),
    decreases groups.len(),
{
    let item = RowView::Item { plan_index: index };
    if groups.len() > 0 {
        let fewer = groups.drop_last();
        let last = groups.last();
        let head = seq![
            RowView::SlugHeader {
                slug: last.slug,
                count: rows::move_count(last.games),
                expanded: expanded_slugs.contains(last.slug),
            },
        ];
        lemma_slugs_items(plan, fewer, expanded_slugs, expanded_games, index);
        lemma_games_items(plan, last.slug, last.games, expanded_games, index);
        lemma_contains_sum(
            rows::slugs_rows(plan, fewer, expanded_slugs, expanded_games),
            rows::slug_rows(plan, last, expanded_slugs, expanded_games),
            item,
        );
        lemma_contains_sum(
            head,
            rows::games_rows(plan, last.slug, last.games, expanded_games),
            item,
        );
        assert(!head.contains(item));
        if in_expanded_slugs(fewer, expanded_slugs, expanded_games, index) {
            let s = choose|s: int|
                0 <= s < fewer.len() && expanded_slugs.contains((#[trigger] fewer[s]).slug)
                    && in_expanded_games(fewer[s].slug, fewer[s].games, expanded_games, index);
            assert(groups[s] == fewer[s]);
        }
        if in_expanded_slugs(groups, expanded_slugs, expanded_games, index) {
            let s = choose|s: int|
                0 <= s < groups.len() && expanded_slugs.contains((#[trigger] groups[s]).slug)
                    && in_expanded_games(groups[s].slug, groups[s].games, expanded_games, index);
            if s < fewer.len() {
                assert(groups[s] == fewer[s]);
            }
        }
        if expanded_slugs.contains(last.slug) && in_expanded_games(
            last.slug,
            last.games,
            expanded_games,
            index,
        ) {
            assert(groups[groups.len() - 1] == last);
        }
    }
}

/// A plan has rows exactly when it has moves.
pub proof fn lemma_rows_when_moves(
    plan: Seq<MoveView>,
    output_root: Seq<PartView>,
    expanded_slugs: Set<Seq<char>>,
    expanded_games: Set<Seq<char>>,
)
    ensures
        rows::display_rows(plan, output_root, expanded_slugs, expanded_games).len() == 0
            <==> plan.len() == 0,
{
    let groups = rows::grouped(plan, output_root, plan.len());
    rows::lemma_grouping_is_faithful(plan, output_root, plan.len());
    if groups.len() > 0 {
        if plan.len() == 0 {
            assert(groups.len() == 0);
        }
    } else {
        assert(rows::total_count(groups) == 0);
    }
}

/// Expanding more never takes rows away.
pub proof fn lemma_expanding_adds_rows(
    plan: Seq<MoveView>,
    output_root: Seq<PartView>,
    expanded_slugs: Set<Seq<char>>,
    expanded_games: Set<Seq<char>>,
    more_slugs: Set<Seq<char>>,
    more_games: Set<Seq<char>>,
)
    requires
        expanded_slugs.subset_of(more_slugs),
        expanded_games.subset_of(more_games),
    ensures
        rows::display_rows(plan, output_root, expanded_slugs, expanded_games).len()
            <= rows::display_rows(plan, output_root, more_slugs, more_games).len(),
{
    lemma_slugs_grow(
        plan,
        rows::grouped(plan, output_root, plan.len()),
        expanded_slugs,
        expanded_games,
        more_slugs,
        more_games,
    );
}

proof fn lemma_games_grow(
    plan: Seq<MoveView>,
    slug: Seq<char>,
    games: Seq<GameGroup>,
    expanded_games: Set<Seq<char>>,
    more_games: Set<Seq<char>>,
)
    requires
        expanded_games.subset_of(more_games),
    ensures
        rows::games_rows(plan, slug, games, expanded_games).len() <= rows::games_rows(
            plan,
            slug,
            games,
            more_games,
        ).len(),
    decreases games.len(),
{
    if games.len() > 0 {
        lemma_games_grow(plan, slug, games.drop_last(), expanded_games, more_games);
    }
}

proof fn lemma_slugs_grow(
    plan: Seq<MoveView>,
    groups: Seq<SlugGroup>,
    expanded_slugs: Set<Seq<char>>,
    expanded_games: Set<Seq<char>>,
    more_slugs: Set<Seq<char>>,
    more_games: Set<Seq<char>>,
)
    requires
        expanded_slugs.subset_of(more_slugs),
        expanded_games.subset_of(more_games),
    ensures
        rows::slugs_rows(plan, groups, expanded_slugs, expanded_games).len() <= rows::slugs_rows(
            plan,
            groups,
            more_slugs,
            more_games,
        ).len(),
    decreases groups.len(),
{
    if groups.len() > 0 {
        let last = groups.last();
        lemma_slugs_grow(
            plan,
            groups.drop_last(),
            expanded_slugs,
            expanded_games,
            more_slugs,
            more_games,
        );
        lemma_games_grow(plan, last.slug, last.games, expanded_games, more_games);
    }
}

// ---------------------------------------------------------------------------------------------
// No move has two rows

/// Numbers below a limit that rise from one to the next.
spec fn rises(indices: Seq<int>, limit: int) -> bool {
    &&& forall|k: int| 0 <= k < indices.len() ==> #[trigger] indices[k] < limit
    &&& forall|one: int, other: int|
        0 <= one < other < indices.len() ==> #[trigger] indices[one] < #[trigger] indices[other]
}

spec fn games_rise(games: Seq<GameGroup>, limit: int) -> bool {
    forall|m: int| 0 <= m < games.len() ==> rises((#[trigger] games[m]).indices, limit)
}

spec fn slugs_rise(groups: Seq<SlugGroup>, limit: int) -> bool {
    forall|s: int| 0 <= s < groups.len() ==> games_rise((#[trigger] groups[s]).games, limit)
}

proof fn lemma_games_rise(games: Seq<GameGroup>, game: Seq<char>, index: int)
    requires
        games_rise(games, index),
    ensures
        games_rise(rows::add_to_games(games, game, index), index + 1),
{
    let names = rows::game_names(games);
    let at = rows::place(names, game);
    let now = rows::add_to_games(games, game, index);
    rows::lemma_place_bounds(names, game);
    assert forall|m: int| 0 <= m < now.len() implies rises((#[trigger] now[m]).indices, index
        + 1) by {
        if at < games.len() && games[at].game == game {
            assert(rises(games[m].indices, index));
        } else if m < at {
            assert(rises(games[m].indices, index));
        } else if m > at {
            assert(rises(games[m - 1].indices, index));
        }
    }
}

/// The moves of each game are listed in the order of the plan.
proof fn lemma_moves_rise(plan: Seq<MoveView>, output_root: Seq<PartView>, count: nat)
    requires
        count <= plan.len(),
    ensures
        slugs_rise(rows::grouped(plan, output_root, count), count as int),
    decreases count,
{
    if count > 0 {
        let item = plan[count - 1];
        let slug = rows::row_slug(item);
        let game = rows::game_name(item, output_root);
        let groups = rows::grouped(plan, output_root, (count - 1) as nat);
        let names = rows::slug_names(groups);
        let at = rows::place(names, slug);
        let now = rows::grouped(plan, output_root, count);
        lemma_moves_rise(plan, output_root, (count - 1) as nat);
        rows::lemma_place_bounds(names, slug);
        lemma_games_rise(Seq::empty(), game, count - 1);
        assert forall|s: int| 0 <= s < now.len() implies games_rise(
            (#[trigger] now[s]).games,
            count as int,
        ) by {
            if at < groups.len() && groups[at].slug == slug {
                if s == at {
                    lemma_games_rise(groups[s].games, game, count - 1);
                } else {
                    lemma_rise_further(groups[s].games, count - 1);
                }
            } else if s < at {
                lemma_rise_further(groups[s].games, count - 1);
            } else if s > at {
                lemma_rise_further(groups[s - 1].games, count - 1);
            }
        }
    }
}

proof fn lemma_rise_further(games: Seq<GameGroup>, limit: int)
    requires
        games_rise(games, limit),
    ensures
        games_rise(games, limit + 1),
{
    assert forall|m: int| 0 <= m < games.len() implies rises(
        (#[trigger] games[m]).indices,
        limit + 1,
    ) by {
        assert(rises(games[m].indices, limit));
    }
}

/// No row of a single move occurs twice.
spec fn no_repeats(shown: Seq<RowView>) -> bool {
    forall|one: int, other: int|
        0 <= one < other < shown.len() && (#[trigger] shown[one]) is Item ==> shown[one]
            != #[trigger] shown[other]
}

proof fn lemma_no_repeats_in_sum(one: Seq<RowView>, other: Seq<RowView>)
    requires
        no_repeats(one),
        no_repeats(other),
        forall|index: int|
            one.contains(RowView::Item { plan_index: index }) ==> !(#[trigger] other.contains(
                RowView::Item { plan_index: index },
            )),
    ensures
        no_repeats(one + other),
{
    let sum = one + other;
    assert forall|i: int, j: int| 0 <= i < j < sum.len() && (#[trigger] sum[i]) is Item implies
        sum[i] != #[trigger] sum[j] by {
        if j < one.len() {
            assert(one[i] != one[j]);
        } else if i >= one.len() {
            assert(other[i - one.len()] != other[j - one.len()]);
        } else if let RowView::Item { plan_index } = sum[i] {
            assert(one[i] == sum[i]);
            assert(other[j - one.len()] == sum[j]);
            assert(one.contains(RowView::Item { plan_index }));
            assert(!other.contains(RowView::Item { plan_index }));
        }
    }
}

/// No move is listed under two of these games.
spec fn games_apart(games: Seq<GameGroup>) -> bool {
    forall|one: int, other: int, index: int|
        0 <= one < other < games.len() && (#[trigger] games[one].indices.contains(index))
            ==> !(#[trigger] games[other].indices.contains(index))
}

proof fn lemma_games_no_repeats(
    plan: Seq<MoveView>,
    slug: Seq<char>,
    games: Seq<GameGroup>,
    expanded_games: Set<Seq<char>>,
    limit: int,
)
    requires
        games_rise(games, limit),
        games_apart(games),
    ensures
        no_repeats(rows::games_rows(plan, slug, games, expanded_games)),
    decreases games.len(),
{
    if games.len() > 0 {
        let fewer = games.drop_last();
        let last = games.last();
        let before = rows::games_rows(plan, slug, fewer, expanded_games);
        let own = rows::game_rows(plan, slug, last, expanded_games);
        assert(games[games.len() - 1] == last);
        assert forall|m: int| 0 <= m < fewer.len() implies rises(
            (#[trigger] fewer[m]).indices,
            limit,
        ) by {
            assert(games[m] == fewer[m]);
        }
        assert forall|one: int, other: int, index: int|
            0 <= one < other < fewer.len() && (#[trigger] fewer[one].indices.contains(
                index,
            )) implies !(#[trigger] fewer[other].indices.contains(index)) by {
            assert(games[one].indices.contains(index));
            assert(!games[other].indices.contains(index));
        }
        lemma_games_no_repeats(plan, slug, fewer, expanded_games, limit);
        let items = rows::item_rows(last.indices);
        assert(no_repeats(own)) by {
            assert forall|i: int, j: int|
                0 <= i < j < own.len() && (#[trigger] own[i]) is Item implies own[i]
                != #[trigger] own[j] by {
                assert(i > 0);
                assert(own[i] == items[i - 1] && own[j] == items[j - 1]);
                assert(last.indices[i - 1] < last.indices[j - 1]);
            }
        }
        assert forall|index: int|
            before.contains(RowView::Item { plan_index: index }) implies !(
        #[trigger] own.contains(RowView::Item { plan_index: index })) by {
            lemma_games_items(plan, slug, fewer, expanded_games, index);
            let m = choose|m: int|
                0 <= m < fewer.len() && expanded_games.contains(
                    rows::key(slug, (#[trigger] fewer[m]).game),
                ) && fewer[m].indices.contains(index);
            assert(games[m].indices.contains(index));
            assert(!games[games.len() - 1].indices.contains(index));
            if own.contains(RowView::Item { plan_index: index }) {
                let k = choose|k: int|
                    0 <= k < own.len() && own[k] == (RowView::Item { plan_index: index });
                assert(k > 0);
                assert(own[k] == items[k - 1]);
                assert(last.indices[k - 1] == index);
            }
        }
        lemma_no_repeats_in_sum(before, own);
    }
}

/// A move is listed under one of these games.
spec fn is_listed(games: Seq<GameGroup>, index: int) -> bool {
    exists|m: int| 0 <= m < games.len() && #[trigger] games[m].indices.contains(index)
}

/// No move is listed under two of these platforms, nor under two games of one.
spec fn slugs_apart(groups: Seq<SlugGroup>) -> bool {
    &&& forall|s: int| 0 <= s < groups.len() ==> games_apart((#[trigger] groups[s]).games)
    &&& forall|one: int, other: int, index: int|
        0 <= one < other < groups.len() && (#[trigger] is_listed(groups[one].games, index))
            ==> !(#[trigger] is_listed(groups[other].games, index))
}

proof fn lemma_groups_apart(plan: Seq<MoveView>, output_root: Seq<PartView>)
    ensures
        slugs_apart(rows::grouped(plan, output_root, plan.len())),
{
    let groups = rows::grouped(plan, output_root, plan.len());
    rows::lemma_grouping_is_faithful(plan, output_root, plan.len());
    assert forall|s: int| 0 <= s < groups.len() implies games_apart(
        (#[trigger] groups[s]).games,
    ) by {
        let games = groups[s].games;
        assert(rows::games_in_order(games));
        assert forall|one: int, other: int, index: int|
            0 <= one < other < games.len() && (#[trigger] games[one].indices.contains(
                index,
            )) implies !(#[trigger] games[other].indices.contains(index)) by {
            if games[other].indices.contains(index) {
                lemma_listed_by_name(plan, output_root, s, one, index);
                lemma_listed_by_name(plan, output_root, s, other, index);
                let names = rows::game_names(games);
                assert(names[one] == games[one].game && names[other] == games[other].game);
                crate::text::lemma_precedes_asymmetric(names[one], names[other]);
            }
        }
    }
    assert forall|one: int, other: int, index: int|
        0 <= one < other < groups.len() && (#[trigger] is_listed(
            groups[one].games,
            index,
        )) implies !(#[trigger] is_listed(groups[other].games, index)) by {
        if is_listed(groups[other].games, index) {
            let m = choose|m: int|
                0 <= m < groups[one].games.len()
                    && #[trigger] groups[one].games[m].indices.contains(index);
            let n = choose|n: int|
                0 <= n < groups[other].games.len()
                    && #[trigger] groups[other].games[n].indices.contains(index);
            lemma_listed_by_name(plan, output_root, one, m, index);
            lemma_listed_by_name(plan, output_root, other, n, index);
            lemma_slugs_differ(groups, one, other);
        }
    }
}

/// A move is listed under its own platform and game.
pub(crate) proof fn lemma_listed_by_name(
    plan: Seq<MoveView>,
    output_root: Seq<PartView>,
    s: int,
    m: int,
    index: int,
)
    requires
        0 <= s < rows::grouped(plan, output_root, plan.len()).len(),
        0 <= m < rows::grouped(plan, output_root, plan.len())[s].games.len(),
        rows::grouped(plan, output_root, plan.len())[s].games[m].indices.contains(index),
    ensures
        rows::grouped(plan, output_root, plan.len())[s].slug == rows::row_slug(plan[index]),
        rows::grouped(plan, output_root, plan.len())[s].games[m].game == rows::game_name(
            plan[index],
            output_root,
        ),
{
    let groups = rows::grouped(plan, output_root, plan.len());
    rows::lemma_grouping_is_faithful(plan, output_root, plan.len());
    assert(rows::in_games(groups[s].games, groups[s].games[m].game, index));
    assert(rows::in_slugs(groups, groups[s].slug, groups[s].games[m].game, index));
}

proof fn lemma_slugs_no_repeats(
    plan: Seq<MoveView>,
    groups: Seq<SlugGroup>,
    expanded_slugs: Set<Seq<char>>,
    expanded_games: Set<Seq<char>>,
    limit: int,
)
    requires
        slugs_rise(groups, limit),
        slugs_apart(groups),
    ensures
        no_repeats(rows::slugs_rows(plan, groups, expanded_slugs, expanded_games)),
    decreases groups.len(),
{
    if groups.len() > 0 {
        let fewer = groups.drop_last();
        let last = groups.last();
        let before = rows::slugs_rows(plan, fewer, expanded_slugs, expanded_games);
        let own = rows::slug_rows(plan, last, expanded_slugs, expanded_games);
        let inner = rows::games_rows(plan, last.slug, last.games, expanded_games);
        assert(groups[groups.len() - 1] == last);
        assert(slugs_rise(fewer, limit) && slugs_apart(fewer)) by {
            assert forall|s: int| 0 <= s < fewer.len() implies games_rise(
                (#[trigger] fewer[s]).games,
                limit,
            ) && games_apart(fewer[s].games) by {
                assert(groups[s] == fewer[s]);
            }
            assert forall|one: int, other: int, index: int|
                0 <= one < other < fewer.len() && (#[trigger] is_listed(
                    fewer[one].games,
                    index,
                )) implies !(#[trigger] is_listed(fewer[other].games, index)) by {
                assert(is_listed(groups[one].games, index));
                assert(!is_listed(groups[other].games, index));
            }
        }
        lemma_slugs_no_repeats(plan, fewer, expanded_slugs, expanded_games, limit);
        lemma_games_no_repeats(plan, last.slug, last.games, expanded_games, limit);
        assert(no_repeats(own)) by {
            assert forall|i: int, j: int|
                0 <= i < j < own.len() && (#[trigger] own[i]) is Item implies own[i]
                != #[trigger] own[j] by {
                assert(i > 0);
                assert(own[i] == inner[i - 1] && own[j] == inner[j - 1]);
            }
        }
        assert forall|index: int|
            before.contains(RowView::Item { plan_index: index }) implies !(
        #[trigger] own.contains(RowView::Item { plan_index: index })) by {
            lemma_slugs_items(plan, fewer, expanded_slugs, expanded_games, index);
            let s = choose|s: int|
                0 <= s < fewer.len() && expanded_slugs.contains((#[trigger] fewer[s]).slug)
                    && in_expanded_games(fewer[s].slug, fewer[s].games, expanded_games, index);
            let games = fewer[s].games;
            let m = choose|m: int|
                0 <= m < games.len() && expanded_games.contains(
                    rows::key(fewer[s].slug, (#[trigger] games[m]).game),
                ) && games[m].indices.contains(index);
            assert(games[m].indices.contains(index));
            assert(is_listed(groups[s].games, index));
            assert(!is_listed(groups[groups.len() - 1].games, index));
            if own.contains(RowView::Item { plan_index: index }) {
                let k = choose|k: int|
                    0 <= k < own.len() && own[k] == (RowView::Item { plan_index: index });
                assert(k > 0);
                assert(inner[k - 1] == own[k]);
                assert(inner.contains(RowView::Item { plan_index: index }));
                lemma_games_items(plan, last.slug, last.games, expanded_games, index);
                let n = choose|n: int|
                    0 <= n < last.games.len() && expanded_games.contains(
                        rows::key(last.slug, (#[trigger] last.games[n]).game),
                    ) && last.games[n].indices.contains(index);
                assert(last.games[n].indices.contains(index));
            }
        }
        lemma_no_repeats_in_sum(before, own);
    }
}

/// No move has two rows.
pub proof fn lemma_no_move_has_two_rows(
    plan: Seq<MoveView>,
    output_root: Seq<PartView>,
    expanded_slugs: Set<Seq<char>>,
    expanded_games: Set<Seq<char>>,
    one: int,
    other: int,
)
    requires
        0 <= one < other < rows::display_rows(
            plan,
            output_root,
            expanded_slugs,
            expanded_games,
        ).len(),
        rows::display_rows(plan, output_root, expanded_slugs, expanded_games)[one] is Item,
    ensures
        rows::display_rows(plan, output_root, expanded_slugs, expanded_games)[one]
            != rows::display_rows(plan, output_root, expanded_slugs, expanded_games)[other],
{
    let groups = rows::grouped(plan, output_root, plan.len());
    lemma_moves_rise(plan, output_root, plan.len());
    lemma_groups_apart(plan, output_root);
    lemma_slugs_no_repeats(plan, groups, expanded_slugs, expanded_games, plan.len() as int);
}

// ---------------------------------------------------------------------------------------------
// Where headers stand

/// The rows of games hold no header of a platform.
proof fn lemma_no_slug_header_in_games(
    plan: Seq<MoveView>,
    slug: Seq<char>,
    games: Seq<GameGroup>,
    expanded_games: Set<Seq<char>>,
    k: int,
)
    requires
        0 <= k < rows::games_rows(plan, slug, games, expanded_games).len(),
    ensures
        !(rows::games_rows(plan, slug, games, expanded_games)[k] is SlugHeader),
    decreases games.len(),
{
    let before = rows::games_rows(plan, slug, games.drop_last(), expanded_games);
    if k < before.len() {
        lemma_no_slug_header_in_games(plan, slug, games.drop_last(), expanded_games, k);
    } else {
        let own = rows::game_rows(plan, slug, games.last(), expanded_games);
        let at = k - before.len();
        assert((before + own)[k] == own[at]);
        if at > 0 {
            assert(own[at] == rows::item_rows(games.last().indices)[at - 1]);
        }
    }
}

/// The platform whose header a row is.
pub(crate) proof fn slug_at(
    plan: Seq<MoveView>,
    groups: Seq<SlugGroup>,
    expanded_slugs: Set<Seq<char>>,
    expanded_games: Set<Seq<char>>,
    k: int,
) -> (s: int)
    requires
        0 <= k < rows::slugs_rows(plan, groups, expanded_slugs, expanded_games).len(),
        rows::slugs_rows(plan, groups, expanded_slugs, expanded_games)[k] is SlugHeader,
    ensures
        0 <= s < groups.len(),
        k == rows::slugs_rows(plan, groups.take(s), expanded_slugs, expanded_games).len(),
        rows::slugs_rows(plan, groups, expanded_slugs, expanded_games)[k] == (RowView::SlugHeader {
            slug: groups[s].slug,
            count: rows::move_count(groups[s].games),
            expanded: expanded_slugs.contains(groups[s].slug),
        }),
    decreases groups.len(),
{
    let fewer = groups.drop_last();
    let before = rows::slugs_rows(plan, fewer, expanded_slugs, expanded_games);
    let own = rows::slug_rows(plan, groups.last(), expanded_slugs, expanded_games);
    if k < before.len() {
        assert((before + own)[k] == before[k]);
        let s = slug_at(plan, fewer, expanded_slugs, expanded_games, k);
        assert(fewer.take(s) =~= groups.take(s));
        s
    } else {
        let at = k - before.len();
        assert((before + own)[k] == own[at]);
        if at > 0 {
            assert(own[at] == rows::games_rows(
                plan,
                groups.last().slug,
                groups.last().games,
                expanded_games,
            )[at - 1]);
            lemma_no_slug_header_in_games(
                plan,
                groups.last().slug,
                groups.last().games,
                expanded_games,
                at - 1,
            );
        }
        assert(groups.take(groups.len() - 1) =~= fewer);
        groups.len() - 1
    }
}

/// The first platforms come first in the rows.
pub(crate) proof fn lemma_row_of_slug(
    plan: Seq<MoveView>,
    groups: Seq<SlugGroup>,
    expanded_slugs: Set<Seq<char>>,
    expanded_games: Set<Seq<char>>,
    s: int,
    at: int,
)
    requires
        0 <= s < groups.len(),
        0 <= at < rows::slug_rows(plan, groups[s], expanded_slugs, expanded_games).len(),
    ensures
        ({
            let all = rows::slugs_rows(plan, groups, expanded_slugs, expanded_games);
            let k = rows::slugs_rows(plan, groups.take(s), expanded_slugs, expanded_games).len()
                + at;
            k < all.len() && all[k] == rows::slug_rows(
                plan,
                groups[s],
                expanded_slugs,
                expanded_games,
            )[at]
        }),
    decreases groups.len(),
{
    let fewer = groups.drop_last();
    let before = rows::slugs_rows(plan, fewer, expanded_slugs, expanded_games);
    let own = rows::slug_rows(plan, groups.last(), expanded_slugs, expanded_games);
    if s == groups.len() - 1 {
        assert(groups.take(s) =~= fewer);
        assert((before + own)[before.len() + at] == own[at]);
    } else {
        assert(fewer.take(s) =~= groups.take(s));
        assert(fewer[s] == groups[s]);
        lemma_row_of_slug(plan, fewer, expanded_slugs, expanded_games, s, at);
        let k = rows::slugs_rows(plan, groups.take(s), expanded_slugs, expanded_games).len() + at;
        assert((before + own)[k as int] == before[k as int]);
    }
}

/// Platforms that are expanded alike have the same rows.
proof fn lemma_slugs_unchanged(
    plan: Seq<MoveView>,
    groups: Seq<SlugGroup>,
    one: Set<Seq<char>>,
    other: Set<Seq<char>>,
    expanded_games: Set<Seq<char>>,
)
    requires
        forall|s: int|
            0 <= s < groups.len() ==> one.contains((#[trigger] groups[s]).slug) == other.contains(
                groups[s].slug,
            ),
    ensures
        rows::slugs_rows(plan, groups, one, expanded_games) == rows::slugs_rows(
            plan,
            groups,
            other,
            expanded_games,
        ),
    decreases groups.len(),
{
    if groups.len() > 0 {
        let fewer = groups.drop_last();
        assert forall|s: int| 0 <= s < fewer.len() implies one.contains((#[trigger] fewer[s]).slug)
            == other.contains(fewer[s].slug) by {
            assert(fewer[s] == groups[s]);
        }
        assert(groups.last() == groups[groups.len() - 1]);
        lemma_slugs_unchanged(plan, fewer, one, other, expanded_games);
    }
}

/// Expanding or collapsing a platform leaves its header where it is.
pub proof fn lemma_slug_header_stays(
    plan: Seq<MoveView>,
    output_root: Seq<PartView>,
    expanded_slugs: Set<Seq<char>>,
    expanded_games: Set<Seq<char>>,
    changed: Set<Seq<char>>,
    at: int,
)
    requires
        0 <= at < rows::display_rows(plan, output_root, expanded_slugs, expanded_games).len(),
        rows::display_rows(plan, output_root, expanded_slugs, expanded_games)[at] matches
        RowView::SlugHeader { slug, .. } && forall|other: Seq<char>|
            other != slug ==> expanded_slugs.contains(other) == #[trigger] changed.contains(other),
    ensures
        at < rows::display_rows(plan, output_root, changed, expanded_games).len(),
        match rows::display_rows(plan, output_root, expanded_slugs, expanded_games)[at] {
            RowView::SlugHeader { slug, count, .. } => rows::display_rows(
                plan,
                output_root,
                changed,
                expanded_games,
            )[at] == (RowView::SlugHeader { slug, count, expanded: changed.contains(slug) }),
            _ => true,
        },
{
    let groups = rows::grouped(plan, output_root, plan.len());
    rows::lemma_grouping_is_faithful(plan, output_root, plan.len());
    let s = slug_at(plan, groups, expanded_slugs, expanded_games, at);
    let first = groups.take(s);
    assert forall|t: int| 0 <= t < first.len() implies expanded_slugs.contains(
        (#[trigger] first[t]).slug,
    ) == changed.contains(first[t].slug) by {
        lemma_slugs_differ(groups, t, s);
    }
    lemma_slugs_unchanged(plan, first, expanded_slugs, changed, expanded_games);
    lemma_row_of_slug(plan, groups, changed, expanded_games, s, 0);
}

/// No platform is listed twice.
pub(crate) proof fn lemma_slugs_differ(groups: Seq<SlugGroup>, one: int, other: int)
    requires
        rows::slugs_in_order(groups),
        0 <= one < other < groups.len(),
    ensures
        groups[one].slug != groups[other].slug,
{
    let names = rows::slug_names(groups);
    assert(names[one] == groups[one].slug && names[other] == groups[other].slug);
    crate::text::lemma_precedes_asymmetric(names[one], names[other]);
}

/// No other game of the plan is remembered by the same key.
pub open spec fn key_is_unique(
    plan: Seq<MoveView>,
    output_root: Seq<PartView>,
    slug: Seq<char>,
    game: Seq<char>,
) -> bool {
    forall|index: int|
        #![trigger plan[index]]
        0 <= index < plan.len() && rows::key(
            rows::row_slug(plan[index]),
            rows::game_name(plan[index], output_root),
        ) == rows::key(slug, game) ==> rows::row_slug(plan[index]) == slug && rows::game_name(
            plan[index],
            output_root,
        ) == game
}

/// The game whose header a row among those of games is.
proof fn game_at(
    plan: Seq<MoveView>,
    slug: Seq<char>,
    games: Seq<GameGroup>,
    expanded_games: Set<Seq<char>>,
    k: int,
) -> (m: int)
    requires
        0 <= k < rows::games_rows(plan, slug, games, expanded_games).len(),
        rows::games_rows(plan, slug, games, expanded_games)[k] is GameHeader,
    ensures
        0 <= m < games.len(),
        k == rows::games_rows(plan, slug, games.take(m), expanded_games).len(),
        rows::games_rows(plan, slug, games, expanded_games)[k] == rows::game_header(
            plan,
            slug,
            games[m],
            expanded_games,
        ),
    decreases games.len(),
{
    let fewer = games.drop_last();
    let before = rows::games_rows(plan, slug, fewer, expanded_games);
    let own = rows::game_rows(plan, slug, games.last(), expanded_games);
    if k < before.len() {
        assert((before + own)[k] == before[k]);
        let m = game_at(plan, slug, fewer, expanded_games, k);
        assert(fewer.take(m) =~= games.take(m));
        m
    } else {
        let at = k - before.len();
        assert((before + own)[k] == own[at]);
        if at > 0 {
            assert(own[at] == rows::item_rows(games.last().indices)[at - 1]);
        }
        assert(games.take(games.len() - 1) =~= fewer);
        games.len() - 1
    }
}

/// The platform and the game whose header a row is.
pub(crate) proof fn slug_and_game_at(
    plan: Seq<MoveView>,
    groups: Seq<SlugGroup>,
    expanded_slugs: Set<Seq<char>>,
    expanded_games: Set<Seq<char>>,
    k: int,
) -> (found: (int, int))
    requires
        0 <= k < rows::slugs_rows(plan, groups, expanded_slugs, expanded_games).len(),
        rows::slugs_rows(plan, groups, expanded_slugs, expanded_games)[k] is GameHeader,
    ensures
        0 <= found.0 < groups.len(),
        0 <= found.1 < groups[found.0].games.len(),
        expanded_slugs.contains(groups[found.0].slug),
        k == rows::slugs_rows(plan, groups.take(found.0), expanded_slugs, expanded_games).len() + 1
            + rows::games_rows(
            plan,
            groups[found.0].slug,
            groups[found.0].games.take(found.1),
            expanded_games,
        ).len(),
        rows::slugs_rows(plan, groups, expanded_slugs, expanded_games)[k] == rows::game_header(
            plan,
            groups[found.0].slug,
            groups[found.0].games[found.1],
            expanded_games,
        ),
    decreases groups.len(),
{
    let fewer = groups.drop_last();
    let last = groups.last();
    let before = rows::slugs_rows(plan, fewer, expanded_slugs, expanded_games);
    let own = rows::slug_rows(plan, last, expanded_slugs, expanded_games);
    if k < before.len() {
        assert((before + own)[k] == before[k]);
        let found = slug_and_game_at(plan, fewer, expanded_slugs, expanded_games, k);
        assert(fewer.take(found.0) =~= groups.take(found.0));
        found
    } else {
        let at = k - before.len();
        assert((before + own)[k] == own[at]);
        assert(at > 0);
        assert(own[at] == rows::games_rows(plan, last.slug, last.games, expanded_games)[at - 1]);
        let m = game_at(plan, last.slug, last.games, expanded_games, at - 1);
        assert(groups.take(groups.len() - 1) =~= fewer);
        (groups.len() - 1, m)
    }
}

/// Games that are expanded alike have the same rows.
proof fn lemma_games_unchanged(
    plan: Seq<MoveView>,
    slug: Seq<char>,
    games: Seq<GameGroup>,
    one: Set<Seq<char>>,
    other: Set<Seq<char>>,
)
    requires
        forall|m: int|
            0 <= m < games.len() ==> one.contains(rows::key(slug, (#[trigger] games[m]).game))
                == other.contains(rows::key(slug, games[m].game)),
    ensures
        rows::games_rows(plan, slug, games, one) == rows::games_rows(plan, slug, games, other),
    decreases games.len(),
{
    if games.len() > 0 {
        let fewer = games.drop_last();
        assert forall|m: int| 0 <= m < fewer.len() implies one.contains(
            rows::key(slug, (#[trigger] fewer[m]).game),
        ) == other.contains(rows::key(slug, fewer[m].game)) by {
            assert(fewer[m] == games[m]);
        }
        assert(games.last() == games[games.len() - 1]);
        lemma_games_unchanged(plan, slug, fewer, one, other);
    }
}

/// Platforms whose games are expanded alike have the same rows.
proof fn lemma_slugs_games_unchanged(
    plan: Seq<MoveView>,
    groups: Seq<SlugGroup>,
    expanded_slugs: Set<Seq<char>>,
    one: Set<Seq<char>>,
    other: Set<Seq<char>>,
)
    requires
        forall|s: int, m: int|
            0 <= s < groups.len() && 0 <= m < groups[s].games.len() ==> one.contains(
                rows::key(groups[s].slug, (#[trigger] groups[s].games[m]).game),
            ) == other.contains(rows::key(groups[s].slug, groups[s].games[m].game)),
    ensures
        rows::slugs_rows(plan, groups, expanded_slugs, one) == rows::slugs_rows(
            plan,
            groups,
            expanded_slugs,
            other,
        ),
    decreases groups.len(),
{
    if groups.len() > 0 {
        let fewer = groups.drop_last();
        let last = groups.len() - 1;
        assert forall|s: int, m: int|
            0 <= s < fewer.len() && 0 <= m < fewer[s].games.len() implies one.contains(
            rows::key(fewer[s].slug, (#[trigger] fewer[s].games[m]).game),
        ) == other.contains(rows::key(fewer[s].slug, fewer[s].games[m].game)) by {
            assert(fewer[s] == groups[s]);
            assert(fewer[s].games[m] == groups[s].games[m]);
        }
        assert forall|m: int| 0 <= m < groups[last].games.len() implies one.contains(
            rows::key(groups[last].slug, (#[trigger] groups[last].games[m]).game),
        ) == other.contains(rows::key(groups[last].slug, groups[last].games[m].game)) by {}
        lemma_slugs_games_unchanged(plan, fewer, expanded_slugs, one, other);
        lemma_games_unchanged(plan, groups[last].slug, groups[last].games, one, other);
    }
}

/// The first games come first in the rows of games.
pub(crate) proof fn lemma_row_of_game(
    plan: Seq<MoveView>,
    slug: Seq<char>,
    games: Seq<GameGroup>,
    expanded_games: Set<Seq<char>>,
    m: int,
)
    requires
        0 <= m < games.len(),
    ensures
        ({
            let all = rows::games_rows(plan, slug, games, expanded_games);
            let k = rows::games_rows(plan, slug, games.take(m), expanded_games).len();
            k < all.len() && all[k as int] == rows::game_header(
                plan,
                slug,
                games[m],
                expanded_games,
            )
        }),
    decreases games.len(),
{
    let fewer = games.drop_last();
    let before = rows::games_rows(plan, slug, fewer, expanded_games);
    let own = rows::game_rows(plan, slug, games.last(), expanded_games);
    if m == games.len() - 1 {
        assert(games.take(m) =~= fewer);
        assert((before + own)[before.len() as int] == own[0]);
    } else {
        assert(fewer.take(m) =~= games.take(m));
        assert(fewer[m] == games[m]);
        lemma_row_of_game(plan, slug, fewer, expanded_games, m);
        let k = rows::games_rows(plan, slug, games.take(m), expanded_games).len();
        assert((before + own)[k as int] == before[k as int]);
    }
}

/// A game that is listed is that of some move.
pub(crate) proof fn lemma_listed_game_has_move(
    plan: Seq<MoveView>,
    output_root: Seq<PartView>,
    s: int,
    m: int,
) -> (index: int)
    requires
        0 <= s < rows::grouped(plan, output_root, plan.len()).len(),
        0 <= m < rows::grouped(plan, output_root, plan.len())[s].games.len(),
    ensures
        0 <= index < plan.len(),
        rows::row_slug(plan[index]) == rows::grouped(plan, output_root, plan.len())[s].slug,
        rows::game_name(plan[index], output_root) == rows::grouped(
            plan,
            output_root,
            plan.len(),
        )[s].games[m].game,
{
    let groups = rows::grouped(plan, output_root, plan.len());
    rows::lemma_grouping_is_faithful(plan, output_root, plan.len());
    let games = groups[s].games;
    assert(rows::games_in_order(games));
    let index = games[m].indices[0];
    assert(games[m].indices.contains(index));
    assert(rows::in_games(games, games[m].game, index));
    assert(rows::in_slugs(groups, groups[s].slug, games[m].game, index));
    index
}

/// Expanding or collapsing a game leaves its header where it is, provided that no other game is
/// remembered by the same key.
pub proof fn lemma_game_header_stays(
    plan: Seq<MoveView>,
    output_root: Seq<PartView>,
    expanded_slugs: Set<Seq<char>>,
    expanded_games: Set<Seq<char>>,
    changed: Set<Seq<char>>,
    at: int,
)
    requires
        0 <= at < rows::display_rows(plan, output_root, expanded_slugs, expanded_games).len(),
        rows::display_rows(plan, output_root, expanded_slugs, expanded_games)[at] matches
        RowView::GameHeader { slug, game, .. } && key_is_unique(plan, output_root, slug, game)
            && forall|other: Seq<char>|
            other != rows::key(slug, game) ==> expanded_games.contains(other)
                == #[trigger] changed.contains(other),
    ensures
        at < rows::display_rows(plan, output_root, expanded_slugs, changed).len(),
        match rows::display_rows(plan, output_root, expanded_slugs, expanded_games)[at] {
            RowView::GameHeader { slug, game, count, confidence, reason, has_conflict, .. } =>
            rows::display_rows(plan, output_root, expanded_slugs, changed)[at] == (
            RowView::GameHeader {
                slug,
                game,
                count,
                confidence,
                reason,
                has_conflict,
                expanded: changed.contains(rows::key(slug, game)),
            }),
            _ => true,
        },
{
    let groups = rows::grouped(plan, output_root, plan.len());
    rows::lemma_grouping_is_faithful(plan, output_root, plan.len());
    let (s, m) = slug_and_game_at(plan, groups, expanded_slugs, expanded_games, at);
    let slug = groups[s].slug;
    let games = groups[s].games;
    let game = games[m].game;
    let first = groups.take(s);
    assert forall|t: int, n: int|
        0 <= t < first.len() && 0 <= n < first[t].games.len() implies expanded_games.contains(
        rows::key(first[t].slug, (#[trigger] first[t].games[n]).game),
    ) == changed.contains(rows::key(first[t].slug, first[t].games[n].game)) by {
        lemma_slugs_differ(groups, t, s);
        let index = lemma_listed_game_has_move(plan, output_root, t, n);
        assert(rows::row_slug(plan[index]) != slug);
    }
    lemma_slugs_games_unchanged(plan, first, expanded_slugs, expanded_games, changed);
    let first_games = games.take(m);
    assert forall|n: int| 0 <= n < first_games.len() implies expanded_games.contains(
        rows::key(slug, (#[trigger] first_games[n]).game),
    ) == changed.contains(rows::key(slug, first_games[n].game)) by {
        assert(rows::games_in_order(games));
        let names = rows::game_names(games);
        assert(names[n] == games[n].game && names[m] == games[m].game);
        crate::text::lemma_precedes_asymmetric(names[n], names[m]);
        let index = lemma_listed_game_has_move(plan, output_root, s, n);
        assert(rows::game_name(plan[index], output_root) != game);
    }
    lemma_games_unchanged(plan, slug, first_games, expanded_games, changed);
    lemma_row_of_game(plan, slug, games, changed, m);
    let within = rows::games_rows(plan, slug, first_games, changed).len() as int;
    let own = rows::slug_rows(plan, groups[s], expanded_slugs, changed);
    assert(own[within + 1] == rows::games_rows(plan, slug, games, changed)[within]);
    lemma_row_of_slug(plan, groups, expanded_slugs, changed, s, within + 1);
}

}
