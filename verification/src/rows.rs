//! A plan as rows: platforms, under them games, under those the single files.

use vstd::prelude::*;
use crate::model;
use crate::model::{Confidence, MoveView, PlannedMove};
use crate::paths;
use crate::paths::{PartView, PathView, RomPath};
use crate::text;
use crate::text_set::TextSet;

verus! {

/// One row.
#[derive(Debug)]
pub enum DisplayRow {
    SlugHeader { slug: String, count: usize, expanded: bool },
    GameHeader {
        slug: String,
        game: String,
        count: usize,
        confidence: Confidence,
        reason: String,
        has_conflict: bool,
        expanded: bool,
    },
    Item { plan_index: usize },
}

/// What a [`DisplayRow`] holds.
#[verifier::ext_equal]
pub enum RowView {
    SlugHeader { slug: Seq<char>, count: nat, expanded: bool },
    GameHeader {
        slug: Seq<char>,
        game: Seq<char>,
        count: nat,
        confidence: Confidence,
        reason: Seq<char>,
        has_conflict: bool,
        expanded: bool,
    },
    Item { plan_index: int },
}

impl View for DisplayRow {
    type V = RowView;

    open spec fn view(&self) -> RowView {
        match self {
            DisplayRow::SlugHeader { slug, count, expanded } => RowView::SlugHeader {
                slug: slug@,
                count: *count as nat,
                expanded: *expanded,
            },
            DisplayRow::GameHeader {
                slug,
                game,
                count,
                confidence,
                reason,
                has_conflict,
                expanded,
            } => RowView::GameHeader {
                slug: slug@,
                game: game@,
                count: *count as nat,
                confidence: *confidence,
                reason: reason@,
                has_conflict: *has_conflict,
                expanded: *expanded,
            },
            DisplayRow::Item { plan_index } => RowView::Item { plan_index: *plan_index as int },
        }
    }
}

/// What each row of a list holds.
pub open spec fn row_views(rows: Seq<DisplayRow>) -> Seq<RowView> {
    rows.map_values(|row: DisplayRow| row@)
}

impl Clone for DisplayRow {
    fn clone(&self) -> (result: Self)
        ensures
            result@ == self@,
    {
        match self {
            DisplayRow::SlugHeader { slug, count, expanded } => DisplayRow::SlugHeader {
                slug: slug.clone(),
                count: *count,
                expanded: *expanded,
            },
            DisplayRow::GameHeader {
                slug,
                game,
                count,
                confidence,
                reason,
                has_conflict,
                expanded,
            } => DisplayRow::GameHeader {
                slug: slug.clone(),
                game: game.clone(),
                count: *count,
                confidence: *confidence,
                reason: reason.clone(),
                has_conflict: *has_conflict,
                expanded: *expanded,
            },
            DisplayRow::Item { plan_index } => DisplayRow::Item { plan_index: *plan_index },
        }
    }
}

// ---------------------------------------------------------------------------------------------
// Grouping

/// The numbers of the moves of one game, in the order of the plan.
#[verifier::ext_equal]
pub struct GameGroup {
    pub game: Seq<char>,
    pub indices: Seq<int>,
}

/// The games of one platform.
#[verifier::ext_equal]
pub struct SlugGroup {
    pub slug: Seq<char>,
    pub games: Seq<GameGroup>,
}

/// The platform that a move is listed under.
pub open spec fn row_slug(item: MoveView) -> Seq<char> {
    match item.platform_slug {
        Some(slug) => slug,
        None => "unclassified"@,
    }
}

/// The name of a game taken from its file.
pub open spec fn stem_or_unknown(source: PathView) -> Seq<char> {
    match paths::file_stem(source.parts) {
        Some(stem) => stem,
        None => "unknown-game"@,
    }
}

/// The game that a move is listed under: what follows the platform in its destination, else the
/// name of its file without extension.
pub open spec fn game_name(item: MoveView, output_root: Seq<PartView>) -> Seq<char> {
    match item.destination {
        Some(destination) => match paths::relative_to(destination.parts, output_root) {
            Some(relative) => {
                let names = paths::texts(destination.style, relative);
                if names.len() >= 2 {
                    names[1]
                } else {
                    stem_or_unknown(item.source)
                }
            },
            None => stem_or_unknown(item.source),
        },
        None => stem_or_unknown(item.source),
    }
}

/// How many names at the beginning of a list come before `name`.
pub open spec fn place(names: Seq<Seq<char>>, name: Seq<char>) -> int
    decreases names.len(),
{
    if names.len() == 0 || !text::precedes(names[0], name) {
        0
    } else {
        1 + place(names.skip(1), name)
    }
}

/// The names of games.
pub open spec fn game_names(games: Seq<GameGroup>) -> Seq<Seq<char>> {
    games.map_values(|group: GameGroup| group.game)
}

/// The slugs of platforms.
pub open spec fn slug_names(groups: Seq<SlugGroup>) -> Seq<Seq<char>> {
    groups.map_values(|group: SlugGroup| group.slug)
}

/// Games with one more move, put in its place in the order of names.
pub open spec fn add_to_games(games: Seq<GameGroup>, game: Seq<char>, index: int) -> Seq<
    GameGroup,
> {
    let at = place(game_names(games), game);
    if at < games.len() && games[at].game == game {
        games.update(at, GameGroup { game, indices: games[at].indices.push(index) })
    } else {
        games.insert(at, GameGroup { game, indices: seq![index] })
    }
}

/// Platforms with one more move, put in its place in the order of slugs and names.
pub open spec fn add_to_slugs(
    groups: Seq<SlugGroup>,
    slug: Seq<char>,
    game: Seq<char>,
    index: int,
) -> Seq<SlugGroup> {
    let at = place(slug_names(groups), slug);
    if at < groups.len() && groups[at].slug == slug {
        groups.update(at, SlugGroup { slug, games: add_to_games(groups[at].games, game, index) })
    } else {
        groups.insert(at, SlugGroup { slug, games: add_to_games(Seq::empty(), game, index) })
    }
}

/// The first `count` moves of a plan by platform and game.
pub open spec fn grouped(
    plan: Seq<MoveView>,
    output_root: Seq<PartView>,
    count: nat,
) -> Seq<SlugGroup>
    decreases count,
{
    if count == 0 {
        Seq::empty()
    } else {
        let item = plan[count - 1];
        add_to_slugs(
            grouped(plan, output_root, (count - 1) as nat),
            row_slug(item),
            game_name(item, output_root),
            count - 1,
        )
    }
}

/// A list of names in ascending order, each once.
pub open spec fn ascending(names: Seq<Seq<char>>) -> bool {
    forall|one: int, other: int|
        0 <= one < other < names.len() ==> text::precedes(#[trigger] names[one], #[trigger] names[other])
}

// ---------------------------------------------------------------------------------------------
// Rows

/// What a game is remembered by while it is expanded.
pub open spec fn key(slug: Seq<char>, game: Seq<char>) -> Seq<char> {
    slug + "::"@ + game
}

/// How many moves games have.
pub open spec fn move_count(games: Seq<GameGroup>) -> nat
    decreases games.len(),
{
    if games.len() == 0 {
        0
    } else {
        move_count(games.drop_last()) + games.last().indices.len()
    }
}

/// The row of a game: its confidence and reason are those of its first move.
pub open spec fn game_header(
    plan: Seq<MoveView>,
    slug: Seq<char>,
    group: GameGroup,
    expanded_games: Set<Seq<char>>,
) -> RowView {
    RowView::GameHeader {
        slug,
        game: group.game,
        count: group.indices.len(),
        confidence: plan[group.indices[0]].confidence,
        reason: plan[group.indices[0]].reason,
        has_conflict: exists|k: int|
            0 <= k < group.indices.len() && plan[#[trigger] group.indices[k]].has_conflict,
        expanded: expanded_games.contains(key(slug, group.game)),
    }
}

/// The rows of single moves.
pub open spec fn item_rows(indices: Seq<int>) -> Seq<RowView> {
    indices.map_values(|index: int| RowView::Item { plan_index: index })
}

/// The rows of one game.
pub open spec fn game_rows(
    plan: Seq<MoveView>,
    slug: Seq<char>,
    group: GameGroup,
    expanded_games: Set<Seq<char>>,
) -> Seq<RowView> {
    let header = seq![game_header(plan, slug, group, expanded_games)];
    if expanded_games.contains(key(slug, group.game)) {
        header + item_rows(group.indices)
    } else {
        header
    }
}

/// The rows of the games of a platform.
pub open spec fn games_rows(
    plan: Seq<MoveView>,
    slug: Seq<char>,
    games: Seq<GameGroup>,
    expanded_games: Set<Seq<char>>,
) -> Seq<RowView>
    decreases games.len(),
{
    if games.len() == 0 {
        Seq::empty()
    } else {
        games_rows(plan, slug, games.drop_last(), expanded_games) + game_rows(
            plan,
            slug,
            games.last(),
            expanded_games,
        )
    }
}

/// The rows of one platform.
pub open spec fn slug_rows(
    plan: Seq<MoveView>,
    group: SlugGroup,
    expanded_slugs: Set<Seq<char>>,
    expanded_games: Set<Seq<char>>,
) -> Seq<RowView> {
    let header = seq![
        RowView::SlugHeader {
            slug: group.slug,
            count: move_count(group.games),
            expanded: expanded_slugs.contains(group.slug),
        },
    ];
    if expanded_slugs.contains(group.slug) {
        header + games_rows(plan, group.slug, group.games, expanded_games)
    } else {
        header
    }
}

/// The rows of platforms.
pub open spec fn slugs_rows(
    plan: Seq<MoveView>,
    groups: Seq<SlugGroup>,
    expanded_slugs: Set<Seq<char>>,
    expanded_games: Set<Seq<char>>,
) -> Seq<RowView>
    decreases groups.len(),
{
    if groups.len() == 0 {
        Seq::empty()
    } else {
        slugs_rows(plan, groups.drop_last(), expanded_slugs, expanded_games) + slug_rows(
            plan,
            groups.last(),
            expanded_slugs,
            expanded_games,
        )
    }
}

/// The rows of a plan.
pub open spec fn display_rows(
    plan: Seq<MoveView>,
    output_root: Seq<PartView>,
    expanded_slugs: Set<Seq<char>>,
    expanded_games: Set<Seq<char>>,
) -> Seq<RowView> {
    slugs_rows(plan, grouped(plan, output_root, plan.len()), expanded_slugs, expanded_games)
}

// ---------------------------------------------------------------------------------------------
// Grouping, carried out

/// The games of one platform, by name.
struct GameList {
    names: Vec<String>,
    indices: Vec<Vec<usize>>,
}

/// Platforms, by slug.
struct SlugList {
    names: Vec<String>,
    games: Vec<GameList>,
}

/// Numbers of moves.
spec fn index_views(indices: Seq<usize>) -> Seq<int> {
    indices.map_values(|index: usize| index as int)
}

impl View for GameList {
    type V = Seq<GameGroup>;

    closed spec fn view(&self) -> Seq<GameGroup> {
        Seq::new(
            self.names@.len(),
            |k: int|
                GameGroup { game: self.names@[k]@, indices: index_views(self.indices@[k]@) },
        )
    }
}

impl View for SlugList {
    type V = Seq<SlugGroup>;

    closed spec fn view(&self) -> Seq<SlugGroup> {
        Seq::new(
            self.names@.len(),
            |k: int| SlugGroup { slug: self.names@[k]@, games: self.games@[k]@ },
        )
    }
}

/// The place of a name among names in order is where those that come before it end.
proof fn lemma_place(names: Seq<Seq<char>>, name: Seq<char>, at: int)
    requires
        0 <= at <= names.len(),
        forall|k: int| 0 <= k < at ==> text::precedes(#[trigger] names[k], name),
        at < names.len() ==> !text::precedes(names[at], name),
    ensures
        place(names, name) == at,
    decreases at,
{
    if at > 0 {
        let rest = names.skip(1);
        assert forall|k: int| 0 <= k < at - 1 implies text::precedes(#[trigger] rest[k], name) by {
            assert(rest[k] == names[k + 1]);
        }
        lemma_place(rest, name, at - 1);
    }
}

/// The place of a name lies within the list; those before it come before the name, and the one at
/// it does not.
pub(crate) proof fn lemma_place_bounds(names: Seq<Seq<char>>, name: Seq<char>)
    ensures
        0 <= place(names, name) <= names.len(),
        forall|k: int| 0 <= k < place(names, name) ==> text::precedes(#[trigger] names[k], name),
        place(names, name) < names.len() ==> !text::precedes(names[place(names, name)], name),
    decreases names.len(),
{
    if names.len() > 0 && text::precedes(names[0], name) {
        let rest = names.skip(1);
        lemma_place_bounds(rest, name);
        assert forall|k: int| 0 <= k < place(names, name) implies text::precedes(
            #[trigger] names[k],
            name,
        ) by {
            if k > 0 {
                assert(rest[k - 1] == names[k]);
            }
        }
    }
}

/// The place of a name among names in order.
fn find_place(names: &Vec<String>, name: &str) -> (result: usize)
    requires
        ascending(text::views(names@)),
    ensures
        result == place(text::views(names@), name@),
        result <= names@.len(),
{
    let ghost all = text::views(names@);
    let mut low: usize = 0;
    let mut high: usize = names.len();
    while low < high
        invariant
            low <= high <= names@.len(),
            all == text::views(names@),
            ascending(all),
            forall|k: int| 0 <= k < low ==> text::precedes(#[trigger] all[k], name@),
            forall|k: int| high <= k < all.len() ==> !text::precedes(#[trigger] all[k], name@),
        decreases high - low,
    {
        let middle: usize = low + (high - low) / 2;
        assert(all[middle as int] == names@[middle as int]@);
        if text::before(names[middle].as_str(), name) {
            assert forall|k: int| 0 <= k < middle + 1 implies text::precedes(
                #[trigger] all[k],
                name@,
            ) by {
                if k < middle {
                    text::lemma_precedes_transitive(all[k], all[middle as int], name@);
                }
            }
            low = middle + 1;
        } else {
            assert forall|k: int| middle <= k < all.len() implies !text::precedes(
                #[trigger] all[k],
                name@,
            ) by {
                if k > middle && text::precedes(all[k], name@) {
                    text::lemma_precedes_transitive(all[middle as int], all[k], name@);
                }
            }
            high = middle;
        }
    }
    proof {
        lemma_place(all, name@, low as int);
    }
    low
}

/// A name put in its place among names in order leaves them in order.
proof fn lemma_insert_ascending(names: Seq<Seq<char>>, name: Seq<char>)
    requires
        ascending(names),
        place(names, name) < names.len() ==> names[place(names, name)] != name,
    ensures
        ascending(names.insert(place(names, name), name)),
{
    let at = place(names, name);
    lemma_place_bounds(names, name);
    let more = names.insert(at, name);
    assert forall|one: int, other: int| 0 <= one < other < more.len() implies text::precedes(
        #[trigger] more[one],
        #[trigger] more[other],
    ) by {
        if one == at {
            // What stood at the place does not come before the name and is not the name.
            text::lemma_precedes_total(names[at], name);
            if other - 1 > at {
                text::lemma_precedes_transitive(name, names[at], names[other - 1]);
            }
        } else if other == at {
            assert(more[one] == names[one]);
        } else if one < at && other > at {
            assert(more[one] == names[one]);
            assert(more[other] == names[other - 1]);
        }
    }
}

impl GameList {
    /// The two lists go together, and the names are in order.
    closed spec fn in_order(self) -> bool {
        self.names@.len() == self.indices@.len() && ascending(text::views(self.names@))
    }

    fn new() -> (result: GameList)
        ensures
            result.in_order(),
            result@ == Seq::<GameGroup>::empty(),
    {
        let list: GameList = GameList { names: Vec::new(), indices: Vec::new() };
        assert(list@ =~= Seq::<GameGroup>::empty());
        list
    }

    /// Adds a move.
    fn add(&mut self, game: String, index: usize)
        requires
            old(self).in_order(),
        ensures
            final(self).in_order(),
            final(self)@ == add_to_games(old(self)@, game@, index as int),
    {
        let ghost before = self@;
        let ghost names = text::views(self.names@);
        assert(game_names(before) =~= names);
        let at: usize = find_place(&self.names, game.as_str());
        if at < self.names.len() && text::same(self.names[at].as_str(), game.as_str()) {
            let ghost earlier = self.indices@[at as int]@;
            self.indices[at].push(index);
            assert(index_views(self.indices@[at as int]@) =~= index_views(earlier).push(
                index as int,
            ));
            assert(self@ =~= add_to_games(before, game@, index as int));
        } else {
            proof {
                lemma_insert_ascending(names, game@);
            }
            self.names.insert(at, game);
            let mut indices: Vec<usize> = Vec::new();
            indices.push(index);
            assert(index_views(indices@) =~= seq![index as int]);
            self.indices.insert(at, indices);
            assert(text::views(self.names@) =~= names.insert(at as int, game@));
            assert(self@ =~= add_to_games(before, game@, index as int));
        }
    }
}

impl SlugList {
    /// The lists go together, and the slugs and names are in order.
    closed spec fn in_order(self) -> bool {
        &&& self.names@.len() == self.games@.len()
        &&& ascending(text::views(self.names@))
        &&& forall|k: int| 0 <= k < self.games@.len() ==> (#[trigger] self.games@[k]).in_order()
    }

    fn new() -> (result: SlugList)
        ensures
            result.in_order(),
            result@ == Seq::<SlugGroup>::empty(),
    {
        let list: SlugList = SlugList { names: Vec::new(), games: Vec::new() };
        assert(list@ =~= Seq::<SlugGroup>::empty());
        list
    }

    /// Adds a move.
    fn add(&mut self, slug: String, game: String, index: usize)
        requires
            old(self).in_order(),
        ensures
            final(self).in_order(),
            final(self)@ == add_to_slugs(old(self)@, slug@, game@, index as int),
    {
        let ghost before = self@;
        let ghost names = text::views(self.names@);
        assert(slug_names(before) =~= names);
        let at: usize = find_place(&self.names, slug.as_str());
        if at < self.names.len() && text::same(self.names[at].as_str(), slug.as_str()) {
            self.games[at].add(game, index);
            assert(self@ =~= add_to_slugs(before, slug@, game@, index as int));
        } else {
            proof {
                lemma_insert_ascending(names, slug@);
            }
            self.names.insert(at, slug);
            let mut games: GameList = GameList::new();
            games.add(game, index);
            self.games.insert(at, games);
            assert(text::views(self.names@) =~= names.insert(at as int, slug@));
            assert(self@ =~= add_to_slugs(before, slug@, game@, index as int));
        }
    }
}

// ---------------------------------------------------------------------------------------------
// What grouping does

/// The move with this number is listed under this game.
pub open spec fn in_games(games: Seq<GameGroup>, game: Seq<char>, index: int) -> bool {
    exists|m: int|
        0 <= m < games.len() && (#[trigger] games[m]).game == game && games[m].indices.contains(
            index,
        )
}

/// The move with this number is listed under this platform and game.
pub open spec fn in_slugs(
    groups: Seq<SlugGroup>,
    slug: Seq<char>,
    game: Seq<char>,
    index: int,
) -> bool {
    exists|s: int|
        0 <= s < groups.len() && (#[trigger] groups[s]).slug == slug && in_games(
            groups[s].games,
            game,
            index,
        )
}

/// Names in order, and no game without moves.
pub open spec fn games_in_order(games: Seq<GameGroup>) -> bool {
    ascending(game_names(games)) && forall|m: int|
        0 <= m < games.len() ==> (#[trigger] games[m]).indices.len() > 0
}

/// Slugs in order, and the games of each.
pub open spec fn slugs_in_order(groups: Seq<SlugGroup>) -> bool {
    ascending(slug_names(groups)) && forall|s: int|
        0 <= s < groups.len() ==> games_in_order((#[trigger] groups[s]).games)
}

/// How many moves platforms have.
pub open spec fn total_count(groups: Seq<SlugGroup>) -> nat
    decreases groups.len(),
{
    if groups.len() == 0 {
        0
    } else {
        total_count(groups.drop_last()) + move_count(groups.last().games)
    }
}

proof fn lemma_move_count_update(games: Seq<GameGroup>, at: int, group: GameGroup)
    requires
        0 <= at < games.len(),
    ensures
        move_count(games.update(at, group)) == move_count(games) - games[at].indices.len()
            + group.indices.len(),
    decreases games.len(),
{
    let changed = games.update(at, group);
    if at == games.len() - 1 {
        assert(changed.drop_last() =~= games.drop_last());
    } else {
        assert(changed.drop_last() =~= games.drop_last().update(at, group));
        lemma_move_count_update(games.drop_last(), at, group);
    }
}

proof fn lemma_move_count_insert(games: Seq<GameGroup>, at: int, group: GameGroup)
    requires
        0 <= at <= games.len(),
    ensures
        move_count(games.insert(at, group)) == move_count(games) + group.indices.len(),
    decreases games.len(),
{
    let changed = games.insert(at, group);
    if at == games.len() {
        assert(changed.drop_last() =~= games);
    } else {
        assert(changed.drop_last() =~= games.drop_last().insert(at, group));
        assert(changed.last() == games.last());
        lemma_move_count_insert(games.drop_last(), at, group);
    }
}

proof fn lemma_total_count_update(groups: Seq<SlugGroup>, at: int, group: SlugGroup)
    requires
        0 <= at < groups.len(),
    ensures
        total_count(groups.update(at, group)) == total_count(groups) - move_count(groups[at].games)
            + move_count(group.games),
    decreases groups.len(),
{
    let changed = groups.update(at, group);
    if at == groups.len() - 1 {
        assert(changed.drop_last() =~= groups.drop_last());
    } else {
        assert(changed.drop_last() =~= groups.drop_last().update(at, group));
        lemma_total_count_update(groups.drop_last(), at, group);
    }
}

proof fn lemma_total_count_insert(groups: Seq<SlugGroup>, at: int, group: SlugGroup)
    requires
        0 <= at <= groups.len(),
    ensures
        total_count(groups.insert(at, group)) == total_count(groups) + move_count(group.games),
    decreases groups.len(),
{
    let changed = groups.insert(at, group);
    if at == groups.len() {
        assert(changed.drop_last() =~= groups);
    } else {
        assert(changed.drop_last() =~= groups.drop_last().insert(at, group));
        assert(changed.last() == groups.last());
        lemma_total_count_insert(groups.drop_last(), at, group);
    }
}

/// The moves of one platform are among those of all.
proof fn lemma_total_count_covers(groups: Seq<SlugGroup>, at: int)
    requires
        0 <= at < groups.len(),
    ensures
        move_count(groups[at].games) <= total_count(groups),
    decreases groups.len(),
{
    if at < groups.len() - 1 {
        lemma_total_count_covers(groups.drop_last(), at);
    }
}

/// Adding a move to games adds just that move.
pub(crate) proof fn lemma_add_to_games(games: Seq<GameGroup>, game: Seq<char>, index: int)
    requires
        games_in_order(games),
    ensures
        games_in_order(add_to_games(games, game, index)),
        move_count(add_to_games(games, game, index)) == move_count(games) + 1,
        forall|name: Seq<char>, other: int| #[trigger]
            in_games(add_to_games(games, game, index), name, other) <==> in_games(
                games,
                name,
                other,
            ) || (name == game && other == index),
{
    let names = game_names(games);
    let at = place(names, game);
    let more = add_to_games(games, game, index);
    lemma_place_bounds(names, game);
    if at < games.len() && games[at].game == game {
        let group = GameGroup { game, indices: games[at].indices.push(index) };
        lemma_move_count_update(games, at, group);
        assert(game_names(more) =~= names);
        assert forall|name: Seq<char>, other: int| #[trigger] in_games(more, name, other) implies
            in_games(games, name, other) || (name == game && other == index) by {
            let m = choose|m: int|
                0 <= m < more.len() && (#[trigger] more[m]).game == name
                    && more[m].indices.contains(other);
            if m == at {
                let k = choose|k: int|
                    0 <= k < group.indices.len() && group.indices[k] == other;
                if k < games[at].indices.len() {
                    assert(games[at].indices[k] == other);
                }
            }
            assert(games[m].game == name);
        }
        assert forall|name: Seq<char>, other: int|
            in_games(games, name, other) || (name == game && other == index) implies
            #[trigger] in_games(more, name, other) by {
            if in_games(games, name, other) {
                let m = choose|m: int|
                    0 <= m < games.len() && (#[trigger] games[m]).game == name
                        && games[m].indices.contains(other);
                if m == at {
                    let k = choose|k: int|
                        0 <= k < games[at].indices.len() && games[at].indices[k] == other;
                    assert(group.indices[k] == other);
                }
                assert(more[m].game == name && more[m].indices.contains(other));
            } else {
                assert(group.indices[games[at].indices.len() as int] == index);
                assert(more[at].game == name && more[at].indices.contains(other));
            }
        }
    } else {
        let group = GameGroup { game, indices: seq![index] };
        lemma_move_count_insert(games, at, group);
        lemma_insert_ascending(names, game);
        assert(game_names(more) =~= names.insert(at, game));
        assert forall|name: Seq<char>, other: int| #[trigger] in_games(more, name, other) implies
            in_games(games, name, other) || (name == game && other == index) by {
            let m = choose|m: int|
                0 <= m < more.len() && (#[trigger] more[m]).game == name
                    && more[m].indices.contains(other);
            if m < at {
                assert(games[m] == more[m]);
            } else if m > at {
                assert(games[m - 1] == more[m]);
            }
        }
        assert forall|name: Seq<char>, other: int|
            in_games(games, name, other) || (name == game && other == index) implies
            #[trigger] in_games(more, name, other) by {
            if in_games(games, name, other) {
                let m = choose|m: int|
                    0 <= m < games.len() && (#[trigger] games[m]).game == name
                        && games[m].indices.contains(other);
                if m < at {
                    assert(more[m] == games[m]);
                } else {
                    assert(more[m + 1] == games[m]);
                }
            } else {
                assert(group.indices[0] == index);
                assert(more[at] == group);
            }
        }
        assert forall|m: int| 0 <= m < more.len() implies (#[trigger] more[m]).indices.len()
            > 0 by {
            if m < at {
                assert(more[m] == games[m]);
            } else if m > at {
                assert(more[m] == games[m - 1]);
            }
        }
    }
}

/// Adding a move to platforms adds just that move.
proof fn lemma_add_to_slugs(groups: Seq<SlugGroup>, slug: Seq<char>, game: Seq<char>, index: int)
    requires
        slugs_in_order(groups),
    ensures
        slugs_in_order(add_to_slugs(groups, slug, game, index)),
        total_count(add_to_slugs(groups, slug, game, index)) == total_count(groups) + 1,
        forall|one: Seq<char>, name: Seq<char>, other: int| #[trigger]
            in_slugs(add_to_slugs(groups, slug, game, index), one, name, other) <==> in_slugs(
                groups,
                one,
                name,
                other,
            ) || (one == slug && name == game && other == index),
{
    let names = slug_names(groups);
    let at = place(names, slug);
    let more = add_to_slugs(groups, slug, game, index);
    lemma_place_bounds(names, slug);
    if at < groups.len() && groups[at].slug == slug {
        lemma_add_to_games(groups[at].games, game, index);
        let group = SlugGroup { slug, games: add_to_games(groups[at].games, game, index) };
        lemma_total_count_update(groups, at, group);
        assert(slug_names(more) =~= names);
        assert forall|one: Seq<char>, name: Seq<char>, other: int| #[trigger]
            in_slugs(more, one, name, other) implies in_slugs(groups, one, name, other) || (one
            == slug && name == game && other == index) by {
            let s = choose|s: int|
                0 <= s < more.len() && (#[trigger] more[s]).slug == one && in_games(
                    more[s].games,
                    name,
                    other,
                );
            assert(groups[s].slug == one);
        }
        assert forall|one: Seq<char>, name: Seq<char>, other: int|
            in_slugs(groups, one, name, other) || (one == slug && name == game && other
                == index) implies #[trigger] in_slugs(more, one, name, other) by {
            if in_slugs(groups, one, name, other) {
                let s = choose|s: int|
                    0 <= s < groups.len() && (#[trigger] groups[s]).slug == one && in_games(
                        groups[s].games,
                        name,
                        other,
                    );
                assert(more[s].slug == one && in_games(more[s].games, name, other));
            } else {
                assert(more[at].slug == one && in_games(more[at].games, name, other));
            }
        }
    } else {
        assert(ascending(game_names(Seq::<GameGroup>::empty())));
        lemma_add_to_games(Seq::empty(), game, index);
        let group = SlugGroup { slug, games: add_to_games(Seq::empty(), game, index) };
        lemma_total_count_insert(groups, at, group);
        lemma_insert_ascending(names, slug);
        assert(slug_names(more) =~= names.insert(at, slug));
        assert forall|one: Seq<char>, name: Seq<char>, other: int| #[trigger]
            in_slugs(more, one, name, other) implies in_slugs(groups, one, name, other) || (one
            == slug && name == game && other == index) by {
            let s = choose|s: int|
                0 <= s < more.len() && (#[trigger] more[s]).slug == one && in_games(
                    more[s].games,
                    name,
                    other,
                );
            if s < at {
                assert(groups[s] == more[s]);
            } else if s > at {
                assert(groups[s - 1] == more[s]);
            } else {
                assert(!in_games(Seq::<GameGroup>::empty(), name, other));
            }
        }
        assert forall|one: Seq<char>, name: Seq<char>, other: int|
            in_slugs(groups, one, name, other) || (one == slug && name == game && other
                == index) implies #[trigger] in_slugs(more, one, name, other) by {
            if in_slugs(groups, one, name, other) {
                let s = choose|s: int|
                    0 <= s < groups.len() && (#[trigger] groups[s]).slug == one && in_games(
                        groups[s].games,
                        name,
                        other,
                    );
                if s < at {
                    assert(more[s] == groups[s]);
                } else {
                    assert(more[s + 1] == groups[s]);
                }
            } else {
                assert(more[at] == group);
            }
        }
        assert forall|s: int| 0 <= s < more.len() implies games_in_order(
            (#[trigger] more[s]).games,
        ) by {
            if s < at {
                assert(more[s] == groups[s]);
            } else if s > at {
                assert(more[s] == groups[s - 1]);
            }
        }
    }
}

/// Grouping lists platforms and games in ascending order, and each move of the plan under its own
/// platform and game and nowhere else, as many as there are.
pub proof fn lemma_grouping_is_faithful(
    plan: Seq<MoveView>,
    output_root: Seq<PartView>,
    count: nat,
)
    requires
        count <= plan.len(),
    ensures
        slugs_in_order(grouped(plan, output_root, count)),
        total_count(grouped(plan, output_root, count)) == count,
        forall|slug: Seq<char>, game: Seq<char>, index: int| #[trigger]
            in_slugs(grouped(plan, output_root, count), slug, game, index) <==> 0 <= index < count
                && row_slug(plan[index]) == slug && game_name(plan[index], output_root) == game,
    decreases count,
{
    if count == 0 {
        assert(ascending(slug_names(grouped(plan, output_root, count))));
    } else {
        let item = plan[count - 1];
        lemma_grouping_is_faithful(plan, output_root, (count - 1) as nat);
        lemma_add_to_slugs(
            grouped(plan, output_root, (count - 1) as nat),
            row_slug(item),
            game_name(item, output_root),
            count - 1,
        );
    }
}

/// The moves that a group lists are moves of the plan.
proof fn lemma_group_lists_moves(
    plan: Seq<MoveView>,
    output_root: Seq<PartView>,
    s: int,
    m: int,
)
    requires
        0 <= s < grouped(plan, output_root, plan.len()).len(),
        0 <= m < grouped(plan, output_root, plan.len())[s].games.len(),
    ensures
        ({
            let indices = grouped(plan, output_root, plan.len())[s].games[m].indices;
            indices.len() > 0 && forall|k: int|
                0 <= k < indices.len() ==> 0 <= #[trigger] indices[k] < plan.len()
        }),
{
    let groups = grouped(plan, output_root, plan.len());
    let games = groups[s].games;
    let indices = games[m].indices;
    lemma_grouping_is_faithful(plan, output_root, plan.len());
    assert(games_in_order(games));
    assert forall|k: int| 0 <= k < indices.len() implies 0 <= #[trigger] indices[k]
        < plan.len() by {
        assert(games[m].indices.contains(indices[k]));
        assert(in_games(games, games[m].game, indices[k]));
        assert(in_slugs(groups, groups[s].slug, games[m].game, indices[k]));
    }
}

// ---------------------------------------------------------------------------------------------
// Rows, carried out

/// The game that a move is listed under.
pub fn infer_game_name(item: &PlannedMove, output_root: &RomPath) -> (result: String)
    ensures
        result@ == game_name(item@, output_root@.parts),
{
    if let Some(destination) = &item.destination {
        if let Some(relative) = destination.strip_prefix(output_root) {
            let names: Vec<String> = relative.texts();
            assert(text::views(names@).len() == names@.len());
            if names.len() >= 2 {
                assert(text::views(names@)[1] == names@[1]@);
                return names[1].clone();
            }
        }
    }
    match item.source.file_stem() {
        Some(stem) => stem,
        None => "unknown-game".to_owned(),
    }
}

/// What a game is remembered by while it is expanded.
pub fn game_key(slug: &str, game: &str) -> (result: String)
    ensures
        result@ == key(slug@, game@),
{
    let mut result: String = slug.to_owned();
    result.append("::");
    result.append(game);
    result
}

/// The platform that a move is listed under.
fn slug_of_row(item: &PlannedMove) -> (result: String)
    ensures
        result@ == row_slug(item@),
{
    match &item.platform_slug {
        Some(slug) => slug.clone(),
        None => "unclassified".to_owned(),
    }
}

/// The moves of a plan by platform and game.
fn group_plan(plan: &Vec<PlannedMove>, output_root: &RomPath) -> (result: SlugList)
    ensures
        result.in_order(),
        result@ == grouped(model::plan_views(plan@), output_root@.parts, plan@.len()),
{
    let ghost views = model::plan_views(plan@);
    let mut list: SlugList = SlugList::new();
    let mut at: usize = 0;
    while at < plan.len()
        invariant
            at <= plan@.len(),
            views == model::plan_views(plan@),
            list.in_order(),
            list@ == grouped(views, output_root@.parts, at as nat),
        decreases plan@.len() - at,
    {
        assert(views[at as int] == plan@[at as int]@);
        list.add(slug_of_row(&plan[at]), infer_game_name(&plan[at], output_root), at);
        at = at + 1;
    }
    list
}

/// Whether one of these moves is marked as a conflict.
fn any_conflict(plan: &Vec<PlannedMove>, indices: &Vec<usize>) -> (result: bool)
    requires
        forall|k: int| 0 <= k < indices@.len() ==> #[trigger] indices@[k] < plan@.len(),
    ensures
        result == exists|k: int|
            0 <= k < index_views(indices@).len() && model::plan_views(
                plan@,
            )[#[trigger] index_views(indices@)[k]].has_conflict,
{
    let mut at: usize = 0;
    while at < indices.len()
        invariant
            at <= indices@.len(),
            forall|k: int| 0 <= k < indices@.len() ==> #[trigger] indices@[k] < plan@.len(),
            forall|k: int|
                0 <= k < at ==> !model::plan_views(
                    plan@,
                )[#[trigger] index_views(indices@)[k]].has_conflict,
        decreases indices@.len() - at,
    {
        let index: usize = indices[at];
        assert(index_views(indices@)[at as int] == index as int);
        assert(model::plan_views(plan@)[index as int] == plan@[index as int]@);
        if plan[index].has_conflict {
            return true;
        }
        at = at + 1;
    }
    false
}

/// How many moves the games of a platform have.
fn count_moves(list: &GameList) -> (result: usize)
    requires
        list.in_order(),
        move_count(list@) <= usize::MAX,
    ensures
        result == move_count(list@),
{
    let ghost games = list@;
    let mut result: usize = 0;
    let mut at: usize = 0;
    while at < list.indices.len()
        invariant
            at <= list.indices@.len() == games.len(),
            games == list@,
            list.in_order(),
            move_count(games) <= usize::MAX,
            result == move_count(games.take(at as int)),
        decreases list.indices@.len() - at,
    {
        proof {
            let now = games.take(at + 1);
            assert(now.drop_last() =~= games.take(at as int));
            assert(now.last() == games[at as int]);
            lemma_move_count_take(games, at + 1);
        }
        result = result + list.indices[at].len();
        at = at + 1;
    }
    assert(games.take(games.len() as int) =~= games);
    result
}

/// The first games of a list have no more moves than all of them.
proof fn lemma_move_count_take(games: Seq<GameGroup>, count: int)
    requires
        0 <= count <= games.len(),
    ensures
        move_count(games.take(count)) <= move_count(games),
    decreases games.len(),
{
    if count == games.len() {
        assert(games.take(count) =~= games);
    } else {
        assert(games.drop_last().take(count) =~= games.take(count));
        lemma_move_count_take(games.drop_last(), count);
    }
}

/// Appends the rows of a game.
fn push_game(
    rows: &mut Vec<DisplayRow>,
    plan: &Vec<PlannedMove>,
    slug: &str,
    game: &str,
    indices: &Vec<usize>,
    expanded_games: &TextSet,
)
    requires
        indices@.len() > 0,
        forall|k: int| 0 <= k < indices@.len() ==> #[trigger] indices@[k] < plan@.len(),
    ensures
        row_views(final(rows)@) == row_views(old(rows)@) + game_rows(
            model::plan_views(plan@),
            slug@,
            GameGroup { game: game@, indices: index_views(indices@) },
            expanded_games@,
        ),
{
    let ghost views = model::plan_views(plan@);
    let ghost group = GameGroup { game: game@, indices: index_views(indices@) };
    let ghost before = row_views(rows@);
    let expanded: bool = expanded_games.contains(game_key(slug, game).as_str());
    let first: usize = indices[0];
    assert(index_views(indices@)[0] == first as int);
    assert(views[first as int] == plan@[first as int]@);
    let header: DisplayRow = DisplayRow::GameHeader {
        slug: slug.to_owned(),
        game: game.to_owned(),
        count: indices.len(),
        confidence: plan[first].confidence,
        reason: plan[first].reason.clone(),
        has_conflict: any_conflict(plan, indices),
        expanded,
    };
    let ghost head = seq![game_header(views, slug@, group, expanded_games@)];
    rows.push(header);
    assert(row_views(rows@) =~= before + head);
    if expanded {
        let ghost all = item_rows(group.indices);
        let mut at: usize = 0;
        assert(before + head =~= before + head + all.take(0));
        while at < indices.len()
            invariant
                at <= indices@.len(),
                all == item_rows(index_views(indices@)),
                row_views(rows@) == before + head + all.take(at as int),
            decreases indices@.len() - at,
        {
            let ghost earlier = rows@;
            let row: DisplayRow = DisplayRow::Item { plan_index: indices[at] };
            rows.push(row);
            assert(row@ == all[at as int]);
            assert(row_views(rows@) =~= row_views(earlier).push(row@));
            at = at + 1;
            assert(row_views(rows@) =~= before + head + all.take(at as int));
        }
        assert(all.take(all.len() as int) =~= all);
        assert(row_views(rows@) =~= before + (head + all));
    }
}

/// Builds the rows of a plan.
pub fn build_rows(
    plan: &Vec<PlannedMove>,
    output_root: &RomPath,
    expanded_slugs: &TextSet,
    expanded_games: &TextSet,
) -> (result: Vec<DisplayRow>)
    ensures
        row_views(result@) == display_rows(
            model::plan_views(plan@),
            output_root@.parts,
            expanded_slugs@,
            expanded_games@,
        ),
{
    let ghost views = model::plan_views(plan@);
    let list: SlugList = group_plan(plan, output_root);
    let ghost groups = list@;
    proof {
        lemma_grouping_is_faithful(views, output_root@.parts, views.len());
    }
    let length: usize = plan.len();
    let mut rows: Vec<DisplayRow> = Vec::new();
    let mut s: usize = 0;
    assert(row_views(rows@) =~= slugs_rows(
        views,
        groups.take(0),
        expanded_slugs@,
        expanded_games@,
    ));
    while s < list.names.len()
        invariant
            s <= list.names@.len() == groups.len(),
            groups == list@,
            list.in_order(),
            views == model::plan_views(plan@),
            length == plan@.len(),
            groups == grouped(views, output_root@.parts, views.len()),
            total_count(groups) == views.len(),
            row_views(rows@) == slugs_rows(
                views,
                groups.take(s as int),
                expanded_slugs@,
                expanded_games@,
            ),
        decreases list.names@.len() - s,
    {
        let ghost before = row_views(rows@);
        let ghost group = groups[s as int];
        let slug: &String = &list.names[s];
        let games: &GameList = &list.games[s];
        assert(group.slug == slug@ && group.games == games@);
        proof {
            lemma_total_count_covers(groups, s as int);
        }
        let expanded: bool = expanded_slugs.contains(slug.as_str());
        let header: DisplayRow = DisplayRow::SlugHeader {
            slug: slug.clone(),
            count: count_moves(games),
            expanded,
        };
        let ghost head = seq![header@];
        rows.push(header);
        assert(row_views(rows@) =~= before + head);
        if expanded {
            let mut m: usize = 0;
            assert(before + head =~= before + head + games_rows(
                views,
                slug@,
                group.games.take(0),
                expanded_games@,
            ));
            while m < games.names.len()
                invariant
                    s < list.names@.len() == groups.len(),
                    m <= games.names@.len() == group.games.len(),
                    games.in_order(),
                    group == groups[s as int],
                    group.games == games@,
                    views == model::plan_views(plan@),
                    groups == grouped(views, output_root@.parts, views.len()),
                    row_views(rows@) == before + head + games_rows(
                        views,
                        slug@,
                        group.games.take(m as int),
                        expanded_games@,
                    ),
                decreases games.names@.len() - m,
            {
                let ghost earlier = row_views(rows@);
                let ghost one = group.games[m as int];
                assert(one.game == games.names@[m as int]@);
                assert(one.indices == index_views(games.indices@[m as int]@));
                proof {
                    lemma_group_lists_moves(views, output_root@.parts, s as int, m as int);
                    let list = games.indices@[m as int]@;
                    assert forall|k: int| 0 <= k < list.len() implies #[trigger] list[k]
                        < plan@.len() by {
                        assert(one.indices[k] == list[k] as int);
                    }
                }
                push_game(
                    &mut rows,
                    plan,
                    slug.as_str(),
                    games.names[m].as_str(),
                    &games.indices[m],
                    expanded_games,
                );
                proof {
                    let now = group.games.take(m + 1);
                    assert(now.drop_last() =~= group.games.take(m as int));
                    assert(now.last() == one);
                    assert(row_views(rows@) =~= before + head + games_rows(
                        views,
                        slug@,
                        now,
                        expanded_games@,
                    ));
                }
                m = m + 1;
            }
            assert(group.games.take(group.games.len() as int) =~= group.games);
            assert(row_views(rows@) =~= before + (head + games_rows(
                views,
                slug@,
                group.games,
                expanded_games@,
            )));
        }
        proof {
            let now = groups.take(s + 1);
            assert(now.drop_last() =~= groups.take(s as int));
            assert(now.last() == group);
            assert(row_views(rows@) == before + slug_rows(
                views,
                group,
                expanded_slugs@,
                expanded_games@,
            ));
        }
        s = s + 1;
    }
    assert(groups.take(groups.len() as int) =~= groups);
    rows
}

}
