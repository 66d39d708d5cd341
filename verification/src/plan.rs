//! Where files go.

use vstd::prelude::*;
use crate::classifier::{Classification, ClassificationView};
use crate::model;
use crate::model::{MoveView, PlannedMove, Summary};
use crate::paths;
use crate::paths::{PartView, PathPart, PathView, RomPath};
use crate::scanner;
use crate::scanner::FoundView;
use crate::text;

verus! {

/// How many buckets destinations are sorted into while conflicts are looked for.
const BUCKETS: usize = 4096;

/// A plan and its counts.
pub struct PreparedData {
    pub plan: Vec<PlannedMove>,
    pub summary: Summary,
}

/// The folder names that stand for a kind of file of a game, and are kept in its destination.
pub open spec fn is_category(name: Seq<char>) -> bool {
    name == "dlc"@ || name == "hack"@ || name == "manual"@ || name == "mod"@ || name == "patch"@
        || name == "update"@ || name == "demo"@ || name == "translation"@ || name == "prototype"@
}

/// The categories that occur among texts, up to the case of ASCII letters.
pub open spec fn categories(texts: Seq<Seq<char>>) -> Set<Seq<char>> {
    Set::new(
        |name: Seq<char>|
            is_category(name) && exists|k: int|
                0 <= k < texts.len() && text::lower(#[trigger] texts[k]) == name,
    )
}

/// This category occurs among texts, and no other does.
pub open spec fn is_only_category(texts: Seq<Seq<char>>, name: Seq<char>) -> bool {
    categories(texts) == set![name]
}

/// The one category that occurs among texts. Where none occurs, or different ones do, there is
/// none.
pub open spec fn category(texts: Seq<Seq<char>>) -> Option<Seq<char>> {
    if exists|name: Seq<char>| is_only_category(texts, name) {
        Some(choose|name: Seq<char>| is_only_category(texts, name))
    } else {
        None
    }
}

/// The folder that a source folder is sorted into, which lies in it.
pub open spec fn output_folder(source_root: PathView) -> PathView {
    paths::extended(source_root, PartView::Name("roms"@))
}

/// The folder that the files of a platform go to.
pub open spec fn platform_folder(output_root: PathView, slug: Seq<char>) -> PathView {
    paths::resolved_path(output_root, paths::read(output_root.style, slug))
}

/// Where a file goes: into its platform's folder, there into the folder of its category if its path
/// names exactly one, under its own name. A file without a name, or outside the source folder, goes
/// nowhere.
pub open spec fn destination(
    source_root: PathView,
    output_root: PathView,
    source_file: PathView,
    slug: Seq<char>,
) -> Option<PathView> {
    match (
        paths::file_name(source_file.parts),
        paths::relative_to(source_file.parts, source_root.parts),
    ) {
        (Some(name), Some(relative)) => {
            let folder = platform_folder(output_root, slug);
            let place = match category(paths::texts(source_file.style, relative)) {
                Some(category) => paths::extended(folder, PartView::Name(category)),
                None => folder,
            };
            Some(paths::extended(place, name))
        },
        _ => None,
    }
}

/// The move that is planned for a file that was classified.
pub open spec fn planned(
    source_root: PathView,
    output_root: PathView,
    source: PathView,
    said: ClassificationView,
) -> MoveView {
    MoveView {
        source,
        destination: match said.platform_slug {
            Some(slug) => destination(source_root, output_root, source, slug),
            None => None,
        },
        platform_slug: said.platform_slug,
        confidence: said.confidence,
        reason: said.reason,
        has_conflict: false,
    }
}

/// Two moves have the same destination.
pub open spec fn same_destination(one: MoveView, other: MoveView) -> bool {
    match (one.destination, other.destination) {
        (Some(one), Some(other)) => paths::same_place(one, other),
        _ => false,
    }
}

/// An earlier move of the plan has the same destination.
pub open spec fn clashes(plan: Seq<MoveView>, at: int) -> bool {
    exists|k: int| 0 <= k < at && same_destination(#[trigger] plan[k], plan[at])
}

/// A plan with the moves marked whose destination an earlier one has.
pub open spec fn conflicts_marked(plan: Seq<MoveView>) -> Seq<MoveView> {
    Seq::new(
        plan.len(),
        |at: int|
            MoveView { has_conflict: plan[at].has_conflict || clashes(plan, at), ..plan[at] },
    )
}

/// The moves of files whose platform is known.
pub open spec fn classified(plan: Seq<MoveView>) -> Seq<MoveView> {
    plan.filter(|item: MoveView| item.platform_slug is Some)
}

/// The moves of files whose platform is not known.
pub open spec fn unclassified(plan: Seq<MoveView>) -> Seq<MoveView> {
    plan.filter(|item: MoveView| item.platform_slug is None)
}

/// The moves that are marked as conflicts.
pub open spec fn conflicting(plan: Seq<MoveView>) -> Seq<MoveView> {
    plan.filter(|item: MoveView| item.has_conflict)
}

/// Whether a text is a category.
fn names_category(name: &str) -> (result: bool)
    ensures
        result == is_category(name@),
{
    text::same(name, "dlc") || text::same(name, "hack") || text::same(name, "manual")
        || text::same(name, "mod") || text::same(name, "patch") || text::same(name, "update")
        || text::same(name, "demo") || text::same(name, "translation") || text::same(
        name,
        "prototype",
    )
}

/// The folder that a source folder is sorted into.
pub fn output_root_of(source_root: &RomPath) -> (result: RomPath)
    ensures
        result@ == output_folder(source_root@),
{
    source_root.with_part(PathPart::Name("roms".to_owned()))
}

/// A category is the category exactly where it occurs and no other does.
pub proof fn lemma_category_is_the_only_one(texts: Seq<Seq<char>>)
    ensures
        forall|name: Seq<char>| #[trigger]
            is_only_category(texts, name) <==> category(texts) == Some(name),
{
    assert forall|one: Seq<char>, other: Seq<char>| #[trigger]
        is_only_category(texts, one) && #[trigger] is_only_category(texts, other) implies one
        == other by {
        assert(set![one].contains(one));
        assert(set![other].contains(one));
    }
}

/// The categories that occur among texts and one more.
proof fn lemma_one_more_text(texts: Seq<Seq<char>>, last: Seq<char>)
    ensures
        categories(texts.push(last)) == if is_category(text::lower(last)) {
            categories(texts).insert(text::lower(last))
        } else {
            categories(texts)
        },
{
    let more = texts.push(last);
    assert forall|name: Seq<char>| #[trigger]
        categories(more).contains(name) == (categories(texts).contains(name) || (is_category(name)
            && name == text::lower(last))) by {
        if categories(texts).contains(name) {
            let k = choose|k: int|
                0 <= k < texts.len() && text::lower(#[trigger] texts[k]) == name;
            assert(text::lower(more[k]) == name);
        }
        if categories(more).contains(name) {
            let k = choose|k: int| 0 <= k < more.len() && text::lower(#[trigger] more[k]) == name;
            if k < texts.len() {
                assert(text::lower(texts[k]) == name);
            }
        }
        if is_category(name) && name == text::lower(last) {
            assert(text::lower(more[texts.len() as int]) == name);
        }
    }
    assert(categories(more) =~= if is_category(text::lower(last)) {
        categories(texts).insert(text::lower(last))
    } else {
        categories(texts)
    });
}

/// Texts among which two different categories occur have none.
proof fn lemma_two_categories(texts: Seq<Seq<char>>, count: int, one: Seq<char>, other: Seq<char>)
    requires
        0 <= count <= texts.len(),
        categories(texts.take(count)).contains(one),
        categories(texts.take(count)).contains(other),
        one != other,
    ensures
        category(texts) is None,
{
    let first = texts.take(count);
    assert forall|name: Seq<char>| #[trigger] categories(first).contains(name) implies categories(
        texts,
    ).contains(name) by {
        let k = choose|k: int| 0 <= k < first.len() && text::lower(#[trigger] first[k]) == name;
        assert(text::lower(texts[k]) == name);
    }
    assert(categories(texts).contains(one) && categories(texts).contains(other));
    assert forall|name: Seq<char>| !is_only_category(texts, name) by {
        if is_only_category(texts, name) {
            assert(set![name].contains(one) && set![name].contains(other));
        }
    }
}

/// The one category that the parts of a path name, in lower case.
pub fn detect_romm_category(relative_path: &RomPath) -> (result: Option<String>)
    ensures
        paths::option_text(result) == category(
            paths::texts(relative_path@.style, relative_path@.parts),
        ),
{
    let texts: Vec<String> = relative_path.texts();
    let ghost all = text::views(texts@);
    let mut found: Option<String> = None;
    let mut at: usize = 0;
    assert(categories(all.take(0)) =~= Set::<Seq<char>>::empty());
    while at < texts.len()
        invariant
            at <= texts@.len(),
            all == text::views(texts@),
            all == paths::texts(relative_path@.style, relative_path@.parts),
            match found {
                Some(name) => categories(all.take(at as int)) == set![name@],
                None => categories(all.take(at as int)) == Set::<Seq<char>>::empty(),
            },
        decreases texts@.len() - at,
    {
        let lowered: String = text::to_lower(texts[at].as_str());
        let ghost earlier = categories(all.take(at as int));
        proof {
            assert(all.take(at + 1) =~= all.take(at as int).push(texts@[at as int]@));
            lemma_one_more_text(all.take(at as int), texts@[at as int]@);
        }
        if names_category(lowered.as_str()) {
            match &found {
                Some(name) => {
                    if !text::same(name.as_str(), lowered.as_str()) {
                        proof {
                            assert(earlier.contains(name@));
                            lemma_two_categories(all, at + 1, name@, lowered@);
                        }
                        return None;
                    }
                    assert(earlier.insert(lowered@) =~= earlier);
                },
                None => {
                    assert(earlier.insert(lowered@) =~= set![lowered@]);
                    found = Some(lowered);
                },
            }
        }
        at = at + 1;
    }
    proof {
        assert(all.take(texts@.len() as int) =~= all);
        lemma_category_is_the_only_one(all);
        match &found {
            Some(name) => {
                assert(is_only_category(all, name@));
            },
            None => {
                assert forall|name: Seq<char>| !is_only_category(all, name) by {
                    assert(set![name].contains(name));
                }
            },
        }
    }
    found
}

/// Where a file goes.
pub fn plan_destination_for_game(
    source_root: &RomPath,
    output_root: &RomPath,
    source_file: &RomPath,
    slug: &str,
) -> (result: Option<RomPath>)
    ensures
        model::option_path(result) == destination(
            source_root@,
            output_root@,
            source_file@,
            slug@,
        ),
{
    let name: PathPart = match source_file.file_name() {
        Some(name) => name.clone(),
        None => {
            return None;
        },
    };
    let relative: RomPath = match source_file.strip_prefix(source_root) {
        Some(relative) => relative,
        None => {
            return None;
        },
    };
    let folder: RomPath = output_root.join(&RomPath::parse(output_root.style, slug));
    let place: RomPath = match detect_romm_category(&relative) {
        Some(category) => folder.with_part(PathPart::Name(category)),
        None => folder,
    };
    Some(place.with_part(name))
}

/// Plans the move of a file that was classified.
pub fn plan_move(
    source_root: &RomPath,
    output_root: &RomPath,
    source: &RomPath,
    classification: Classification,
) -> (result: PlannedMove)
    ensures
        result@ == planned(source_root@, output_root@, source@, classification@),
{
    let destination: Option<RomPath> = match &classification.platform_slug {
        Some(slug) => plan_destination_for_game(source_root, output_root, source, slug.as_str()),
        None => None,
    };
    PlannedMove {
        source: source.clone(),
        destination,
        platform_slug: classification.platform_slug,
        confidence: classification.confidence,
        reason: classification.reason,
        has_conflict: false,
    }
}

/// The bucket of a text.
spec fn bucket(text: Seq<char>) -> int
    decreases text.len(),
{
    if text.len() == 0 {
        0
    } else {
        (bucket(text.drop_last()) * 31 + (text.last() as u32) % 4096) % BUCKETS as int
    }
}

/// Paths that are the same have the same bucket.
proof fn lemma_same_bucket(one: PathView, other: PathView)
    requires
        paths::same_place(one, other),
    ensures
        paths::last_shown(one) == paths::last_shown(other),
{
    assert(paths::identities(one.parts).len() == paths::identities(other.parts).len());
    if one.parts.len() > 0 {
        let last = one.parts.len() - 1;
        assert(paths::identities(one.parts)[last] == paths::identities(other.parts)[last]);
        assert(paths::identity(one.parts[last]) == paths::identity(other.parts[last]));
    }
}

/// The bucket of a path: that of its last part as it is displayed.
fn bucket_of(path: &RomPath) -> (result: usize)
    ensures
        result == bucket(paths::last_shown(path@)),
        result < BUCKETS,
{
    let shown: String = path.last_shown();
    let mut result: usize = 0;
    for ch in it: shown.as_str().chars()
        invariant
            result < BUCKETS,
            it.seq() == shown@,
            result == bucket(shown@.take(it.index())),
    {
        proof {
            let now = shown@.take(it.index() + 1);
            assert(now.drop_last() =~= shown@.take(it.index()));
            assert(now.last() == ch);
        }
        result = (result * 31 + ((ch as u32) % 4096) as usize) % BUCKETS;
    }
    assert(shown@.take(shown@.len() as int) =~= shown@);
    result
}

/// Marks the moves whose destination an earlier one has.
pub fn mark_conflicts(plan: &mut Vec<PlannedMove>)
    ensures
        model::plan_views(final(plan)@) == conflicts_marked(model::plan_views(old(plan)@)),
        final(plan)@.len() == old(plan)@.len(),
        forall|one: int, other: int|
            #![trigger old(plan)@[one], final(plan)@[other]]
            0 <= one < other < old(plan)@.len() && (old(plan)@[one]@.destination matches Some(here)
                && old(plan)@[other]@.destination matches Some(there) && here.style == there.style
                && here.parts == there.parts) ==> final(plan)@[other].has_conflict,
{
    let ghost before = model::plan_views(plan@);
    let ghost marked = conflicts_marked(before);
    // The moves that were passed, sorted by the bucket of their destination.
    let mut buckets: Vec<Vec<usize>> = Vec::new();
    while buckets.len() < BUCKETS
        invariant
            buckets@.len() <= BUCKETS,
            forall|b: int| 0 <= b < buckets@.len() ==> (#[trigger] buckets@[b])@.len() == 0,
        decreases BUCKETS - buckets@.len(),
    {
        buckets.push(Vec::new());
    }
    let mut at: usize = 0;
    while at < plan.len()
        invariant
            at <= plan@.len() == before.len(),
            marked == conflicts_marked(before),
            forall|k: int| 0 <= k < at ==> (#[trigger] plan@[k])@ == marked[k],
            forall|k: int| at <= k < plan@.len() ==> (#[trigger] plan@[k])@ == before[k],
            buckets@.len() == BUCKETS,
            forall|b: int, k: int|
                0 <= b < BUCKETS && 0 <= k < (#[trigger] buckets@[b])@.len()
                    ==> #[trigger] buckets@[b]@[k] < at,
            forall|k: int|
                #![trigger before[k]]
                0 <= k < at && before[k].destination is Some ==> buckets@[bucket(
                    paths::last_shown(before[k].destination.unwrap()),
                )]@.contains(k as usize),
        decreases plan@.len() - at,
    {
        assert(plan@[at as int]@ == before[at as int]);
        let mut clash: bool = false;
        if let Some(destination) = &plan[at].destination {
            let own: usize = bucket_of(destination);
            let mut k: usize = 0;
            while k < buckets[own].len()
                invariant
                    k <= buckets@[own as int]@.len(),
                    own < buckets@.len() == BUCKETS,
                    at < plan@.len() == before.len(),
                    before[at as int].destination == Some(destination@),
                    forall|j: int| 0 <= j < at ==> (#[trigger] plan@[j])@ == marked[j],
                    marked == conflicts_marked(before),
                    forall|b: int, j: int|
                        0 <= b < BUCKETS && 0 <= j < (#[trigger] buckets@[b])@.len()
                            ==> #[trigger] buckets@[b]@[j] < at,
                    clash ==> clashes(before, at as int),
                    !clash ==> forall|j: int|
                        0 <= j < k ==> !same_destination(
                            before[#[trigger] buckets@[own as int]@[j] as int],
                            before[at as int],
                        ),
                decreases buckets@[own as int]@.len() - k,
            {
                let other: usize = buckets[own][k];
                assert(plan@[other as int]@ == marked[other as int]);
                assert(marked[other as int].destination == before[other as int].destination);
                if let Some(earlier) = &plan[other].destination {
                    if earlier.same(destination) {
                        assert(same_destination(before[other as int], before[at as int]));
                        clash = true;
                    }
                }
                k = k + 1;
            }
            proof {
                if clashes(before, at as int) && !clash {
                    let j = choose|j: int|
                        0 <= j < at && same_destination(#[trigger] before[j], before[at as int]);
                    lemma_same_bucket(before[j].destination.unwrap(), destination@);
                    let list = buckets@[own as int]@;
                    assert(list.contains(j as usize));
                    let m = choose|m: int| 0 <= m < list.len() && list[m] == j as usize;
                    assert(!same_destination(before[list[m] as int], before[at as int]));
                }
            }
            let ghost earlier_buckets = buckets@;
            buckets[own].push(at);
            proof {
                let list = earlier_buckets[own as int]@;
                assert(buckets@[own as int]@ == list.push(at));
                assert forall|j: int|
                    #![trigger before[j]]
                    0 <= j < at + 1 && before[j].destination is Some implies buckets@[bucket(
                    paths::last_shown(before[j].destination.unwrap()),
                )]@.contains(j as usize) by {
                    let b = bucket(paths::last_shown(before[j].destination.unwrap()));
                    if j == at {
                        assert(list.push(at)[list.len() as int] == at);
                    } else {
                        assert(earlier_buckets[b]@.contains(j as usize));
                        let m = choose|m: int|
                            0 <= m < earlier_buckets[b]@.len() && earlier_buckets[b]@[m]
                                == j as usize;
                        assert(buckets@[b]@[m] == j as usize);
                    }
                }
            }
        }
        if clash {
            plan[at].has_conflict = true;
        }
        assert(plan@[at as int]@ == marked[at as int]);
        at = at + 1;
    }
    proof {
        assert(model::plan_views(plan@) =~= marked);
        assert(plan@.len() == before.len());
        let first = old(plan)@;
        assert forall|one: int, other: int|
            #![trigger first[one], plan@[other]]
            0 <= one < other < first.len() && (first[one]@.destination matches Some(here)
                && first[other]@.destination matches Some(there) && here.style == there.style
                && here.parts == there.parts) implies plan@[other].has_conflict by {
            assert(before[one] == first[one]@ && before[other] == first[other]@);
            assert(same_destination(before[one], before[other]));
            assert(clashes(before, other));
            assert(plan@[other]@ == marked[other]);
        }
    }
}

/// The counts of a plan, of which `skipped` files were left out beforehand.
pub fn summarize(plan: &Vec<PlannedMove>, skipped: usize) -> (result: Summary)
    ensures
        result.scanned_files == plan@.len(),
        result.planned_moves == classified(model::plan_views(plan@)).len(),
        result.unclassified == unclassified(model::plan_views(plan@)).len(),
        result.conflicts == conflicting(model::plan_views(plan@)).len(),
        result.skipped == skipped,
{
    let ghost all = model::plan_views(plan@);
    let mut summary: Summary = Summary {
        scanned_files: plan.len(),
        planned_moves: 0,
        unclassified: 0,
        conflicts: 0,
        skipped,
    };
    proof {
        reveal(Seq::filter);
    }
    let mut at: usize = 0;
    while at < plan.len()
        invariant
            at <= plan@.len(),
            all == model::plan_views(plan@),
            summary.scanned_files == plan@.len(),
            summary.skipped == skipped,
            summary.planned_moves <= at,
            summary.unclassified <= at,
            summary.conflicts <= at,
            summary.planned_moves == classified(all.take(at as int)).len(),
            summary.unclassified == unclassified(all.take(at as int)).len(),
            summary.conflicts == conflicting(all.take(at as int)).len(),
        decreases plan@.len() - at,
    {
        proof {
            reveal(Seq::filter);
            let now = all.take(at + 1);
            assert(now.drop_last() =~= all.take(at as int));
            assert(now.last() == plan@[at as int]@);
        }
        if plan[at].platform_slug.is_some() {
            summary.planned_moves = summary.planned_moves + 1;
        } else {
            summary.unclassified = summary.unclassified + 1;
        }
        if plan[at].has_conflict {
            summary.conflicts = summary.conflicts + 1;
        }
        at = at + 1;
    }
    assert(all.take(plan@.len() as int) =~= all);
    summary
}

/// Marks the conflicts of a plan and counts it.
pub fn prepare(plan: Vec<PlannedMove>, skipped: usize) -> (result: PreparedData)
    ensures
        ({
            let marked = conflicts_marked(model::plan_views(plan@));
            &&& model::plan_views(result.plan@) == marked
            &&& result.summary.scanned_files == plan@.len()
            &&& result.summary.planned_moves == classified(marked).len()
            &&& result.summary.unclassified == unclassified(marked).len()
            &&& result.summary.conflicts == conflicting(marked).len()
            &&& result.summary.skipped == skipped
        }),
{
    let mut plan: Vec<PlannedMove> = plan;
    let ghost before = model::plan_views(plan@);
    mark_conflicts(&mut plan);
    assert(model::plan_views(plan@).len() == before.len());
    let summary: Summary = summarize(&plan, skipped);
    PreparedData { plan, summary }
}

// ---------------------------------------------------------------------------------------------
// Laws

/// A text that names no drive, share or root of its own.
pub open spec fn is_relative(parts: Seq<PartView>) -> bool {
    parts.len() == 0 || !(parts[0] is Prefix || parts[0] is Root)
}

/// A slug that does not leave the output folder: it names no place of its own, and does not climb
/// where climbing is taken at its word.
pub open spec fn stays_inside(output_root: PathView, slug: Seq<char>) -> bool {
    let parts = paths::parsed(output_root.style, slug);
    is_relative(parts) && (paths::begins_verbatim(output_root.parts) ==> forall|k: int|
        0 <= k < parts.len() ==> !((#[trigger] parts[k]) is Parent || parts[k] is Root))
}

/// A file goes under the output folder, into the folder of its platform.
pub proof fn lemma_destination_lies_under_output(
    source_root: PathView,
    output_root: PathView,
    source_file: PathView,
    slug: Seq<char>,
)
    requires
        stays_inside(output_root, slug),
        destination(source_root, output_root, source_file, slug) is Some,
    ensures
        paths::lies_under(
            destination(source_root, output_root, source_file, slug).unwrap().parts,
            platform_folder(output_root, slug).parts,
        ),
        paths::lies_under(
            destination(source_root, output_root, source_file, slug).unwrap().parts,
            output_root.parts,
        ),
{
    let folder = platform_folder(output_root, slug);
    let parts = destination(source_root, output_root, source_file, slug).unwrap().parts;
    let name = paths::file_name(source_file.parts).unwrap();
    let relative = paths::relative_to(source_file.parts, source_root.parts).unwrap();
    paths::lemma_resolved_lies_under(
        output_root.parts,
        paths::parsed(output_root.style, slug),
    );
    match category(paths::texts(source_file.style, relative)) {
        Some(category) => {
            let place = paths::extended(folder, PartView::Name(category));
            paths::lemma_named_lies_under(folder.parts, PartView::Name(category));
            paths::lemma_named_lies_under(place.parts, name);
            paths::lemma_lies_under_transitive(parts, place.parts, folder.parts);
        },
        None => {
            paths::lemma_named_lies_under(folder.parts, name);
        },
    }
    paths::lemma_lies_under_transitive(parts, folder.parts, output_root.parts);
}

/// A file keeps its name.
pub proof fn lemma_destination_keeps_name(
    source_root: PathView,
    output_root: PathView,
    source_file: PathView,
    slug: Seq<char>,
)
    requires
        destination(source_root, output_root, source_file, slug) is Some,
    ensures
        paths::file_name(destination(source_root, output_root, source_file, slug).unwrap().parts)
            == paths::file_name(source_file.parts),
{
    let folder = platform_folder(output_root, slug);
    let name = paths::file_name(source_file.parts).unwrap();
    let relative = paths::relative_to(source_file.parts, source_root.parts).unwrap();
    match category(paths::texts(source_file.style, relative)) {
        Some(category) => {
            paths::lemma_named_lies_under(
                paths::extended(folder, PartView::Name(category)).parts,
                name,
            );
        },
        None => {
            paths::lemma_named_lies_under(folder.parts, name);
        },
    }
}

/// A file whose path names two different categories goes directly into its platform's folder.
pub proof fn lemma_conflicting_categories_are_flat(
    source_root: PathView,
    output_root: PathView,
    source_file: PathView,
    slug: Seq<char>,
    one: Seq<char>,
    other: Seq<char>,
)
    requires
        destination(source_root, output_root, source_file, slug) is Some,
        ({
            let relative = paths::relative_to(source_file.parts, source_root.parts).unwrap();
            let named = categories(paths::texts(source_file.style, relative));
            named.contains(one) && named.contains(other) && one != other
        }),
    ensures
        destination(source_root, output_root, source_file, slug) == Some(
            paths::extended(
                platform_folder(output_root, slug),
                paths::file_name(source_file.parts).unwrap(),
            ),
        ),
{
    let relative = paths::relative_to(source_file.parts, source_root.parts).unwrap();
    let texts = paths::texts(source_file.style, relative);
    assert(texts.take(texts.len() as int) =~= texts);
    lemma_two_categories(texts, texts.len() as int, one, other);
}

/// A file is given a destination exactly when it has a name and lies under the source folder.
pub proof fn lemma_destination_when_in_source(
    source_root: PathView,
    output_root: PathView,
    source_file: PathView,
    slug: Seq<char>,
)
    ensures
        destination(source_root, output_root, source_file, slug) is Some <==> paths::file_name(
            source_file.parts,
        ) is Some && paths::lies_under(source_file.parts, source_root.parts),
{
}

/// A file that was put in its place is not taken up by a later scan.
pub proof fn lemma_sorted_file_is_left_alone(
    source_root: PathView,
    output_root: PathView,
    source_file: PathView,
    slug: Seq<char>,
    found: FoundView,
)
    requires
        stays_inside(output_root, slug),
        destination(source_root, output_root, source_file, slug) == Some(found.path),
    ensures
        !scanner::is_candidate(found, output_root.parts),
        !scanner::descends(found, output_root.parts),
{
    lemma_destination_lies_under_output(source_root, output_root, source_file, slug);
}

/// Of two moves to the same destination at least the later one is marked, so that no two moves
/// without a mark write to the same place.
pub proof fn lemma_unmarked_destinations_differ(plan: Seq<MoveView>)
    ensures
        ({
            let marked = conflicts_marked(plan);
            forall|one: int, other: int|
                0 <= one < other < marked.len() && same_destination(
                    #[trigger] marked[one],
                    #[trigger] marked[other],
                ) ==> marked[other].has_conflict
        }),
{
    let marked = conflicts_marked(plan);
    assert forall|one: int, other: int|
        0 <= one < other < marked.len() && same_destination(
            #[trigger] marked[one],
            #[trigger] marked[other],
        ) implies marked[other].has_conflict by {
        assert(same_destination(plan[one], plan[other]));
        assert(clashes(plan, other));
    }
}

/// The first move to a destination is not marked, unless it was before.
pub proof fn lemma_first_keeps_its_place(plan: Seq<MoveView>, at: int)
    requires
        0 <= at < plan.len(),
        forall|k: int| 0 <= k < at ==> !same_destination(#[trigger] plan[k], plan[at]),
    ensures
        conflicts_marked(plan)[at] == plan[at],
{
}

/// Marking conflicts twice marks no more.
pub proof fn lemma_marking_is_idempotent(plan: Seq<MoveView>)
    ensures
        conflicts_marked(conflicts_marked(plan)) == conflicts_marked(plan),
{
    let once = conflicts_marked(plan);
    assert forall|at: int| 0 <= at < plan.len() implies clashes(once, at) == clashes(plan, at) by {
        if clashes(once, at) {
            let k = choose|k: int|
                0 <= k < at && same_destination(#[trigger] once[k], once[at]);
            assert(same_destination(plan[k], plan[at]));
        }
        if clashes(plan, at) {
            let k = choose|k: int|
                0 <= k < at && same_destination(#[trigger] plan[k], plan[at]);
            assert(same_destination(once[k], once[at]));
        }
    }
    assert(conflicts_marked(once) =~= once);
}

/// Every move of a plan is either classified or not.
pub proof fn lemma_summary_is_complete(plan: Seq<MoveView>)
    ensures
        classified(plan).len() + unclassified(plan).len() == plan.len(),
    decreases plan.len(),
{
    reveal(Seq::filter);
    if plan.len() > 0 {
        lemma_summary_is_complete(plan.drop_last());
    }
}

}
