//! What holds of carrying out a plan.

use vstd::prelude::*;
use crate::model::{MoveView, TransferMode};
use crate::path_laws;
use crate::paths;
use crate::plan;
use crate::plan_laws;
use crate::transfer;
use crate::transfer::{Fate, TransferRun};

verus! {

/// A move is switched on, goes somewhere and is not marked.
pub open spec fn is_to_be_done(plan: Seq<MoveView>, disabled: Set<usize>, at: int) -> bool {
    !disabled.contains(at as usize) && plan[at].destination is Some && !plan[at].has_conflict
}

/// The numbers of the moves that are switched on, go somewhere and are not marked.
pub open spec fn to_be_done(plan: Seq<MoveView>, disabled: Set<usize>, count: nat) -> Seq<int> {
    Seq::new(count, |at: int| at).filter(|at: int| is_to_be_done(plan, disabled, at))
}

/// A move is carried out exactly if it is switched on, goes somewhere and is not marked; a move that
/// is not carried out is passed over for the first of these that it fails.
pub proof fn lemma_carried_out_when(plan: Seq<MoveView>, disabled: Set<usize>, at: int)
    ensures
        transfer::fate_at(plan, disabled, at) == Fate::Ready <==> !disabled.contains(at as usize)
            && plan[at].destination is Some && !plan[at].has_conflict,
        transfer::fate_at(plan, disabled, at) == Fate::Disabled <==> disabled.contains(
            at as usize,
        ),
        transfer::fate_at(plan, disabled, at) == Fate::Unclassified <==> !disabled.contains(
            at as usize,
        ) && plan[at].destination is None,
        transfer::fate_at(plan, disabled, at) == Fate::Conflict <==> !disabled.contains(
            at as usize,
        ) && plan[at].destination is Some && plan[at].has_conflict,
{
}

/// What becomes of a move does not depend on its source, platform, confidence or reason, nor on
/// where it goes, if only it goes somewhere.
pub proof fn lemma_fate_goes_by_mark_and_destination(
    one: MoveView,
    other: MoveView,
    disabled: bool,
)
    requires
        one.has_conflict == other.has_conflict,
        one.destination is Some == other.destination is Some,
    ensures
        transfer::fate(one, disabled) == transfer::fate(other, disabled),
{
}

/// As many of the first moves are carried out as are switched on, go somewhere and are not marked.
pub proof fn lemma_as_many_as_are_to_be_done(
    plan: Seq<MoveView>,
    disabled: Set<usize>,
    count: nat,
)
    ensures
        transfer::fated(plan, disabled, Fate::Ready, count) == to_be_done(
            plan,
            disabled,
            count,
        ).len(),
    decreases count,
{
    reveal(Seq::filter);
    if count > 0 {
        lemma_as_many_as_are_to_be_done(plan, disabled, (count - 1) as nat);
        assert(Seq::new(count, |at: int| at).drop_last() =~= Seq::new(
            (count - 1) as nat,
            |at: int| at,
        ));
    }
}

/// The counts of the fates grow by one with each move that is switched off, has nowhere to go, or is
/// marked, in this order.
pub proof fn lemma_counts_of_the_others(plan: Seq<MoveView>, disabled: Set<usize>, count: nat)
    ensures
        transfer::fated(plan, disabled, Fate::Disabled, count) == Seq::new(
            count,
            |at: int| at,
        ).filter(|at: int| disabled.contains(at as usize)).len(),
        transfer::fated(plan, disabled, Fate::Unclassified, count) == Seq::new(
            count,
            |at: int| at,
        ).filter(
            |at: int| !disabled.contains(at as usize) && plan[at].destination is None,
        ).len(),
        transfer::fated(plan, disabled, Fate::Conflict, count) == Seq::new(
            count,
            |at: int| at,
        ).filter(
            |at: int|
                !disabled.contains(at as usize) && plan[at].destination is Some
                    && plan[at].has_conflict,
        ).len(),
    decreases count,
{
    reveal(Seq::filter);
    if count > 0 {
        lemma_counts_of_the_others(plan, disabled, (count - 1) as nat);
        assert(Seq::new(count, |at: int| at).drop_last() =~= Seq::new(
            (count - 1) as nat,
            |at: int| at,
        ));
    }
}

/// A plan in which no move is marked has no conflicts.
pub proof fn lemma_no_marks_no_conflicts(plan: Seq<MoveView>, disabled: Set<usize>, count: nat)
    requires
        count <= plan.len(),
        forall|k: int| 0 <= k < plan.len() ==> !(#[trigger] plan[k]).has_conflict,
    ensures
        transfer::fated(plan, disabled, Fate::Conflict, count) == 0,
    decreases count,
{
    if count > 0 {
        lemma_no_marks_no_conflicts(plan, disabled, (count - 1) as nat);
        assert(!plan[count - 1].has_conflict);
    }
}

/// A run that has come to the end of a plan has transferred as many moves as are switched on, go
/// somewhere and are not marked, and skipped all others.
pub proof fn lemma_run_does_what_is_to_be_done(
    run: TransferRun,
    plan: Seq<MoveView>,
    disabled: Set<usize>,
)
    requires
        run.counts(plan, disabled),
        run.next == plan.len(),
    ensures
        run.transferred == to_be_done(plan, disabled, plan.len()).len(),
        run.skipped == plan.len() - to_be_done(plan, disabled, plan.len()).len(),
{
    lemma_as_many_as_are_to_be_done(plan, disabled, plan.len());
}

/// Of two moves that are carried out in a plan whose conflicts are marked, none writes to the other's
/// place: their destinations are not made of the same parts.
pub proof fn lemma_no_two_write_to_the_same_parts(
    plan: Seq<MoveView>,
    disabled: Set<usize>,
    one: int,
    other: int,
)
    requires
        0 <= one < plan.len(),
        0 <= other < plan.len(),
        one != other,
        transfer::fate_at(plan::conflicts_marked(plan), disabled, one) == Fate::Ready,
        transfer::fate_at(plan::conflicts_marked(plan), disabled, other) == Fate::Ready,
    ensures
        !plan_laws::go_to_same_parts(plan[one], plan[other]),
        plan[one].destination matches Some(here) && plan[other].destination matches Some(there) && (
        here.style == there.style ==> here.parts != there.parts),
{
    let marked = plan::conflicts_marked(plan);
    lemma_carried_out_when(marked, disabled, one);
    lemma_carried_out_when(marked, disabled, other);
    plan_laws::lemma_marking_changes_marks_only(plan, one);
    plan_laws::lemma_marking_changes_marks_only(plan, other);
    if plan_laws::go_to_same_parts(plan[one], plan[other]) {
        if one < other {
            plan_laws::lemma_later_move_is_marked(plan, one, other);
        } else {
            let here = plan[one].destination.unwrap();
            let there = plan[other].destination.unwrap();
            assert forall|k: int| 0 <= k < there.parts.len() implies #[trigger] there.parts[k]
                == here.parts[k] by {
                assert(here.parts[k] == there.parts[k]);
            }
            plan_laws::lemma_later_move_is_marked(plan, other, one);
        }
    }
}

/// The first move of a fresh plan to go to a place is carried out, unless it is switched off: its
/// mark comes from an earlier move alone.
pub proof fn lemma_first_to_a_place_is_carried_out(
    plan: Seq<MoveView>,
    disabled: Set<usize>,
    at: int,
)
    requires
        0 <= at < plan.len(),
        !disabled.contains(at as usize),
        !plan[at].has_conflict,
        plan[at].destination is Some,
        forall|k: int|
            #![trigger plan[k]]
            0 <= k < at ==> (plan[k].destination matches Some(earlier)
                ==> earlier.parts.len() != plan[at].destination.unwrap().parts.len() || exists|j: int|
                0 <= j < earlier.parts.len() && !path_laws::same_or_prefixes(
                    #[trigger] earlier.parts[j],
                    plan[at].destination.unwrap().parts[j],
                )),
    ensures
        transfer::fate_at(plan::conflicts_marked(plan), disabled, at) == Fate::Ready,
{
    let marked = plan::conflicts_marked(plan);
    lemma_carried_out_when(marked, disabled, at);
    plan_laws::lemma_marking_changes_marks_only(plan, at);
    if marked[at].has_conflict {
        let earlier = plan_laws::lemma_marked_because_of_an_earlier_one(plan, at);
        assert(plan[earlier].destination is Some);
    }
}

/// A report tells the source and destination of the move as they are displayed, its turn, how many
/// moves there are, and the counts.
pub proof fn lemma_report_tells_of_the_move(
    plan: Seq<MoveView>,
    at: int,
    mode: TransferMode,
    transferred: nat,
    skipped: nat,
)
    requires
        0 <= at < plan.len(),
    ensures
        ({
            let told = transfer::report(plan, at, mode, transferred, skipped);
            &&& told.source == paths::shown(plan[at].source)
            &&& plan[at].destination matches Some(place) ==> told.destination == paths::shown(place)
            &&& plan[at].destination is None ==> told.destination.len() == 0
            &&& told.processed == at + 1
            &&& told.total == plan.len()
            &&& told.transferred == transferred
            &&& told.skipped == skipped
        }),
{
}

}
