//! Carrying out a plan.
//!
//! Copying and moving files is the caller's work. [`TransferRun`] says for each move of a plan in
//! turn what is to be done with it, and keeps the counts.

use std::collections::HashSet;
use vstd::prelude::*;
use crate::model;
use crate::model::{MoveView, PlannedMove, TransferMode};
use crate::paths;
use crate::plan;
use crate::progress::{TransferUpdate, TransferView};

verus! {

broadcast use vstd::std_specs::hash::group_hash_axioms;

/// What becomes of a move.
#[derive(Debug, Clone, Copy, PartialEq, Eq, Structural)]
pub enum Fate {
    /// The user switched it off.
    Disabled,
    /// It has no destination.
    Unclassified,
    /// Another move has its destination.
    Conflict,
    Ready,
}

/// How many moves were carried out and passed over.
#[derive(Debug, Clone, Copy, PartialEq, Eq, Structural)]
pub struct TransferStats {
    pub transferred: usize,
    pub skipped: usize,
}

/// Where the carrying out of a plan has got to.
#[derive(Debug, Clone, Copy, PartialEq, Eq, Structural)]
pub struct TransferRun {
    /// The move whose turn it is.
    pub next: usize,
    pub transferred: usize,
    pub skipped: usize,
}

/// What is to be done next.
#[derive(Debug)]
pub enum TransferStep {
    /// The plan is carried out.
    Finished(TransferStats),
    /// The user wants no more.
    Canceled,
    /// A move was passed over.
    Skipped(TransferUpdate),
    /// The move with this number is to be carried out, and then reported by
    /// [`TransferRun::complete`].
    Perform(usize),
}

/// What becomes of a move: a move that is switched off is passed over whatever else holds of it.
pub open spec fn fate(item: MoveView, disabled: bool) -> Fate {
    if disabled {
        Fate::Disabled
    } else if item.destination is None {
        Fate::Unclassified
    } else if item.has_conflict {
        Fate::Conflict
    } else {
        Fate::Ready
    }
}

/// What becomes of the move with this number.
pub open spec fn fate_at(plan: Seq<MoveView>, disabled: Set<usize>, at: int) -> Fate {
    fate(plan[at], disabled.contains(at as usize))
}

/// How many of the first `count` moves meet this fate.
pub open spec fn fated(
    plan: Seq<MoveView>,
    disabled: Set<usize>,
    wanted: Fate,
    count: nat,
) -> nat
    decreases count,
{
    if count == 0 {
        0
    } else {
        fated(plan, disabled, wanted, (count - 1) as nat) + if fate_at(plan, disabled, count - 1)
            == wanted {
            1nat
        } else {
            0
        }
    }
}

/// What is reported of a move.
pub open spec fn report(
    plan: Seq<MoveView>,
    at: int,
    mode: TransferMode,
    transferred: nat,
    skipped: nat,
) -> TransferView {
    TransferView {
        phase: mode.label(),
        source: paths::shown(plan[at].source),
        destination: match plan[at].destination {
            Some(path) => paths::shown(path),
            None => Seq::empty(),
        },
        processed: (at + 1) as nat,
        total: plan.len(),
        transferred,
        skipped,
    }
}

/// What becomes of a move.
pub fn fate_of(item: &PlannedMove, disabled: bool) -> (result: Fate)
    ensures
        result == fate(item@, disabled),
        result == Fate::Ready <==> !disabled && item.destination is Some && !item.has_conflict,
{
    if disabled {
        Fate::Disabled
    } else if item.destination.is_none() {
        Fate::Unclassified
    } else if item.has_conflict {
        Fate::Conflict
    } else {
        Fate::Ready
    }
}

impl TransferRun {
    /// The counts are those of the moves that have had their turn.
    pub open spec fn counts(self, plan: Seq<MoveView>, disabled: Set<usize>) -> bool {
        &&& self.next <= plan.len()
        &&& self.transferred == fated(plan, disabled, Fate::Ready, self.next as nat)
        &&& self.skipped == self.next - self.transferred
    }

    /// The beginning.
    pub fn new() -> (result: TransferRun)
        ensures
            result == (TransferRun { next: 0, transferred: 0, skipped: 0 }),
            forall|plan: Seq<MoveView>, disabled: Set<usize>| #[trigger]
                result.counts(plan, disabled),
    {
        TransferRun { next: 0, transferred: 0, skipped: 0 }
    }

    /// Decides what is done with the next move. The user's wish to stop is heeded before each move,
    /// but not after the last.
    pub fn step(
        &mut self,
        plan: &Vec<PlannedMove>,
        disabled_plan_indices: &HashSet<usize>,
        mode: TransferMode,
        cancelled: bool,
    ) -> (result: TransferStep)
        requires
            old(self).counts(model::plan_views(plan@), disabled_plan_indices@),
        ensures
            final(self).counts(model::plan_views(plan@), disabled_plan_indices@),
            ({
                let views = model::plan_views(plan@);
                let before = *old(self);
                if before.next == plan@.len() {
                    *final(self) == before && result == TransferStep::Finished(
                        TransferStats {
                            transferred: before.transferred,
                            skipped: before.skipped,
                        },
                    )
                } else if cancelled {
                    *final(self) == before && result == TransferStep::Canceled
                } else if fate_at(views, disabled_plan_indices@, before.next as int)
                    == Fate::Ready {
                    *final(self) == before && result == TransferStep::Perform(before.next)
                } else {
                    &&& *final(self) == (TransferRun {
                        next: (before.next + 1) as usize,
                        transferred: before.transferred,
                        skipped: (before.skipped + 1) as usize,
                    })
                    &&& result matches TransferStep::Skipped(update) && update@ == report(
                        views,
                        before.next as int,
                        mode,
                        before.transferred as nat,
                        (before.skipped + 1) as nat,
                    )
                }
            }),
            result is Perform <==> old(self).next < plan@.len() && !cancelled
                && !disabled_plan_indices@.contains(old(self).next)
                && plan@[old(self).next as int].destination is Some
                && !plan@[old(self).next as int].has_conflict,
    {
        let at: usize = self.next;
        if at == plan.len() {
            return TransferStep::Finished(
                TransferStats { transferred: self.transferred, skipped: self.skipped },
            );
        }
        if cancelled {
            return TransferStep::Canceled;
        }
        assert(model::plan_views(plan@)[at as int] == plan@[at as int]@);
        if fate_of(&plan[at], disabled_plan_indices.contains(&at)) == Fate::Ready {
            return TransferStep::Perform(at);
        }
        let total: usize = plan.len();
        self.next = at + 1;
        self.skipped = self.skipped + 1;
        TransferStep::Skipped(
            update_for(&plan[at], at, total, mode, self.transferred, self.skipped),
        )
    }

    /// Takes note that the move whose turn it is was carried out.
    pub fn complete(
        &mut self,
        plan: &Vec<PlannedMove>,
        disabled_plan_indices: &HashSet<usize>,
        mode: TransferMode,
    ) -> (result: TransferUpdate)
        requires
            old(self).counts(model::plan_views(plan@), disabled_plan_indices@),
            old(self).next < plan@.len(),
            fate_at(model::plan_views(plan@), disabled_plan_indices@, old(self).next as int)
                == Fate::Ready,
        ensures
            final(self).counts(model::plan_views(plan@), disabled_plan_indices@),
            *final(self) == (TransferRun {
                next: (old(self).next + 1) as usize,
                transferred: (old(self).transferred + 1) as usize,
                skipped: old(self).skipped,
            }),
            result@ == report(
                model::plan_views(plan@),
                old(self).next as int,
                mode,
                (old(self).transferred + 1) as nat,
                old(self).skipped as nat,
            ),
    {
        let at: usize = self.next;
        assert(model::plan_views(plan@)[at as int] == plan@[at as int]@);
        let total: usize = plan.len();
        self.next = at + 1;
        self.transferred = self.transferred + 1;
        update_for(&plan[at], at, total, mode, self.transferred, self.skipped)
    }
}

/// What is reported of a move.
fn update_for(
    item: &PlannedMove,
    at: usize,
    total: usize,
    mode: TransferMode,
    transferred: usize,
    skipped: usize,
) -> (result: TransferUpdate)
    requires
        at < total,
    ensures
        result@ == (TransferView {
            phase: mode.label(),
            source: paths::shown(item@.source),
            destination: match item@.destination {
                Some(path) => paths::shown(path),
                None => Seq::empty(),
            },
            processed: (at + 1) as nat,
            total: total as nat,
            transferred: transferred as nat,
            skipped: skipped as nat,
        }),
{
    TransferUpdate {
        phase: mode.prompt_label().to_owned(),
        source: item.source.display(),
        destination: match &item.destination {
            Some(path) => path.display(),
            None => String::new(),
        },
        processed: at + 1,
        total,
        transferred,
        skipped,
    }
}

// ---------------------------------------------------------------------------------------------
// Laws

/// A plan that is carried out to its end has each move either transferred or skipped, and
/// transfers those that are ready.
pub proof fn lemma_every_move_is_accounted_for(
    run: TransferRun,
    plan: Seq<MoveView>,
    disabled: Set<usize>,
)
    requires
        run.counts(plan, disabled),
        run.next == plan.len(),
    ensures
        run.transferred + run.skipped == plan.len(),
        run.transferred == fated(plan, disabled, Fate::Ready, plan.len()),
        run.skipped == fated(plan, disabled, Fate::Disabled, plan.len()) + fated(
            plan,
            disabled,
            Fate::Unclassified,
            plan.len(),
        ) + fated(plan, disabled, Fate::Conflict, plan.len()),
{
    lemma_fates_are_complete(plan, disabled, plan.len());
}

/// Every move meets exactly one fate.
pub proof fn lemma_fates_are_complete(plan: Seq<MoveView>, disabled: Set<usize>, count: nat)
    ensures
        fated(plan, disabled, Fate::Ready, count) + fated(plan, disabled, Fate::Unclassified, count)
            + fated(plan, disabled, Fate::Conflict, count) + fated(
            plan,
            disabled,
            Fate::Disabled,
            count,
        ) == count,
    decreases count,
{
    if count > 0 {
        lemma_fates_are_complete(plan, disabled, (count - 1) as nat);
    }
}

/// No two moves that are carried out write to the same place, whatever the user switches off.
pub proof fn lemma_no_file_is_overwritten_by_another(plan: Seq<MoveView>, disabled: Set<usize>)
    ensures
        ({
            let marked = plan::conflicts_marked(plan);
            forall|one: int, other: int|
                0 <= one < other < marked.len() && #[trigger] fate_at(marked, disabled, one)
                    == Fate::Ready && #[trigger] fate_at(marked, disabled, other) == Fate::Ready
                    ==> !plan::same_destination(marked[one], marked[other])
        }),
{
    plan::lemma_unmarked_destinations_differ(plan);
}

/// A move that is switched off is never carried out.
pub proof fn lemma_disabled_is_not_carried_out(
    plan: Seq<MoveView>,
    disabled: Set<usize>,
    at: int,
)
    requires
        0 <= at < plan.len(),
        disabled.contains(at as usize),
    ensures
        fate_at(plan, disabled, at) != Fate::Ready,
{
}

}
