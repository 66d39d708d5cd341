//! What a scan of a folder leads to: planned moves and their summary.

use vstd::prelude::*;
use crate::paths;
use crate::paths::{PathView, RomPath};

verus! {

/// How files reach their destination.
#[derive(Debug, Clone, Copy, PartialEq, Eq, Structural)]
pub enum TransferMode {
    Copy,
    Move,
}

impl TransferMode {
    /// What the user is asked to confirm.
    pub open spec fn label(self) -> Seq<char> {
        match self {
            TransferMode::Copy => "Copy Files"@,
            TransferMode::Move => "Move Files"@,
        }
    }

    /// What the user is asked to confirm.
    pub fn prompt_label(self) -> (result: &'static str)
        ensures
            result@ == self.label(),
    {
        match self {
            TransferMode::Copy => "Copy Files",
            TransferMode::Move => "Move Files",
        }
    }
}

/// How sure a classification is.
#[derive(Debug, Clone, Copy, PartialEq, Eq, Structural)]
pub enum Confidence {
    Exact,
    High,
    Ambiguous,
    Unknown,
}

impl Confidence {
    /// The word for it.
    pub open spec fn word(self) -> Seq<char> {
        match self {
            Confidence::Exact => "exact"@,
            Confidence::High => "high"@,
            Confidence::Ambiguous => "ambiguous"@,
            Confidence::Unknown => "unknown"@,
        }
    }

    /// The word for it.
    pub fn as_str(self) -> (result: &'static str)
        ensures
            result@ == self.word(),
    {
        match self {
            Confidence::Exact => "exact",
            Confidence::High => "high",
            Confidence::Ambiguous => "ambiguous",
            Confidence::Unknown => "unknown",
        }
    }
}

/// A file that was found and where it is to go.
#[derive(Debug)]
pub struct PlannedMove {
    pub source: RomPath,
    pub destination: Option<RomPath>,
    pub platform_slug: Option<String>,
    pub confidence: Confidence,
    pub reason: String,
    pub has_conflict: bool,
}

/// What a [`PlannedMove`] holds.
#[verifier::ext_equal]
pub struct MoveView {
    pub source: PathView,
    pub destination: Option<PathView>,
    pub platform_slug: Option<Seq<char>>,
    pub confidence: Confidence,
    pub reason: Seq<char>,
    pub has_conflict: bool,
}

/// What a path that may be missing holds.
pub open spec fn option_path(path: Option<RomPath>) -> Option<PathView> {
    match path {
        Some(path) => Some(path@),
        None => None,
    }
}

impl View for PlannedMove {
    type V = MoveView;

    open spec fn view(&self) -> MoveView {
        MoveView {
            source: self.source@,
            destination: option_path(self.destination),
            platform_slug: paths::option_text(self.platform_slug),
            confidence: self.confidence,
            reason: self.reason@,
            has_conflict: self.has_conflict,
        }
    }
}

/// What each move of a plan holds.
pub open spec fn plan_views(plan: Seq<PlannedMove>) -> Seq<MoveView> {
    plan.map_values(|item: PlannedMove| item@)
}

impl Clone for PlannedMove {
    fn clone(&self) -> (result: Self)
        ensures
            result@ == self@,
    {
        PlannedMove {
            source: self.source.clone(),
            destination: match &self.destination {
                Some(path) => Some(path.clone()),
                None => None,
            },
            platform_slug: paths::copy_option(&self.platform_slug),
            confidence: self.confidence,
            reason: self.reason.clone(),
            has_conflict: self.has_conflict,
        }
    }
}

/// The counts of a plan.
#[derive(Debug, Clone, Copy, PartialEq, Eq, Structural)]
pub struct Summary {
    pub scanned_files: usize,
    pub planned_moves: usize,
    pub unclassified: usize,
    pub conflicts: usize,
    pub skipped: usize,
}

impl Default for Summary {
    fn default() -> (result: Self)
        ensures
            result == (Summary {
                scanned_files: 0,
                planned_moves: 0,
                unclassified: 0,
                conflicts: 0,
                skipped: 0,
            }),
    {
        Summary { scanned_files: 0, planned_moves: 0, unclassified: 0, conflicts: 0, skipped: 0 }
    }
}

}
