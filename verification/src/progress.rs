//! What the user is told while work goes on.

use vstd::prelude::*;
use crate::paths;
use crate::paths::{PathView, RomPath};
use crate::scanner::{ProgressView, ScanProgress};
use crate::text;

verus! {

/// How many phases a scan has: finding files and classifying them.
pub const PHASE_TOTAL: usize = 2;

/// How far a scan or a classification has got.
#[derive(Debug)]
pub struct LoadingUpdate {
    pub phase: String,
    pub phase_index: usize,
    pub phase_total: usize,
    pub current: String,
    pub processed: usize,
    pub total: usize,
}

/// How far a transfer has got.
#[derive(Debug)]
pub struct TransferUpdate {
    pub phase: String,
    pub source: String,
    pub destination: String,
    pub processed: usize,
    pub total: usize,
    pub transferred: usize,
    pub skipped: usize,
}

/// What a [`LoadingUpdate`] holds.
#[verifier::ext_equal]
pub struct LoadingView {
    pub phase: Seq<char>,
    pub phase_index: nat,
    pub phase_total: nat,
    pub current: Seq<char>,
    pub processed: nat,
    pub total: nat,
}

/// What a [`TransferUpdate`] holds.
#[verifier::ext_equal]
pub struct TransferView {
    pub phase: Seq<char>,
    pub source: Seq<char>,
    pub destination: Seq<char>,
    pub processed: nat,
    pub total: nat,
    pub transferred: nat,
    pub skipped: nat,
}

impl View for LoadingUpdate {
    type V = LoadingView;

    open spec fn view(&self) -> LoadingView {
        LoadingView {
            phase: self.phase@,
            phase_index: self.phase_index as nat,
            phase_total: self.phase_total as nat,
            current: self.current@,
            processed: self.processed as nat,
            total: self.total as nat,
        }
    }
}

impl View for TransferUpdate {
    type V = TransferView;

    open spec fn view(&self) -> TransferView {
        TransferView {
            phase: self.phase@,
            source: self.source@,
            destination: self.destination@,
            processed: self.processed as nat,
            total: self.total as nat,
            transferred: self.transferred as nat,
            skipped: self.skipped as nat,
        }
    }
}

impl Clone for LoadingUpdate {
    fn clone(&self) -> (result: Self)
        ensures
            result@ == self@,
    {
        LoadingUpdate {
            phase: self.phase.clone(),
            phase_index: self.phase_index,
            phase_total: self.phase_total,
            current: self.current.clone(),
            processed: self.processed,
            total: self.total,
        }
    }
}

/// What is told before a scan has begun.
pub open spec fn before_scan() -> LoadingView {
    LoadingView {
        phase: "Starting"@,
        phase_index: 0,
        phase_total: 0,
        current: "Preparing scan..."@,
        processed: 0,
        total: 0,
    }
}

/// What is told before a transfer has begun.
pub open spec fn before_transfer() -> TransferView {
    TransferView {
        phase: "Starting"@,
        source: "Preparing transfer..."@,
        destination: Seq::empty(),
        processed: 0,
        total: 0,
        transferred: 0,
        skipped: 0,
    }
}

/// What is told while files are found.
pub open spec fn while_scanning(progress: ProgressView) -> LoadingView {
    LoadingView {
        phase: "Scanning folders"@,
        phase_index: 1,
        phase_total: PHASE_TOTAL as nat,
        current: paths::shown(progress.current_path),
        processed: progress.processed,
        total: progress.total,
    }
}

/// What is told when the turn of the file with this number comes. Of archives only zip files are
/// told apart.
pub open spec fn while_classifying(source: PathView, at: nat, total: nat) -> LoadingView {
    LoadingView {
        phase: if paths::lower_extension(source.parts) == "zip"@ {
            "Inspecting zip/classifying"@
        } else {
            "Classifying files"@
        },
        phase_index: 2,
        phase_total: PHASE_TOTAL as nat,
        current: paths::shown(source),
        processed: at + 1,
        total,
    }
}

impl LoadingUpdate {
    /// What is told before a scan has begun.
    pub fn starting() -> (result: LoadingUpdate)
        ensures
            result@ == before_scan(),
    {
        LoadingUpdate {
            phase: "Starting".to_owned(),
            phase_index: 0,
            phase_total: 0,
            current: "Preparing scan...".to_owned(),
            processed: 0,
            total: 0,
        }
    }

    /// What is told while files are found.
    pub fn scanning(progress: &ScanProgress) -> (result: LoadingUpdate)
        ensures
            result@ == while_scanning(progress@),
    {
        LoadingUpdate {
            phase: "Scanning folders".to_owned(),
            phase_index: 1,
            phase_total: PHASE_TOTAL,
            current: progress.current_path.display(),
            processed: progress.processed,
            total: progress.total,
        }
    }

    /// What is told when the turn of the file with this number comes.
    pub fn classifying(source: &RomPath, at: usize, total: usize) -> (result: LoadingUpdate)
        requires
            at < total,
        ensures
            result@ == while_classifying(source@, at as nat, total as nat),
    {
        let extension: String = source.lower_extension();
        let phase: &str = if text::same(extension.as_str(), "zip") {
            "Inspecting zip/classifying"
        } else {
            "Classifying files"
        };
        LoadingUpdate {
            phase: phase.to_owned(),
            phase_index: 2,
            phase_total: PHASE_TOTAL,
            current: source.display(),
            processed: at + 1,
            total,
        }
    }
}

impl TransferUpdate {
    /// What is told before a transfer has begun.
    pub fn starting() -> (result: TransferUpdate)
        ensures
            result@ == before_transfer(),
    {
        TransferUpdate {
            phase: "Starting".to_owned(),
            source: "Preparing transfer...".to_owned(),
            destination: String::new(),
            processed: 0,
            total: 0,
            transferred: 0,
            skipped: 0,
        }
    }
}

}
