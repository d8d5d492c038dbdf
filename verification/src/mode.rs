//! The modes of a run and the stages that each goes through.

use vstd::prelude::*;
use vstd::string::StringSliceAdditionalSpecFns;

verus! {

/// What a run is asked to do.
#[derive(Debug, Clone, Copy, PartialEq, Eq)]
pub enum Mode {
    /// Verify the store, then delete and rebuild the key range without end.
    Stress,
    /// Verify the store and probe for the tail key; change nothing.
    Check,
    /// Print what the store holds; check nothing and change nothing.
    Dump,
}

/// One step of a run.
#[derive(Debug, Clone, Copy, PartialEq, Eq)]
pub enum Stage {
    /// Walk the store and print every record.
    Dump,
    /// Report the store's own counters.
    ReportStats,
    /// Walk the store and check every record.
    Verify,
    /// Find the largest key in the store.
    LocateTail,
    /// Read the record of the tail key.
    Probe,
    /// Delete the keys from the tail key down to 1.
    Delete,
    /// Put keys from 1 up, until stopped.
    Insert,
}

/// The bytes of the token `check`.
pub open spec fn check_token() -> Seq<u8> {
    seq![0x63u8, 0x68u8, 0x65u8, 0x63u8, 0x6bu8]
}

/// The bytes of the token `dump`.
pub open spec fn dump_token() -> Seq<u8> {
    seq![0x64u8, 0x75u8, 0x6du8, 0x70u8]
}

/// The mode that a mode token asks for. No token, or any token but `check`
/// and `dump`, asks for the stress run.
pub open spec fn mode_of(token: Option<Seq<u8>>) -> Mode {
    match token {
        Some(bytes) => if bytes == check_token() {
            Mode::Check
        } else if bytes == dump_token() {
            Mode::Dump
        } else {
            Mode::Stress
        },
        None => Mode::Stress,
    }
}

/// The stages of a run in `mode`, in order.
pub open spec fn stages_of(mode: Mode) -> Seq<Stage> {
    match mode {
        Mode::Dump => seq![Stage::Dump],
        Mode::Check => seq![Stage::ReportStats, Stage::Verify, Stage::LocateTail, Stage::Probe],
        Mode::Stress => seq![
            Stage::ReportStats,
            Stage::Verify,
            Stage::LocateTail,
            Stage::Delete,
            Stage::Insert,
        ],
    }
}

/// Whether `stage` writes to the store.
pub open spec fn mutates(stage: Stage) -> bool {
    stage == Stage::Delete || stage == Stage::Insert
}

/// Reads the mode from the mode token of the command line, if one was
/// given.
pub fn select_mode(token: Option<&str>) -> (mode: Mode)
    ensures
        mode == mode_of(
            match token {
                Some(text) => Some(text.spec_bytes()),
                None => None,
            },
        ),
{
    match token {
        None => Mode::Stress,
        Some(text) => {
            let bytes = text.as_bytes();
            if bytes.len() == 5 && bytes[0] == 0x63 && bytes[1] == 0x68 && bytes[2] == 0x65
                && bytes[3] == 0x63 && bytes[4] == 0x6b {
                assert(bytes@ =~= check_token());
                Mode::Check
            } else if bytes.len() == 4 && bytes[0] == 0x64 && bytes[1] == 0x75 && bytes[2] == 0x6d
                && bytes[3] == 0x70 {
                assert(bytes@ =~= dump_token());
                Mode::Dump
            } else {
                Mode::Stress
            }
        },
    }
}

/// Lists the stages of a run in `mode`, in order.
pub fn stages(mode: Mode) -> (plan: Vec<Stage>)
    ensures
        plan@ == stages_of(mode),
{
    let mut plan: Vec<Stage> = Vec::new();
    match mode {
        Mode::Dump => {
            plan.push(Stage::Dump);
        },
        Mode::Check => {
            plan.push(Stage::ReportStats);
            plan.push(Stage::Verify);
            plan.push(Stage::LocateTail);
            plan.push(Stage::Probe);
        },
        Mode::Stress => {
            plan.push(Stage::ReportStats);
            plan.push(Stage::Verify);
            plan.push(Stage::LocateTail);
            plan.push(Stage::Delete);
            plan.push(Stage::Insert);
        },
    }
    plan
}

/// Only the stress run writes to the store.
pub proof fn lemma_only_stress_mutates(mode: Mode)
    ensures
        (exists|i: int| 0 <= i < stages_of(mode).len() && mutates(#[trigger] stages_of(mode)[i]))
            <==> mode == Mode::Stress,
{
    if mode == Mode::Stress {
        assert(mutates(stages_of(mode)[3]));
    }
}

} // verus!
