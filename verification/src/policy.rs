//! The mutation policy: decide per file whether the rewriter runs at all, and
//! what the file's bytes become; the laws that make repeated runs converge.

use vstd::prelude::*;
use crate::compare::{advisory, prefix_of, check_header};
use crate::rewrite::{has_header, spliced, stripped, splice_header, strip_header};

verus! {

/// The operation requested for the whole run.
#[derive(Clone, Copy, Debug, PartialEq, Eq, Structural)]
pub enum Mode {
    Add,
    Remove,
}

/// What the policy did with one file.
#[derive(Clone, Copy, Debug, PartialEq, Eq, Structural)]
pub enum Outcome {
    Mutated,
    SkippedAlreadyCorrect,
    SkippedAlreadyAbsent,
}

/// The bytes a file holds after the policy ran on it: add splices the header
/// in unless it is already there; remove strips it off only when it is there.
pub open spec fn applied(header: Seq<u8>, mode: Mode, content: Seq<u8>) -> Seq<u8> {
    match mode {
        Mode::Add => if has_header(header, content) {
            content
        } else {
            spliced(header, content)
        },
        Mode::Remove => if has_header(header, content) {
            stripped(header, content)
        } else {
            content
        },
    }
}

/// What the policy does given the comparator's exact answer: an exact match
/// makes add a no-op, and its absence makes remove a no-op.
pub open spec fn decision(mode: Mode, present: bool) -> Outcome {
    match mode {
        Mode::Add => if present {
            Outcome::SkippedAlreadyCorrect
        } else {
            Outcome::Mutated
        },
        Mode::Remove => if present {
            Outcome::Mutated
        } else {
            Outcome::SkippedAlreadyAbsent
        },
    }
}

/// The outcome the policy reports for one file's bytes.
pub open spec fn outcome_of(header: Seq<u8>, mode: Mode, content: Seq<u8>) -> Outcome {
    decision(mode, has_header(header, content))
}

/// The policy decision alone, from the requested mode and the comparator's
/// authoritative exact-match answer.
pub fn decide(mode: Mode, present: bool) -> (r: Outcome)
    ensures
        r == decision(mode, present),
{
    match mode {
        Mode::Add => {
            if present {
                Outcome::SkippedAlreadyCorrect
            } else {
                Outcome::Mutated
            }
        },
        Mode::Remove => {
            if present {
                Outcome::Mutated
            } else {
                Outcome::SkippedAlreadyAbsent
            }
        },
    }
}

/// Everything one file's processing unit reports: what was done, the bytes
/// the file must hold afterwards, and the advisory near-match signal.
pub struct FileReport {
    pub outcome: Outcome,
    pub content: Vec<u8>,
    pub advisory: Option<u32>,
}

/// The whole per-file unit: query the comparator, decide, rewrite; the
/// advisory is passed along for diagnostics and never changes the result.
pub fn process_file(header: &Vec<u8>, mode: Mode, content: &Vec<u8>) -> (r: FileReport)
    ensures
        r.outcome == outcome_of(header@, mode, content@),
        r.content@ == applied(header@, mode, content@),
        match r.advisory {
            Some(bp) => advisory(header@, prefix_of(header@, content@)) == Some(bp as int),
            None => advisory(header@, prefix_of(header@, content@)) is None,
        },
{
    let check = check_header(header, content);
    let outcome = decide(mode, check.present);
    let out = match mode {
        Mode::Add => {
            if check.present {
                copy_bytes(content)
            } else {
                splice_header(header, content)
            }
        },
        Mode::Remove => {
            if check.present {
                strip_header(header, content)
            } else {
                copy_bytes(content)
            }
        },
    };
    FileReport { outcome, content: out, advisory: check.advisory }
}

/// A fresh buffer holding the same bytes.
fn copy_bytes(content: &Vec<u8>) -> (r: Vec<u8>)
    ensures
        r@ == content@,
{
    let mut out: Vec<u8> = Vec::new();
    let mut i: usize = 0;
    while i < content.len()
        invariant
            0 <= i <= content@.len(),
            out@ =~= content@.take(i as int),
        decreases content@.len() - i,
    {
        let b = content[i];
        out.push(b);
        i += 1;
    }
    assert(out@ =~= content@);
    out
}

/// How often an outcome occurs in a run's reports.
pub open spec fn count_of(outcomes: Seq<Outcome>, o: Outcome) -> nat
    decreases outcomes.len(),
{
    if outcomes.len() == 0 {
        0
    } else {
        count_of(outcomes.drop_last(), o) + (if outcomes.last() == o { 1nat } else { 0nat })
    }
}

/// The aggregate a whole run reports: how many files were mutated and how
/// many were already in the requested state.
#[derive(Clone, Copy, Debug, PartialEq, Eq, Structural)]
pub struct RunSummary {
    pub mutated: usize,
    pub skipped_correct: usize,
    pub skipped_absent: usize,
}

/// Aggregate the per-file outcomes of a run into a summary; every file is
/// counted exactly once.
pub fn tally(outcomes: &Vec<Outcome>) -> (r: RunSummary)
    ensures
        r.mutated == count_of(outcomes@, Outcome::Mutated),
        r.skipped_correct == count_of(outcomes@, Outcome::SkippedAlreadyCorrect),
        r.skipped_absent == count_of(outcomes@, Outcome::SkippedAlreadyAbsent),
        r.mutated + r.skipped_correct + r.skipped_absent == outcomes@.len(),
{
    let mut mutated: usize = 0;
    let mut skipped_correct: usize = 0;
    let mut skipped_absent: usize = 0;
    let mut i: usize = 0;
    while i < outcomes.len()
        invariant
            0 <= i <= outcomes@.len(),
            mutated == count_of(outcomes@.take(i as int), Outcome::Mutated),
            skipped_correct == count_of(outcomes@.take(i as int), Outcome::SkippedAlreadyCorrect),
            skipped_absent == count_of(outcomes@.take(i as int), Outcome::SkippedAlreadyAbsent),
            mutated + skipped_correct + skipped_absent == i,
        decreases outcomes@.len() - i,
    {
        proof {
            assert(outcomes@.take(i as int + 1).drop_last() =~= outcomes@.take(i as int));
            assert(outcomes@.take(i as int + 1).last() == outcomes@[i as int]);
        }
        match outcomes[i] {
            Outcome::Mutated => { mutated += 1; },
            Outcome::SkippedAlreadyCorrect => { skipped_correct += 1; },
            Outcome::SkippedAlreadyAbsent => { skipped_absent += 1; },
        }
        i += 1;
    }
    assert(outcomes@.take(outcomes@.len() as int) =~= outcomes@);
    RunSummary { mutated, skipped_correct, skipped_absent }
}

/// Splicing the header in leaves bytes that carry the header.
pub proof fn lemma_spliced_has_header(header: Seq<u8>, content: Seq<u8>)
    ensures
        has_header(header, spliced(header, content)),
{
    assert((header + content).take(header.len() as int) =~= header);
}

/// Applying add twice yields the same bytes as applying it once: the second
/// run finds the header already in place and changes nothing.
pub proof fn lemma_add_idempotent(header: Seq<u8>, content: Seq<u8>)
    ensures
        applied(header, Mode::Add, applied(header, Mode::Add, content))
            == applied(header, Mode::Add, content),
{
    if !has_header(header, content) {
        lemma_spliced_has_header(header, content);
    }
}

/// Add followed by remove restores the original bytes, provided the header
/// was not already present before the add.
pub proof fn lemma_round_trip(header: Seq<u8>, content: Seq<u8>)
    requires
        !has_header(header, content),
    ensures
        applied(header, Mode::Remove, applied(header, Mode::Add, content)) == content,
{
    lemma_spliced_has_header(header, content);
    assert((header + content).skip(header.len() as int) =~= content);
}

/// Removing from bytes that do not start with the header changes nothing.
pub proof fn lemma_remove_absent(header: Seq<u8>, content: Seq<u8>)
    requires
        !has_header(header, content),
    ensures
        applied(header, Mode::Remove, content) == content,
{
}

} // verus!
