//! File judgments, contract conclusions and the counts and exit codes that
//! summarize them.
use vstd::prelude::*;
use crate::change::{ChangeKind, Mode};
use crate::contract::Verdict;

verus! {

/// A model decision pass.
#[derive(Clone, Copy, Debug, PartialEq, Eq, Structural)]
pub enum Stage {
    Applicability,
    Verification,
    Completeness,
}

/// The judgment of one file (or example) against one contract.
#[derive(Clone, Copy, Debug, PartialEq, Eq, Structural)]
pub enum Status {
    Pass,
    Fail,
    NotApplicable,
    Uncertain,
    Error,
    Incomplete,
}

/// The conclusion of one contract.
#[derive(Clone, Copy, Debug, PartialEq, Eq, Structural)]
pub enum ContractStatus {
    Verified,
    Preserved,
    Unaffected,
    Failed,
    Unresolved,
}

/// What a model answered: the question matches, does not match, or cannot
/// be decided.
#[derive(Clone, Copy, Debug, PartialEq, Eq, Structural)]
pub enum Outcome {
    Match,
    NoMatch,
    Uncertain,
}

/// Why a model answer is uncertain.
#[derive(Clone, Copy, Debug, PartialEq, Eq, Structural)]
pub enum Uncertainty {
    InsufficientContext,
    LowConfidence,
}

/// The file judgment that an expected verdict names.
pub open spec fn status_of(v: Verdict) -> Status {
    match v {
        Verdict::Pass => Status::Pass,
        Verdict::Fail => Status::Fail,
        Verdict::NotApplicable => Status::NotApplicable,
        Verdict::Uncertain => Status::Uncertain,
    }
}

impl Status {
    pub fn from_verdict(v: Verdict) -> (r: Status)
        ensures
            r == status_of(v),
    {
        match v {
            Verdict::Pass => Status::Pass,
            Verdict::Fail => Status::Fail,
            Verdict::NotApplicable => Status::NotApplicable,
            Verdict::Uncertain => Status::Uncertain,
        }
    }
}

/// Distinct verdicts name distinct judgments.
pub proof fn verdicts_are_distinct(a: Verdict, b: Verdict)
    ensures
        status_of(a) == status_of(b) <==> a == b,
{
}

/// The evidence for one file (or example) against one contract.
#[derive(Clone, Debug)]
pub struct CheckResult {
    pub mode: Mode,
    pub change_kind: Option<ChangeKind>,
    pub previous_path: Option<String>,
    pub before_hash: Option<String>,
    pub after_hash: Option<String>,
    pub contract: String,
    pub contract_path: String,
    pub contract_hash: String,
    pub path: String,
    pub source_hash: Option<String>,
    pub example: Option<String>,
    pub expected: Option<Verdict>,
    pub status: Status,
    pub message: String,
    pub reason: Option<String>,
    pub elapsed_ms: u128,
}

/// Counts of file judgments and contract conclusions.
#[derive(Clone, Debug)]
pub struct Summary {
    pub passed: usize,
    pub failed: usize,
    pub uncertain: usize,
    pub not_applicable: usize,
    pub errors: usize,
    pub incomplete: usize,
    pub examples_passed: usize,
    pub examples_failed: usize,
    pub requests: usize,
    pub elapsed_ms: u128,
    pub cancelled: bool,
    pub contracts_verified: usize,
    pub contracts_preserved: usize,
    pub contracts_unaffected: usize,
    pub contracts_failed: usize,
    pub contracts_unresolved: usize,
}

/// All counts zero, not cancelled.
pub open spec fn empty_summary(s: Summary) -> bool {
    &&& s.passed == 0 && s.failed == 0 && s.uncertain == 0 && s.not_applicable == 0
    &&& s.errors == 0 && s.incomplete == 0 && s.examples_passed == 0 && s.examples_failed == 0
    &&& s.requests == 0 && s.elapsed_ms == 0 && !s.cancelled
    &&& s.contracts_verified == 0 && s.contracts_preserved == 0 && s.contracts_unaffected == 0
    &&& s.contracts_failed == 0 && s.contracts_unresolved == 0
}

impl Default for Summary {
    fn default() -> (s: Summary)
        ensures
            empty_summary(s),
    {
        Summary {
            passed: 0,
            failed: 0,
            uncertain: 0,
            not_applicable: 0,
            errors: 0,
            incomplete: 0,
            examples_passed: 0,
            examples_failed: 0,
            requests: 0,
            elapsed_ms: 0,
            cancelled: false,
            contracts_verified: 0,
            contracts_preserved: 0,
            contracts_unaffected: 0,
            contracts_failed: 0,
            contracts_unresolved: 0,
        }
    }
}

/// Every count can take one more.
pub open spec fn has_room(s: Summary) -> bool {
    &&& s.passed < usize::MAX && s.failed < usize::MAX && s.uncertain < usize::MAX
    &&& s.not_applicable < usize::MAX && s.errors < usize::MAX && s.incomplete < usize::MAX
    &&& s.examples_passed < usize::MAX && s.examples_failed < usize::MAX
    &&& s.contracts_verified < usize::MAX && s.contracts_preserved < usize::MAX
    &&& s.contracts_unaffected < usize::MAX && s.contracts_failed < usize::MAX
    &&& s.contracts_unresolved < usize::MAX
}

/// The counts after one more file judgment `status`, expected to be
/// `expected` when the subject is an example.
pub open spec fn counted(s: Summary, status: Status, expected: Option<Verdict>) -> Summary {
    let t = match status {
        Status::Pass => Summary { passed: (s.passed + 1) as usize, ..s },
        Status::Fail => Summary { failed: (s.failed + 1) as usize, ..s },
        Status::Uncertain => Summary { uncertain: (s.uncertain + 1) as usize, ..s },
        Status::NotApplicable => Summary { not_applicable: (s.not_applicable + 1) as usize, ..s },
        Status::Error => Summary { errors: (s.errors + 1) as usize, ..s },
        Status::Incomplete => Summary { incomplete: (s.incomplete + 1) as usize, ..s },
    };
    match expected {
        Some(v) => if status == status_of(v) {
            Summary { examples_passed: (t.examples_passed + 1) as usize, ..t }
        } else {
            Summary { examples_failed: (t.examples_failed + 1) as usize, ..t }
        },
        None => t,
    }
}

/// What a live report counts of one event: the start of a model request,
/// a file judgment with its status, or an event that it does not count.
#[derive(Clone, Copy, Debug, PartialEq, Eq, Structural)]
pub enum Tally {
    Request,
    Judgment(Status),
    Uncounted,
}

/// The counts after one more event.
pub open spec fn tallied(s: Summary, t: Tally) -> Summary {
    match t {
        Tally::Request => Summary { requests: (s.requests + 1) as usize, ..s },
        Tally::Judgment(status) => counted(s, status, None),
        Tally::Uncounted => s,
    }
}

/// The counts after a run of events, in order.
pub open spec fn tallied_all(s: Summary, ts: Seq<Tally>) -> Summary
    decreases ts.len(),
{
    if ts.len() == 0 {
        s
    } else {
        tallied(tallied_all(s, ts.drop_last()), ts.last())
    }
}

/// How many events of a run are `t`.
pub open spec fn occurrences(ts: Seq<Tally>, t: Tally) -> nat
    decreases ts.len(),
{
    if ts.len() == 0 {
        0
    } else {
        occurrences(ts.drop_last(), t) + if ts.last() == t {
            1nat
        } else {
            0nat
        }
    }
}

/// Whether the count that event `t` raises can still grow.
pub open spec fn tally_fits(s: Summary, t: Tally) -> bool {
    match t {
        Tally::Request => s.requests < usize::MAX,
        Tally::Judgment(_) => has_room(s),
        Tally::Uncounted => true,
    }
}

/// The counts after one more contract conclusion `status`, which recorded
/// an operational error when `error` holds.
pub open spec fn concluded(s: Summary, status: ContractStatus, error: bool) -> Summary {
    let t = match status {
        ContractStatus::Verified => Summary {
            contracts_verified: (s.contracts_verified + 1) as usize,
            ..s
        },
        ContractStatus::Preserved => Summary {
            contracts_preserved: (s.contracts_preserved + 1) as usize,
            ..s
        },
        ContractStatus::Unaffected => Summary {
            contracts_unaffected: (s.contracts_unaffected + 1) as usize,
            ..s
        },
        ContractStatus::Failed => Summary { contracts_failed: (s.contracts_failed + 1) as usize, ..s },
        ContractStatus::Unresolved => Summary {
            contracts_unresolved: (s.contracts_unresolved + 1) as usize,
            ..s
        },
    };
    if error {
        Summary { errors: (t.errors + 1) as usize, ..t }
    } else {
        t
    }
}

/// The exit code of a run: 130 when cancelled, else 2 after execution
/// errors, else 3 after incomplete checks, else 1 after a failed contract
/// (a mismatched example when evaluating examples), else 0. A file
/// judgment of fail alone does not fail a check: the contract's conclusion
/// decides.
pub open spec fn exit_code_of(s: Summary, evaluation: bool) -> u8 {
    if s.cancelled {
        130
    } else if s.errors > 0 {
        2
    } else if s.incomplete > 0 {
        3
    } else if evaluation {
        if s.examples_failed > 0 {
            1
        } else {
            0
        }
    } else if s.contracts_failed > 0 {
        1
    } else {
        0
    }
}

/// The conclusion of one contract.
#[derive(Clone, Debug)]
pub struct ContractResult {
    pub status: ContractStatus,
    pub reason: String,
    pub evidence_hash: Option<String>,
    pub error: Option<String>,
}

impl Summary {
    /// Whether every count can take one more.
    pub fn has_room(&self) -> (r: bool)
        ensures
            r == has_room(*self),
    {
        self.passed < usize::MAX && self.failed < usize::MAX && self.uncertain < usize::MAX
            && self.not_applicable < usize::MAX && self.errors < usize::MAX && self.incomplete < usize::MAX
            && self.examples_passed < usize::MAX && self.examples_failed < usize::MAX
            && self.contracts_verified < usize::MAX && self.contracts_preserved < usize::MAX
            && self.contracts_unaffected < usize::MAX && self.contracts_failed < usize::MAX
            && self.contracts_unresolved < usize::MAX
    }

    pub fn add(&mut self, result: &CheckResult)
        requires
            has_room(*old(self)),
        ensures
            *final(self) == counted(*old(self), result.status, result.expected),
            result.expected matches Some(v) ==> (final(self).examples_passed == old(self).examples_passed + 1) == (
            (v == Verdict::Pass && result.status == Status::Pass) || (v == Verdict::Fail && result.status == Status::Fail)
                || (v == Verdict::NotApplicable && result.status == Status::NotApplicable) || (v == Verdict::Uncertain
                && result.status == Status::Uncertain)),
    {
        match result.status {
            Status::Pass => self.passed += 1,
            Status::Fail => self.failed += 1,
            Status::Uncertain => self.uncertain += 1,
            Status::NotApplicable => self.not_applicable += 1,
            Status::Error => self.errors += 1,
            Status::Incomplete => self.incomplete += 1,
        }
        if let Some(expected) = result.expected {
            if result.status == Status::from_verdict(expected) {
                self.examples_passed += 1;
            } else {
                self.examples_failed += 1;
            }
        }
    }

    /// Counts a file judgment as a live report tallies it: by its status
    /// alone.
    pub fn track(&mut self, status: Status)
        requires
            has_room(*old(self)),
        ensures
            *final(self) == counted(*old(self), status, None),
    {
        match status {
            Status::Pass => self.passed += 1,
            Status::Fail => self.failed += 1,
            Status::Uncertain => self.uncertain += 1,
            Status::NotApplicable => self.not_applicable += 1,
            Status::Error => self.errors += 1,
            Status::Incomplete => self.incomplete += 1,
        }
    }

    /// Counts one model request.
    pub fn track_request(&mut self)
        requires
            old(self).requests < usize::MAX,
        ensures
            *final(self) == (Summary { requests: (old(self).requests + 1) as usize, ..*old(self) }),
    {
        self.requests += 1;
    }

    /// Whether the count that event `t` raises can still grow.
    pub fn can_tally(&self, t: Tally) -> (r: bool)
        ensures
            r == tally_fits(*self, t),
    {
        match t {
            Tally::Request => self.requests < usize::MAX,
            Tally::Judgment(_) => self.has_room(),
            Tally::Uncounted => true,
        }
    }

    /// Counts one event of a run as a live report does.
    pub fn tally(&mut self, t: Tally)
        requires
            tally_fits(*old(self), t),
        ensures
            *final(self) == tallied(*old(self), t),
    {
        match t {
            Tally::Request => self.track_request(),
            Tally::Judgment(status) => self.track(status),
            Tally::Uncounted => {},
        }
    }

    pub fn exit_code(&self, evaluation: bool) -> (r: u8)
        ensures
            r == exit_code_of(*self, evaluation),
    {
        if self.cancelled {
            130
        } else if self.errors > 0 {
            2
        } else if self.incomplete > 0 {
            3
        } else if evaluation {
            if self.examples_failed > 0 {
                1
            } else {
                0
            }
        } else if self.contracts_failed > 0 {
            1
        } else {
            0
        }
    }

    pub fn conclude(&mut self, conclusion: &ContractResult)
        requires
            has_room(*old(self)),
        ensures
            *final(self) == concluded(*old(self), conclusion.status, conclusion.error is Some),
    {
        match conclusion.status {
            ContractStatus::Verified => self.contracts_verified += 1,
            ContractStatus::Preserved => self.contracts_preserved += 1,
            ContractStatus::Unaffected => self.contracts_unaffected += 1,
            ContractStatus::Failed => self.contracts_failed += 1,
            ContractStatus::Unresolved => self.contracts_unresolved += 1,
        }
        if conclusion.error.is_some() {
            self.errors += 1;
        }
    }
}

/// The total number of file judgments counted.
pub open spec fn judged(s: Summary) -> int {
    s.passed + s.failed + s.uncertain + s.not_applicable + s.errors + s.incomplete
}

/// Each file judgment adds exactly one to the judgment counts; a judgment
/// of an example also counts once as passed or failed.
pub proof fn each_judgment_counts_once(s: Summary, status: Status, expected: Option<Verdict>)
    requires
        has_room(s),
    ensures
        judged(counted(s, status, expected)) == judged(s) + 1,
        counted(s, status, expected).examples_passed + counted(s, status, expected).examples_failed
            == s.examples_passed + s.examples_failed + if expected is Some { 1int } else { 0int },
{
}

/// An unresolved conclusion without an operational error never changes a
/// check's exit code: unresolved contracts do not fail a check.
pub proof fn unresolved_does_not_fail(s: Summary)
    requires
        has_room(s),
    ensures
        exit_code_of(concluded(s, ContractStatus::Unresolved, false), false) == exit_code_of(s, false),
{
}

/// Cancellation takes precedence over everything, then execution errors,
/// then incomplete checks, then failed contracts (mismatched examples when
/// evaluating); a run with none of these exits 0.
pub proof fn exit_code_precedence(s: Summary, evaluation: bool)
    ensures
        s.cancelled ==> exit_code_of(s, evaluation) == 130,
        !s.cancelled && s.errors > 0 ==> exit_code_of(s, evaluation) == 2,
        !s.cancelled && s.errors == 0 && s.incomplete > 0 ==> exit_code_of(s, evaluation) == 3,
        exit_code_of(s, evaluation) == 0 <==> !s.cancelled && s.errors == 0 && s.incomplete == 0
            && (if evaluation { s.examples_failed == 0 } else { s.contracts_failed == 0 }),
{
}

/// File judgments of fail do not fail a check by themselves: when no
/// contract failed, nothing else went wrong and the run was not cancelled,
/// a check exits 0 (a repository assessment may have cleared the finding).
pub proof fn only_failed_contracts_fail_a_check(s: Summary)
    requires
        !s.cancelled,
        s.errors == 0,
        s.incomplete == 0,
    ensures
        exit_code_of(s, false) == if s.contracts_failed > 0 { 1u8 } else { 0u8 },
        exit_code_of(s, true) == if s.examples_failed > 0 { 1u8 } else { 0u8 },
{
}

/// A contract conclusion with an operational error makes the run exit 2
/// unless it was cancelled.
pub proof fn operational_errors_exit_two(s: Summary, status: ContractStatus, evaluation: bool)
    requires
        has_room(s),
        !s.cancelled,
    ensures
        exit_code_of(concluded(s, status, true), evaluation) == 2,
{
}

/// What `eval` exits with: mismatched examples exit 0 unless `strict`.
pub open spec fn eval_exit_of(code: u8, strict: bool) -> u8 {
    if code == 1 && !strict {
        0
    } else {
        code
    }
}

/// The exit code of a run: for example evaluation, mismatches exit 0
/// unless `strict` is set.
pub fn final_code(summary: &Summary, evaluation: bool, strict: bool) -> (r: u8)
    ensures
        r == if evaluation { eval_exit_of(exit_code_of(*summary, true), strict) } else { exit_code_of(*summary, false) },
{
    let code = summary.exit_code(evaluation);
    if evaluation && code == 1 && !strict {
        0
    } else {
        code
    }
}

/// Without `--strict`, example mismatches alone never fail an evaluation;
/// with it they do.
pub proof fn mismatches_fail_only_when_strict(s: Summary)
    requires
        !s.cancelled,
        s.errors == 0,
        s.incomplete == 0,
        s.examples_failed > 0,
    ensures
        eval_exit_of(exit_code_of(s, true), false) == 0,
        eval_exit_of(exit_code_of(s, true), true) == 1,
{
}

/// The details of a run, reported when it begins.
pub struct RunInfo {
    pub version: String,
    pub root: String,
    pub provider: String,
    pub model: String,
    pub mode: String,
    pub base: Option<String>,
    pub head: Option<String>,
    pub assumption: Option<String>,
    pub partial: bool,
    pub snapshot: Option<String>,
    pub patch_hash: Option<String>,
    pub jobs: usize,
    pub max_requests: usize,
}

/// The mode a run reports: `eval`, `diff` or `full`.
pub fn run_mode(evaluation: bool, mode: Mode) -> (r: String)
    ensures
        r@ == if evaluation { "eval"@ } else if mode == Mode::Diff { "diff"@ } else { "full"@ },
{
    if evaluation {
        crate::text::text("eval")
    } else if mode == Mode::Diff {
        crate::text::text("diff")
    } else {
        crate::text::text("full")
    }
}

/// The assumption a run reports: a diff check assumes that the base
/// satisfies the selected contracts.
pub fn run_assumption(evaluation: bool, mode: Mode) -> (r: Option<String>)
    ensures
        r is Some <==> mode == Mode::Diff && !evaluation,
        r matches Some(t) ==> t@ == "The base satisfies the selected contracts."@,
{
    if mode == Mode::Diff && !evaluation {
        Some(crate::text::text("The base satisfies the selected contracts."))
    } else {
        None
    }
}


proof fn lemma_occurrences_bound(ts: Seq<Tally>, t: Tally)
    ensures
        occurrences(ts, t) <= ts.len(),
    decreases ts.len(),
{
    if ts.len() > 0 {
        lemma_occurrences_bound(ts.drop_last(), t);
    }
}

/// Over a run of events that starts from empty counts, a live report's
/// counts are the numbers of events of each kind: the model requests
/// started, and the file judgments of each status; every other count stays
/// as it was.
pub proof fn tallies_count_events(s: Summary, ts: Seq<Tally>)
    requires
        empty_summary(s),
        ts.len() < usize::MAX,
    ensures
        tallied_all(s, ts).requests == occurrences(ts, Tally::Request),
        tallied_all(s, ts).passed == occurrences(ts, Tally::Judgment(Status::Pass)),
        tallied_all(s, ts).failed == occurrences(ts, Tally::Judgment(Status::Fail)),
        tallied_all(s, ts).uncertain == occurrences(ts, Tally::Judgment(Status::Uncertain)),
        tallied_all(s, ts).not_applicable == occurrences(ts, Tally::Judgment(Status::NotApplicable)),
        tallied_all(s, ts).errors == occurrences(ts, Tally::Judgment(Status::Error)),
        tallied_all(s, ts).incomplete == occurrences(ts, Tally::Judgment(Status::Incomplete)),
        empty_summary(
            Summary {
                requests: 0,
                passed: 0,
                failed: 0,
                uncertain: 0,
                not_applicable: 0,
                errors: 0,
                incomplete: 0,
                ..tallied_all(s, ts)
            },
        ),
    decreases ts.len(),
{
    if ts.len() > 0 {
        let p = ts.drop_last();
        tallies_count_events(s, p);
        lemma_occurrences_bound(p, Tally::Request);
        lemma_occurrences_bound(p, Tally::Judgment(Status::Pass));
        lemma_occurrences_bound(p, Tally::Judgment(Status::Fail));
        lemma_occurrences_bound(p, Tally::Judgment(Status::Uncertain));
        lemma_occurrences_bound(p, Tally::Judgment(Status::NotApplicable));
        lemma_occurrences_bound(p, Tally::Judgment(Status::Error));
        lemma_occurrences_bound(p, Tally::Judgment(Status::Incomplete));
    }
}

/// A run asks the model only while `budget_left` allows it: when each
/// request of a run starts with fewer than `max_requests` requests made
/// before it, the run counts at most `max_requests` requests.
pub proof fn requests_stay_within_budget(s: Summary, ts: Seq<Tally>, max_requests: usize)
    requires
        empty_summary(s),
        ts.len() < usize::MAX,
        forall|i: int|
            0 <= i < ts.len() && ts[i] == Tally::Request ==> occurrences(#[trigger] ts.take(i), Tally::Request)
                < max_requests,
    ensures
        tallied_all(s, ts).requests <= max_requests,
    decreases ts.len(),
{
    tallies_count_events(s, ts);
    if ts.len() > 0 {
        let p = ts.drop_last();
        assert forall|i: int| 0 <= i < p.len() && p[i] == Tally::Request implies occurrences(
            #[trigger] p.take(i),
            Tally::Request,
        ) < max_requests by {
            assert(p.take(i) =~= ts.take(i));
            assert(ts[i] == p[i]);
        }
        requests_stay_within_budget(s, p, max_requests);
        tallies_count_events(s, p);
        if ts.last() == Tally::Request {
            assert(ts.take(ts.len() - 1) =~= p);
        }
    }
}


/// An example scores as passed exactly when its judgment is the one its
/// expected verdict names (pass, fail, not applicable or uncertain), and
/// as failed otherwise; its judgment is counted either way.
pub proof fn examples_pass_only_on_their_verdict(s: Summary, status: Status, v: Verdict)
    requires
        has_room(s),
    ensures
        (counted(s, status, Some(v)).examples_passed == s.examples_passed + 1) == ((v == Verdict::Pass && status
            == Status::Pass) || (v == Verdict::Fail && status == Status::Fail) || (v == Verdict::NotApplicable
            && status == Status::NotApplicable) || (v == Verdict::Uncertain && status == Status::Uncertain)),
        (counted(s, status, Some(v)).examples_failed == s.examples_failed + 1) == !((v == Verdict::Pass && status
            == Status::Pass) || (v == Verdict::Fail && status == Status::Fail) || (v == Verdict::NotApplicable
            && status == Status::NotApplicable) || (v == Verdict::Uncertain && status == Status::Uncertain)),
        counted(s, status, Some(v)).examples_passed + counted(s, status, Some(v)).examples_failed
            == s.examples_passed + s.examples_failed + 1,
        (counted(s, status, Some(v)) == (Summary {
            examples_passed: counted(s, status, Some(v)).examples_passed,
            examples_failed: counted(s, status, Some(v)).examples_failed,
            ..counted(s, status, None)
        })),
{
}

} // verus!
