//! How a contract is concluded from its file judgments: the checks that
//! settle it before any repository-wide question, the question itself, the
//! answer's meaning, and which sources the question is given.
use vstd::prelude::*;
use crate::change::{Change, Mode, MAX_FILE_BYTES};
use crate::discovery::{listed, scoped, Plan};
use crate::order::strs;
use crate::parse::{blake3_digest, blake3_hex};
use crate::paths::{starts_with, under};
use crate::report::{CheckResult, ContractResult, ContractStatus, Outcome, Status, Summary, Uncertainty};
use crate::text::{append, chars_of, string_of, text, text_with};

verus! {

broadcast use vstd::seq_lib::group_seq_properties;

fn decision(status: ContractStatus, reason: &str) -> (r: ContractResult)
    ensures
        r.status == status,
        r.reason@ == reason@,
        r.evidence_hash is None,
        r.error is None,
{
    ContractResult { status, reason: text(reason), evidence_hash: None, error: None }
}

/// Whether every file judgment found the contract not applicable (so also
/// when there are none).
pub open spec fn none_applicable(results: Seq<CheckResult>) -> bool {
    forall|i: int| 0 <= i < results.len() ==> #[trigger] results[i].status == Status::NotApplicable
}

/// The conclusion a contract reaches without a repository-wide question:
/// its status, its reason, and whether it counts as an operational error.
pub open spec fn early(
    summary: Summary,
    partial: bool,
    mode: Mode,
    results: Seq<CheckResult>,
    requests: usize,
    max_requests: usize,
) -> Option<(ContractStatus, Seq<char>, bool)> {
    if summary.errors > 0 || summary.incomplete > 0 {
        Some((ContractStatus::Unresolved, "File checks could not complete; see their errors or budget results."@, false))
    } else if partial {
        Some((ContractStatus::Unresolved, "Only selected paths were checked; contract-wide coverage is incomplete."@, false))
    } else if mode == Mode::Diff && none_applicable(results) {
        Some((ContractStatus::Unaffected, "No relevant changes found; base compliance is assumed."@, false))
    } else if requests >= max_requests {
        Some((ContractStatus::Unresolved, "Request budget exhausted before contract assessment."@, true))
    } else {
        None
    }
}

fn all_not_applicable(results: &Vec<CheckResult>) -> (r: bool)
    ensures
        r == none_applicable(results@),
{
    let mut i: usize = 0;
    while i < results.len()
        invariant
            i <= results@.len(),
            forall|k: int| 0 <= k < i ==> #[trigger] results@[k].status == Status::NotApplicable,
        decreases results@.len() - i,
    {
        if results[i].status != Status::NotApplicable {
            return false;
        }
        i += 1;
    }
    true
}

/// Settles a contract before its repository-wide question when that
/// question cannot or need not be asked: file checks that failed to
/// complete, a partial run, a diff that touched nothing relevant, or a
/// spent request budget (the one case that is also an error).
pub fn settle_early(
    summary: &Summary,
    partial: bool,
    mode: Mode,
    results: &Vec<CheckResult>,
    requests: usize,
    max_requests: usize,
) -> (r: Option<ContractResult>)
    ensures
        match early(*summary, partial, mode, results@, requests, max_requests) {
            None => r is None,
            Some((status, reason, error)) => r matches Some(c) && c.status == status && c.reason@ == reason
                && c.evidence_hash is None && (error <==> c.error is Some)
                && (c.error matches Some(e) ==> e@ == reason),
        },
{
    if summary.errors > 0 || summary.incomplete > 0 {
        return Some(decision(ContractStatus::Unresolved, "File checks could not complete; see their errors or budget results."));
    }
    if partial {
        return Some(decision(ContractStatus::Unresolved, "Only selected paths were checked; contract-wide coverage is incomplete."));
    }
    if mode == Mode::Diff && all_not_applicable(results) {
        return Some(decision(ContractStatus::Unaffected, "No relevant changes found; base compliance is assumed."));
    }
    if requests >= max_requests {
        let mut result = decision(ContractStatus::Unresolved, "Request budget exhausted before contract assessment.");
        result.error = Some(text("Request budget exhausted before contract assessment."));
        return Some(result);
    }
    None
}

/// The conclusion when the repository's evidence cannot be gathered.
pub fn context_unavailable(error: &str) -> (r: ContractResult)
    ensures
        r.status == ContractStatus::Unresolved,
        r.reason@ == "Repository context unavailable: "@ + error@,
        r.evidence_hash is None,
        r.error is None,
{
    ContractResult {
        status: ContractStatus::Unresolved,
        reason: text_with("Repository context unavailable: ", &chars_of(error)),
        evidence_hash: None,
        error: None,
    }
}

/// The conclusion when the repository-wide question could not be answered;
/// the failure counts as an operational error.
pub fn assessment_failed(error: String) -> (r: ContractResult)
    ensures
        r.status == ContractStatus::Unresolved,
        r.reason@ == "Repository assessment failed."@,
        r.evidence_hash is None,
        r.error == Some(error),
{
    let mut result = decision(ContractStatus::Unresolved, "Repository assessment failed.");
    result.error = Some(error);
    result
}

/// What an answer to the repository-wide question concludes: a supported
/// violation fails the contract; the absence of one verifies it in a full
/// run and shows it preserved in a diff run; an uncertain answer leaves it
/// unresolved, for the reason given.
pub open spec fn answered(outcome: Outcome, reason: Option<Uncertainty>, diff: bool) -> (ContractStatus, Seq<char>) {
    match outcome {
        Outcome::Match => (ContractStatus::Failed, "Repository evidence supports a violation."@),
        Outcome::NoMatch => if diff {
            (ContractStatus::Preserved, "Evidence supports preservation, assuming base compliance."@)
        } else {
            (ContractStatus::Verified, "The supplied repository evidence supports compliance."@)
        },
        Outcome::Uncertain => (
            ContractStatus::Unresolved,
            match reason {
                Some(Uncertainty::InsufficientContext) => "Repository assessment requires context beyond the supplied scope."@,
                Some(Uncertainty::LowConfidence) => "Repository assessment did not meet the model confidence threshold."@,
                None => "Repository assessment could not determine compliance."@,
            },
        ),
    }
}

/// The conclusion from the answer to the repository-wide question, with
/// the hash of the evidence it was given.
pub fn conclusion_of(outcome: Outcome, reason: Option<Uncertainty>, diff: bool, evidence_hash: String) -> (r: ContractResult)
    ensures
        r.status == answered(outcome, reason, diff).0,
        r.reason@ == answered(outcome, reason, diff).1,
        (r.status == ContractStatus::Failed) == (outcome == Outcome::Match),
        (r.status == ContractStatus::Unresolved) == (outcome == Outcome::Uncertain),
        r.evidence_hash == Some(evidence_hash),
        r.error is None,
        diff ==> r.status != ContractStatus::Verified,
        !diff ==> r.status != ContractStatus::Preserved && r.status != ContractStatus::Unaffected,
        r.status != ContractStatus::Unaffected,
{
    let mut result = match outcome {
        Outcome::Match => decision(ContractStatus::Failed, "Repository evidence supports a violation."),
        Outcome::NoMatch => if diff {
            decision(ContractStatus::Preserved, "Evidence supports preservation, assuming base compliance.")
        } else {
            decision(ContractStatus::Verified, "The supplied repository evidence supports compliance.")
        },
        Outcome::Uncertain => match reason {
            Some(Uncertainty::InsufficientContext) => decision(
                ContractStatus::Unresolved,
                "Repository assessment requires context beyond the supplied scope.",
            ),
            Some(Uncertainty::LowConfidence) => decision(
                ContractStatus::Unresolved,
                "Repository assessment did not meet the model confidence threshold.",
            ),
            None => decision(ContractStatus::Unresolved, "Repository assessment could not determine compliance."),
        },
    };
    result.evidence_hash = Some(evidence_hash);
    result
}

/// The conclusion from the answer to the repository-wide question, given
/// the encoded evidence that the question was asked with: its hash is the
/// BLAKE3 digest of those bytes, in lowercase hexadecimal.
pub fn repository_conclusion(outcome: Outcome, reason: Option<Uncertainty>, diff: bool, evidence: &[u8]) -> (r: ContractResult)
    ensures
        r.status == answered(outcome, reason, diff).0,
        r.reason@ == answered(outcome, reason, diff).1,
        (r.status == ContractStatus::Failed) == (outcome == Outcome::Match),
        (r.status == ContractStatus::Unresolved) == (outcome == Outcome::Uncertain),
        r.evidence_hash matches Some(h) && h@ == blake3_digest(evidence@) && h@.len() == 64,
        r.error is None,
{
    conclusion_of(outcome, reason, diff, blake3_hex(evidence))
}


/// The repository-wide question for a diff run (`true`) or a full run.
pub open spec fn question(diff: bool) -> Seq<char> {
    if diff {
        "Assume the base satisfied this requirement. Does the change break it? Use match only for a supported violation introduced by the change, no_match only when the evidence is sufficient to establish preservation, and uncertain when evidence is missing. Account for deletions, renames, and interactions across files."@
    } else {
        "Does the resulting repository violate this requirement? There is no compliance assumption. Check missing required files and cross-file requirements as well as file evidence. Use match for a supported violation, no_match only when the supplied evidence is sufficient to establish compliance, and uncertain otherwise. An empty set of findings alone is not evidence of compliance."@
    }
}

/// The instructions that follow the question.
pub open spec fn guidance() -> Seq<char> {
    ("\nRead the whole contract, including exceptions. "@
        + "Behavioral rules apply when the described behavior exists; do not infer a requirement to add an absent feature. "@
        + "Checks describe actions for a person to take, not commands that have run. "@
        + "Inventory lists all scoped files; supplied source contains relevant files and context. "@
        + "Earlier assessments are hypotheses, not proof: combined source may clear a suspected violation. "@
        + "Use uncertain if an obligation needs information absent from the supplied source."@)
}

/// The query asked about the whole repository.
pub fn context_query(diff: bool) -> (r: String)
    ensures
        r@ == question(diff) + guidance(),
{
    let mut v: Vec<char> = Vec::new();
    if diff {
        append(&mut v, "Assume the base satisfied this requirement. Does the change break it? Use match only for a supported violation introduced by the change, no_match only when the evidence is sufficient to establish preservation, and uncertain when evidence is missing. Account for deletions, renames, and interactions across files.");
    } else {
        append(&mut v, "Does the resulting repository violate this requirement? There is no compliance assumption. Check missing required files and cross-file requirements as well as file evidence. Use match for a supported violation, no_match only when the supplied evidence is sufficient to establish compliance, and uncertain otherwise. An empty set of findings alone is not evidence of compliance.");
    }
    assert(v@ == question(diff));
    append(&mut v, "\nRead the whole contract, including exceptions. ");
    append(&mut v, "Behavioral rules apply when the described behavior exists; do not infer a requirement to add an absent feature. ");
    append(&mut v, "Checks describe actions for a person to take, not commands that have run. ");
    append(&mut v, "Inventory lists all scoped files; supplied source contains relevant files and context. ");
    append(&mut v, "Earlier assessments are hypotheses, not proof: combined source may clear a suspected violation. ");
    append(&mut v, "Use uncertain if an obligation needs information absent from the supplied source.");
    string_of(&v)
}

// ---------------------------------------------------------------------
// The evidence for the repository-wide question
// ---------------------------------------------------------------------

/// The paths whose change records a diff run supplies: changed files in
/// the contract's scope.
pub open spec fn changed_in(plan: Plan, scope: Seq<char>) -> Seq<Seq<char>> {
    if plan.mode == Mode::Diff {
        strs(plan.files@).filter(|p: Seq<char>| scoped(plan.renames(), p, scope))
    } else {
        seq![]
    }
}

pub open spec fn context_paths(plan: Plan) -> Seq<Seq<char>> {
    plan.context@.map_values(|c: Change| c.path@)
}

/// Whether some file judgment found the contract not applicable to `p`.
pub open spec fn judged_unrelated(results: Seq<CheckResult>, p: Seq<char>) -> bool {
    exists|i: int| 0 <= i < results.len() && #[trigger] results[i].path@ == p && results[i].status == Status::NotApplicable
}

/// An inventory path whose contents are already supplied, as a change
/// record or as supplementary context.
pub open spec fn supplied(plan: Plan, scope: Seq<char>, p: Seq<char>) -> bool {
    changed_in(plan, scope).contains(p) || context_paths(plan).contains(p)
}

/// An inventory path that a full run must supply whole: one not supplied
/// otherwise that no file judgment found unrelated.
pub open spec fn required_source(plan: Plan, scope: Seq<char>, results: Seq<CheckResult>, p: Seq<char>) -> bool {
    !supplied(plan, scope, p) && plan.mode == Mode::Full && !judged_unrelated(results, p)
}

/// An inventory path supplied only as the budget allows.
pub open spec fn optional_source(plan: Plan, scope: Seq<char>, results: Seq<CheckResult>, p: Seq<char>) -> bool {
    !supplied(plan, scope, p) && !(plan.mode == Mode::Full && !judged_unrelated(results, p))
}

pub open spec fn scope_inventory(plan: Plan, scope: Seq<char>) -> Seq<Seq<char>> {
    strs(plan.inventory@).filter(|p: Seq<char>| under(p, scope))
}

/// Which paths the repository-wide question is given, and how.
pub struct Sources {
    /// Every inventory path in the contract's scope.
    pub inventory: Vec<String>,
    /// Changed paths in scope whose change records are supplied.
    pub changed: Vec<String>,
    /// Paths supplied whole.
    pub required: Vec<String>,
    /// Paths supplied whole while the budget allows, else listed as omitted.
    pub optional: Vec<String>,
}

fn unrelated(results: &Vec<CheckResult>, p: &str) -> (r: bool)
    ensures
        r == judged_unrelated(results@, p@),
{
    let mut i: usize = 0;
    while i < results.len()
        invariant
            i <= results@.len(),
            forall|k: int| 0 <= k < i ==> !(#[trigger] results@[k].path@ == p@ && results@[k].status == Status::NotApplicable),
        decreases results@.len() - i,
    {
        if results[i].status == Status::NotApplicable && crate::text::is_text(&chars_of(results[i].path.as_str()), p) {
            return true;
        }
        i += 1;
    }
    false
}

fn in_context(context: &Vec<Change>, p: &str) -> (r: bool)
    ensures
        r == context@.map_values(|c: Change| c.path@).contains(p@),
{
    let ghost cv = context@.map_values(|c: Change| c.path@);
    let mut i: usize = 0;
    while i < context.len()
        invariant
            i <= context@.len(),
            cv == context@.map_values(|c: Change| c.path@),
            forall|k: int| 0 <= k < i ==> #[trigger] cv[k] != p@,
        decreases context@.len() - i,
    {
        if crate::text::is_text(&chars_of(context[i].path.as_str()), p) {
            assert(cv[i as int] == p@);
            return true;
        }
        i += 1;
    }
    false
}

fn changed_files(plan: &Plan, scope: &str) -> (r: Vec<String>)
    ensures
        strs(r@) == changed_in(*plan, scope@),
{
    let mut out: Vec<String> = Vec::new();
    if plan.mode != Mode::Diff {
        assert(strs(out@) =~= Seq::<Seq<char>>::empty());
        return out;
    }
    let ghost all = strs(plan.files@);
    let mut i: usize = 0;
    proof {
        reveal(Seq::filter);
        assert(all.take(0) =~= Seq::<Seq<char>>::empty());
        assert(strs(out@) =~= Seq::<Seq<char>>::empty());
    }
    while i < plan.files.len()
        invariant
            i <= plan.files@.len(),
            all == strs(plan.files@),
            strs(out@) == all.take(i as int).filter(|p: Seq<char>| scoped(plan.renames(), p, scope@)),
        decreases plan.files@.len() - i,
    {
        proof {
            reveal(Seq::filter);
            assert(all.take(i + 1).drop_last() =~= all.take(i as int));
        }
        let ghost ov = strs(out@);
        if plan.in_scope(plan.files[i].as_str(), scope) {
            out.push(plan.files[i].clone());
            assert(strs(out@) =~= ov.push(plan.files@[i as int]@));
        }
        i += 1;
    }
    assert(all.take(plan.files@.len() as int) =~= all);
    out
}

/// Sorts the inventory of a contract's scope into the sources of its
/// repository-wide question.
pub fn sources(plan: &Plan, scope: &str, results: &Vec<CheckResult>) -> (r: Sources)
    ensures
        strs(r.inventory@) == scope_inventory(*plan, scope@),
        strs(r.changed@) == changed_in(*plan, scope@),
        strs(r.required@) == scope_inventory(*plan, scope@).filter(|p: Seq<char>| required_source(*plan, scope@, results@, p)),
        strs(r.optional@) == scope_inventory(*plan, scope@).filter(|p: Seq<char>| optional_source(*plan, scope@, results@, p)),
{
    let changed = changed_files(plan, scope);
    let ghost all = strs(plan.inventory@);
    let mut inventory: Vec<String> = Vec::new();
    let mut required: Vec<String> = Vec::new();
    let mut optional: Vec<String> = Vec::new();
    let mut i: usize = 0;
    proof {
        reveal(Seq::filter);
        assert(all.take(0) =~= Seq::<Seq<char>>::empty());
        assert(strs(inventory@) =~= Seq::<Seq<char>>::empty());
        assert(strs(required@) =~= Seq::<Seq<char>>::empty());
        assert(strs(optional@) =~= Seq::<Seq<char>>::empty());
    }
    while i < plan.inventory.len()
        invariant
            i <= plan.inventory@.len(),
            all == strs(plan.inventory@),
            strs(changed@) == changed_in(*plan, scope@),
            strs(inventory@) == all.take(i as int).filter(|p: Seq<char>| under(p, scope@)),
            strs(required@) == all.take(i as int).filter(|p: Seq<char>| under(p, scope@)).filter(
                |p: Seq<char>| required_source(*plan, scope@, results@, p),
            ),
            strs(optional@) == all.take(i as int).filter(|p: Seq<char>| under(p, scope@)).filter(
                |p: Seq<char>| optional_source(*plan, scope@, results@, p),
            ),
        decreases plan.inventory@.len() - i,
    {
        let ghost inv0 = all.take(i as int).filter(|p: Seq<char>| under(p, scope@));
        proof {
            reveal(Seq::filter);
            assert(all.take(i + 1).drop_last() =~= all.take(i as int));
        }
        let path = &plan.inventory[i];
        assert(all[i as int] == path@);
        if starts_with(path.as_str(), scope) {
            let ghost inv1 = inv0.push(path@);
            assert(all.take(i + 1).filter(|p: Seq<char>| under(p, scope@)) == inv1);
            proof {
                reveal(Seq::filter);
                assert(inv1.drop_last() =~= inv0);
            }
            let ghost iv = strs(inventory@);
            inventory.push(path.clone());
            assert(strs(inventory@) =~= iv.push(path@));
            let given = listed(&changed, path.as_str()) || in_context(&plan.context, path.as_str());
            assert(given == supplied(*plan, scope@, path@));
            if !given {
                if plan.mode == Mode::Full && !unrelated(results, path.as_str()) {
                    let ghost rv = strs(required@);
                    required.push(path.clone());
                    assert(strs(required@) =~= rv.push(path@));
                } else {
                    let ghost ov = strs(optional@);
                    optional.push(path.clone());
                    assert(strs(optional@) =~= ov.push(path@));
                }
            }
        }
        i += 1;
    }
    assert(all.take(plan.inventory@.len() as int) =~= all);
    Sources { inventory, changed, required, optional }
}


// ---------------------------------------------------------------------
// The evidence budget
// ---------------------------------------------------------------------

/// The sum of a sequence of sizes.
pub open spec fn total(sizes: Seq<usize>) -> int
    decreases sizes.len(),
{
    if sizes.len() == 0 {
        0
    } else {
        total(sizes.drop_last()) + sizes.last()
    }
}

/// Whether the required sources, read in order, ever exceed the limit on
/// inputs together.
pub open spec fn over_budget(sizes: Seq<usize>) -> bool {
    exists|k: int| 0 < k <= sizes.len() && #[trigger] total(sizes.take(k)) > MAX_FILE_BYTES
}

/// Checks the sizes of the required sources against the limit on inputs.
pub fn check_required(sizes: &Vec<usize>) -> (r: Result<(), String>)
    ensures
        match r {
            Ok(()) => !over_budget(sizes@),
            Err(e) => over_budget(sizes@) && e@ == "required source exceeds 64 KiB"@,
        },
{
    let mut sum: u128 = 0;
    let mut i: usize = 0;
    assert(sizes@.take(0) =~= Seq::<usize>::empty());
    while i < sizes.len()
        invariant
            i <= sizes@.len(),
            sum == total(sizes@.take(i as int)),
            sum <= MAX_FILE_BYTES,
            forall|k: int| 0 < k <= i ==> #[trigger] total(sizes@.take(k)) <= MAX_FILE_BYTES,
        decreases sizes@.len() - i,
    {
        assert(sizes@.take(i + 1).drop_last() =~= sizes@.take(i as int));
        sum = sum + sizes[i] as u128;
        i += 1;
        if sum > MAX_FILE_BYTES as u128 {
            assert(total(sizes@.take(i as int)) > MAX_FILE_BYTES);
            return Err(text("required source exceeds 64 KiB"));
        }
    }
    assert(sizes@.take(sizes@.len() as int) =~= sizes@);
    Ok(())
}

/// Whether moving a source from the omitted list into the supplied files
/// keeps the encoded evidence within the limit: `added` bytes come in,
/// `removed` go out.
pub open spec fn fits(bytes: int, added: int, removed: int) -> bool {
    removed <= bytes + added && bytes + added - removed <= MAX_FILE_BYTES
}

/// Which optional sources are supplied, from source `i` on: each readable
/// one (`Some` of its encoded size as a file and as an omitted path) is
/// supplied when it fits, given the evidence's size so far, whether some
/// file is supplied already, and how many paths are still omitted.
pub open spec fn packed_from(
    items: Seq<Option<(usize, usize)>>,
    i: int,
    bytes: int,
    has_files: bool,
    omitted: int,
) -> Seq<bool>
    decreases items.len() - i,
{
    if i < 0 || i >= items.len() {
        seq![]
    } else {
        match items[i] {
            None => seq![false] + packed_from(items, i + 1, bytes, has_files, omitted),
            Some((file, path)) => {
                let added = file + if has_files { 1int } else { 0int };
                let removed = path + if omitted > 1 { 1int } else { 0int };
                if fits(bytes, added, removed) {
                    seq![true] + packed_from(items, i + 1, bytes + added - removed, true, omitted - 1)
                } else {
                    seq![false] + packed_from(items, i + 1, bytes, has_files, omitted)
                }
            },
        }
    }
}

/// The size of the evidence after the sources chosen from `i` on.
pub open spec fn packed_size(
    items: Seq<Option<(usize, usize)>>,
    i: int,
    bytes: int,
    has_files: bool,
    omitted: int,
) -> int
    decreases items.len() - i,
{
    if i < 0 || i >= items.len() {
        bytes
    } else {
        match items[i] {
            None => packed_size(items, i + 1, bytes, has_files, omitted),
            Some((file, path)) => {
                let added = file + if has_files { 1int } else { 0int };
                let removed = path + if omitted > 1 { 1int } else { 0int };
                if fits(bytes, added, removed) {
                    packed_size(items, i + 1, bytes + added - removed, true, omitted - 1)
                } else {
                    packed_size(items, i + 1, bytes, has_files, omitted)
                }
            },
        }
    }
}

proof fn lemma_packed_bound(items: Seq<Option<(usize, usize)>>, i: int, bytes: int, has_files: bool, omitted: int)
    requires
        bytes <= MAX_FILE_BYTES,
    ensures
        packed_size(items, i, bytes, has_files, omitted) <= MAX_FILE_BYTES,
        packed_from(items, i, bytes, has_files, omitted).len() == if 0 <= i <= items.len() { items.len() - i } else { 0 },
    decreases items.len() - i,
{
    if 0 <= i < items.len() {
        match items[i] {
            None => lemma_packed_bound(items, i + 1, bytes, has_files, omitted),
            Some((file, path)) => {
                let added = file + if has_files { 1int } else { 0int };
                let removed = path + if omitted > 1 { 1int } else { 0int };
                if fits(bytes, added, removed) {
                    lemma_packed_bound(items, i + 1, bytes + added - removed, true, omitted - 1);
                } else {
                    lemma_packed_bound(items, i + 1, bytes, has_files, omitted);
                }
            },
        }
    }
}

/// Chooses the optional sources to supply, in order, while the encoded
/// evidence stays within the limit on inputs. `bytes` is the evidence's
/// encoded size with every optional path listed as omitted, `has_files`
/// whether it supplies some file already, and `items` holds, for each
/// optional source that could be read, its encoded size as a file and as
/// an omitted path. Evidence already over the limit is refused: it is
/// never truncated.
pub fn choose_optional(bytes: usize, has_files: bool, items: &Vec<Option<(usize, usize)>>) -> (r: Result<
    Vec<bool>,
    String,
>)
    ensures
        match r {
            Ok(chosen) => bytes <= MAX_FILE_BYTES && chosen@ == packed_from(items@, 0, bytes as int, has_files, items@.len() as int),
            Err(e) => bytes > MAX_FILE_BYTES
                && e@ == "required repository context exceeds 64 KiB; context was not truncated"@,
        },
        r is Ok ==> packed_size(items@, 0, bytes as int, has_files, items@.len() as int) <= MAX_FILE_BYTES,
{
    if bytes > MAX_FILE_BYTES {
        return Err(text("required repository context exceeds 64 KiB; context was not truncated"));
    }
    let ghost whole = packed_from(items@, 0, bytes as int, has_files, items@.len() as int);
    proof {
        lemma_packed_bound(items@, 0, bytes as int, has_files, items@.len() as int);
    }
    let mut chosen: Vec<bool> = Vec::new();
    let mut size: usize = bytes;
    let mut filled = has_files;
    let mut omitted: usize = items.len();
    let mut i: usize = 0;
    while i < items.len()
        invariant
            i <= items@.len(),
            size <= MAX_FILE_BYTES,
            items@.len() - i <= omitted <= items@.len(),
            whole == chosen@ + packed_from(items@, i as int, size as int, filled, omitted as int),
            packed_size(items@, 0, bytes as int, has_files, items@.len() as int) == packed_size(items@, i as int, size as int, filled, omitted as int),
        decreases items@.len() - i,
    {
        match items[i] {
            None => {
                chosen.push(false);
                assert(whole =~= chosen@ + packed_from(items@, i + 1, size as int, filled, omitted as int));
            },
            Some((file, path)) => {
                let added: u128 = file as u128 + if filled { 1u128 } else { 0u128 };
                let removed: u128 = path as u128 + if omitted > 1 { 1u128 } else { 0u128 };
                let current: u128 = size as u128;
                if removed <= current + added && current + added - removed <= MAX_FILE_BYTES as u128 {
                    chosen.push(true);
                    let next = (current + added - removed) as usize;
                    assert(whole =~= chosen@ + packed_from(items@, i + 1, next as int, true, omitted - 1));
                    size = next;
                    filled = true;
                    omitted -= 1;
                } else {
                    chosen.push(false);
                    assert(whole =~= chosen@ + packed_from(items@, i + 1, size as int, filled, omitted as int));
                }
            },
        }
        i += 1;
    }
    assert(chosen@ =~= whole);
    Ok(chosen)
}

/// The final check on the encoded evidence.
pub fn check_context(bytes: usize) -> (r: Result<(), String>)
    ensures
        r is Ok <==> bytes <= MAX_FILE_BYTES,
        r matches Err(e) ==> e@ == "repository context exceeds 64 KiB"@,
{
    if bytes > MAX_FILE_BYTES {
        Err(text("repository context exceeds 64 KiB"))
    } else {
        Ok(())
    }
}


/// A full check never concludes unaffected or preserved, and a diff check
/// never newly verifies: whether settled early or answered.
pub proof fn conclusions_fit_the_mode(
    summary: Summary,
    partial: bool,
    mode: Mode,
    results: Seq<CheckResult>,
    requests: usize,
    max_requests: usize,
    outcome: Outcome,
    reason: Option<Uncertainty>,
)
    ensures
        early(summary, partial, mode, results, requests, max_requests) matches Some((status, _, _)) ==> (
        status == ContractStatus::Unaffected ==> mode == Mode::Diff) && status != ContractStatus::Verified
            && status != ContractStatus::Preserved,
        answered(outcome, reason, mode == Mode::Diff).0 != ContractStatus::Unaffected,
        mode == Mode::Full ==> answered(outcome, reason, mode == Mode::Diff).0 != ContractStatus::Preserved,
        mode == Mode::Diff ==> answered(outcome, reason, mode == Mode::Diff).0 != ContractStatus::Verified,
{
}

/// An early conclusion that is an operational error leaves the contract
/// unresolved, and only a spent budget makes one.
pub proof fn only_a_spent_budget_is_an_error(
    summary: Summary,
    partial: bool,
    mode: Mode,
    results: Seq<CheckResult>,
    requests: usize,
    max_requests: usize,
)
    ensures
        early(summary, partial, mode, results, requests, max_requests) matches Some((status, _, true)) ==> status
            == ContractStatus::Unresolved && requests >= max_requests,
{
}


/// The repository-wide answer decides the conclusion the same way in both
/// modes: a match fails the contract, an uncertain answer leaves it
/// unresolved, and no_match verifies it (preserves it against a base).
pub proof fn answers_decide_conclusions(outcome: Outcome, reason: Option<Uncertainty>, diff: bool)
    ensures
        (answered(outcome, reason, diff).0 == ContractStatus::Failed) == (outcome == Outcome::Match),
        (answered(outcome, reason, diff).0 == ContractStatus::Unresolved) == (outcome == Outcome::Uncertain),
        outcome == Outcome::NoMatch ==> answered(outcome, reason, diff).0 == if diff {
            ContractStatus::Preserved
        } else {
            ContractStatus::Verified
        },
        answered(Outcome::Match, reason, diff) == answered(Outcome::Match, None, !diff),
{
}

} // verus!
