//! The words and lines that reports show: labels for judgments and
//! conclusions, count lines, which results a report dwells on, and the
//! annotated excerpts of contract documents.
use vstd::prelude::*;
use crate::contract::{Contract, DocumentError, opt_view};
use crate::report::{CheckResult, ContractResult, ContractStatus, Status, Summary, status_of};
use crate::text::{append, byte_at, decimal, decimal_of, lemma_prefix_boundary, markable, string_of, text};

verus! {

broadcast use vstd::seq_lib::group_seq_properties;

/// The label of a file judgment.
pub open spec fn status_label(s: Status) -> Seq<char> {
    match s {
        Status::Pass => "PASS"@,
        Status::Fail => "FAIL"@,
        Status::NotApplicable => "EXCLUDED"@,
        Status::Uncertain => "UNRESOLVED"@,
        Status::Error => "ERROR"@,
        Status::Incomplete => "INCOMPLETE"@,
    }
}

pub fn status(s: Status) -> (r: String)
    ensures
        r@ == status_label(s),
{
    match s {
        Status::Pass => text("PASS"),
        Status::Fail => text("FAIL"),
        Status::NotApplicable => text("EXCLUDED"),
        Status::Uncertain => text("UNRESOLVED"),
        Status::Error => text("ERROR"),
        Status::Incomplete => text("INCOMPLETE"),
    }
}

/// The name of a file judgment in machine-readable output.
pub open spec fn status_word(s: Status) -> Seq<char> {
    match s {
        Status::Pass => "pass"@,
        Status::Fail => "fail"@,
        Status::NotApplicable => "not_applicable"@,
        Status::Uncertain => "uncertain"@,
        Status::Error => "error"@,
        Status::Incomplete => "incomplete"@,
    }
}

pub fn status_name(s: Status) -> (r: String)
    ensures
        r@ == status_word(s),
{
    match s {
        Status::Pass => text("pass"),
        Status::Fail => text("fail"),
        Status::NotApplicable => text("not_applicable"),
        Status::Uncertain => text("uncertain"),
        Status::Error => text("error"),
        Status::Incomplete => text("incomplete"),
    }
}

/// The label of a contract's file evidence as a whole: errors first, then
/// incomplete checks, then (for examples) failed or passed examples, else
/// failed, uncertain or passed files; `EMPTY` when nothing was judged.
pub open spec fn suite_label(s: Summary, evaluation: bool) -> Seq<char> {
    if s.errors > 0 {
        "ERROR"@
    } else if s.incomplete > 0 {
        "INCOMPLETE"@
    } else if evaluation {
        if s.examples_failed > 0 {
            "FAIL"@
        } else if s.examples_passed > 0 {
            "PASS"@
        } else {
            "EMPTY"@
        }
    } else if s.failed > 0 {
        "FAIL"@
    } else if s.uncertain > 0 {
        "UNCERTAIN"@
    } else if s.passed > 0 {
        "PASS"@
    } else {
        "EMPTY"@
    }
}

pub fn suite(s: &Summary, evaluation: bool) -> (r: String)
    ensures
        r@ == suite_label(*s, evaluation),
{
    if s.errors > 0 {
        text("ERROR")
    } else if s.incomplete > 0 {
        text("INCOMPLETE")
    } else if evaluation {
        if s.examples_failed > 0 {
            text("FAIL")
        } else if s.examples_passed > 0 {
            text("PASS")
        } else {
            text("EMPTY")
        }
    } else if s.failed > 0 {
        text("FAIL")
    } else if s.uncertain > 0 {
        text("UNCERTAIN")
    } else if s.passed > 0 {
        text("PASS")
    } else {
        text("EMPTY")
    }
}

/// The label of a contract conclusion.
pub open spec fn conclusion_label(s: ContractStatus) -> Seq<char> {
    match s {
        ContractStatus::Verified => "VERIFIED"@,
        ContractStatus::Preserved => "PRESERVED"@,
        ContractStatus::Unaffected => "UNAFFECTED"@,
        ContractStatus::Failed => "FAILED"@,
        ContractStatus::Unresolved => "UNRESOLVED"@,
    }
}

pub fn conclusion_name(s: ContractStatus) -> (r: String)
    ensures
        r@ == conclusion_label(s),
{
    match s {
        ContractStatus::Verified => text("VERIFIED"),
        ContractStatus::Preserved => text("PRESERVED"),
        ContractStatus::Unaffected => text("UNAFFECTED"),
        ContractStatus::Failed => text("FAILED"),
        ContractStatus::Unresolved => text("UNRESOLVED"),
    }
}

/// The label a finished contract shows: its conclusion, or for examples
/// the label of its evidence.
pub fn finished_label(conclusion: &Option<ContractResult>, summary: &Summary, evaluation: bool) -> (r: String)
    ensures
        r@ == match conclusion {
            Some(c) => conclusion_label(c.status),
            None => suite_label(*summary, evaluation),
        },
{
    match conclusion {
        Some(c) => conclusion_name(c.status),
        None => suite(summary, evaluation),
    }
}

/// The conclusion of a contract in machine-readable output.
pub open spec fn conclusion_word(s: ContractStatus) -> Seq<char> {
    match s {
        ContractStatus::Verified => "verified"@,
        ContractStatus::Preserved => "preserved"@,
        ContractStatus::Unaffected => "unaffected"@,
        ContractStatus::Failed => "failed"@,
        ContractStatus::Unresolved => "unresolved"@,
    }
}

pub fn contract_status_name(s: ContractStatus) -> (r: String)
    ensures
        r@ == conclusion_word(s),
{
    match s {
        ContractStatus::Verified => text("verified"),
        ContractStatus::Preserved => text("preserved"),
        ContractStatus::Unaffected => text("unaffected"),
        ContractStatus::Failed => text("failed"),
        ContractStatus::Unresolved => text("unresolved"),
    }
}

/// How a label is shown: as good news, bad news, doubt, or neither.
#[derive(Clone, Copy, Debug, PartialEq, Eq, Structural)]
pub enum Tone {
    Good,
    Bad,
    Doubt,
    Quiet,
}

pub open spec fn tone_of(state: Seq<char>) -> Tone {
    if state == "PASS"@ || state == "VERIFIED"@ || state == "PRESERVED"@ {
        Tone::Good
    } else if state == "FAIL"@ || state == "FAILED"@ || state == "ERROR"@ {
        Tone::Bad
    } else if state == "UNCERTAIN"@ || state == "UNRESOLVED"@ || state == "INCOMPLETE"@ {
        Tone::Doubt
    } else {
        Tone::Quiet
    }
}

pub fn tone(state: &str) -> (r: Tone)
    ensures
        r == tone_of(state@),
{
    let v = crate::text::chars_of(state);
    if crate::text::is_text(&v, "PASS") || crate::text::is_text(&v, "VERIFIED") || crate::text::is_text(&v, "PRESERVED") {
        Tone::Good
    } else if crate::text::is_text(&v, "FAIL") || crate::text::is_text(&v, "FAILED") || crate::text::is_text(&v, "ERROR") {
        Tone::Bad
    } else if crate::text::is_text(&v, "UNCERTAIN") || crate::text::is_text(&v, "UNRESOLVED") || crate::text::is_text(&v, "INCOMPLETE") {
        Tone::Doubt
    } else {
        Tone::Quiet
    }
}

/// The symbol that marks a label of the given tone.
pub open spec fn symbol_of(t: Tone) -> char {
    match t {
        Tone::Good => '\u{2713}',
        Tone::Bad => '\u{d7}',
        Tone::Doubt => '?',
        Tone::Quiet => '\u{2212}',
    }
}

pub fn symbol(t: Tone) -> (r: char)
    ensures
        r == symbol_of(t),
{
    match t {
        Tone::Good => '\u{2713}',
        Tone::Bad => '\u{d7}',
        Tone::Doubt => '?',
        Tone::Quiet => '\u{2212}',
    }
}


// ---------------------------------------------------------------------
// Count lines
// ---------------------------------------------------------------------

/// The counts a summary line shows, with their words.
pub open spec fn count_entries(s: Summary, evaluation: bool) -> Seq<(usize, Seq<char>)> {
    if evaluation {
        seq![
            (s.examples_passed, "passed"@),
            (s.examples_failed, "failed"@),
            (s.errors, "errors"@),
            (s.incomplete, "incomplete"@),
        ]
    } else {
        seq![
            (s.passed, "passed"@),
            (s.failed, "failed"@),
            (s.uncertain, "uncertain"@),
            (s.not_applicable, "not applicable"@),
            (s.errors, "errors"@),
            (s.incomplete, "incomplete"@),
        ]
    }
}

/// `COUNT WORD` for each count that is not zero, in order.
pub open spec fn count_parts(e: Seq<(usize, Seq<char>)>) -> Seq<Seq<char>>
    decreases e.len(),
{
    if e.len() == 0 {
        seq![]
    } else if e.last().0 > 0 {
        count_parts(e.drop_last()).push(decimal(e.last().0 as nat) + " "@ + e.last().1)
    } else {
        count_parts(e.drop_last())
    }
}

/// `parts.join(" | ")`.
pub open spec fn bar_joined(parts: Seq<Seq<char>>) -> Seq<char>
    decreases parts.len(),
{
    if parts.len() == 0 {
        seq![]
    } else if parts.len() == 1 {
        parts[0]
    } else {
        bar_joined(parts.drop_last()) + " | "@ + parts.last()
    }
}

/// The counts that are not zero, joined by ` | `, or `0 completed`.
pub open spec fn counts_line(s: Summary, evaluation: bool) -> Seq<char> {
    let parts = count_parts(count_entries(s, evaluation));
    if parts.len() == 0 {
        "0 completed"@
    } else {
        bar_joined(parts)
    }
}

pub fn counts(s: &Summary, evaluation: bool) -> (r: String)
    ensures
        r@ == counts_line(*s, evaluation),
{
    let mut entries: Vec<(usize, &str)> = Vec::new();
    if evaluation {
        entries.push((s.examples_passed, "passed"));
        entries.push((s.examples_failed, "failed"));
        entries.push((s.errors, "errors"));
        entries.push((s.incomplete, "incomplete"));
    } else {
        entries.push((s.passed, "passed"));
        entries.push((s.failed, "failed"));
        entries.push((s.uncertain, "uncertain"));
        entries.push((s.not_applicable, "not applicable"));
        entries.push((s.errors, "errors"));
        entries.push((s.incomplete, "incomplete"));
    }
    let ghost ev = entries@.map_values(|e: (usize, &str)| (e.0, e.1@));
    assert(ev =~= count_entries(*s, evaluation));
    let mut v: Vec<char> = Vec::new();
    let mut any = false;
    let mut i: usize = 0;
    assert(ev.take(0) =~= Seq::<(usize, Seq<char>)>::empty());
    while i < entries.len()
        invariant
            i <= entries@.len(),
            ev == entries@.map_values(|e: (usize, &str)| (e.0, e.1@)),
            any == (count_parts(ev.take(i as int)).len() > 0),
            v@ == bar_joined(count_parts(ev.take(i as int))),
        decreases entries@.len() - i,
    {
        let ghost before = count_parts(ev.take(i as int));
        assert(ev.take(i + 1).drop_last() =~= ev.take(i as int));
        let (n, word) = entries[i];
        assert(ev[i as int] == (n, word@));
        if n > 0 {
            if any {
                append(&mut v, " | ");
            }
            let digits = decimal_of(n);
            let ghost start = v@;
            let mut k: usize = 0;
            while k < digits.len()
                invariant
                    k <= digits@.len(),
                    v@ == start + digits@.take(k as int),
                decreases digits@.len() - k,
            {
                v.push(digits[k]);
                k += 1;
            }
            assert(digits@.take(digits@.len() as int) =~= digits@);
            append(&mut v, " ");
            append(&mut v, word);
            proof {
                let after = count_parts(ev.take(i + 1));
                assert(after == before.push(decimal(n as nat) + " "@ + word@));
                if before.len() == 0 {
                    assert(v@ =~= after[0]);
                } else {
                    assert(after.drop_last() =~= before);
                    assert(v@ =~= bar_joined(after.drop_last()) + " | "@ + after.last());
                }
            }
            any = true;
        }
        i += 1;
    }
    assert(ev.take(entries@.len() as int) =~= ev);
    if !any {
        return text("0 completed");
    }
    string_of(&v)
}

// ---------------------------------------------------------------------
// What reports dwell on
// ---------------------------------------------------------------------

/// An example whose judgment differs from its expected verdict.
pub open spec fn mismatched(result: CheckResult) -> bool {
    result.expected matches Some(e) && status_of(e) != result.status
}

/// A result that a contract's report keeps: a mismatched example, or, in a
/// check, a judgment other than pass or not applicable.
pub open spec fn issue(result: CheckResult, evaluation: bool) -> bool {
    mismatched(result) || (!evaluation && (result.status == Status::Fail || result.status == Status::Uncertain
        || result.status == Status::Error || result.status == Status::Incomplete))
}

pub fn is_issue(result: &CheckResult, evaluation: bool) -> (r: bool)
    ensures
        r == issue(*result, evaluation),
{
    let mismatch = match result.expected {
        Some(e) => crate::report::Status::from_verdict(e) != result.status,
        None => false,
    };
    mismatch || (!evaluation && (result.status == Status::Fail || result.status == Status::Uncertain
        || result.status == Status::Error || result.status == Status::Incomplete))
}

/// The label of one result in a verbose report: pass or fail against the
/// expectation for examples, the judgment otherwise.
pub fn result_label(result: &CheckResult, evaluation: bool) -> (r: String)
    ensures
        r@ == if evaluation {
            if mismatched(*result) {
                "FAIL"@
            } else {
                "PASS"@
            }
        } else {
            status_label(result.status)
        },
{
    if evaluation {
        let mismatch = match result.expected {
            Some(e) => crate::report::Status::from_verdict(e) != result.status,
            None => false,
        };
        if mismatch {
            text("FAIL")
        } else {
            text("PASS")
        }
    } else {
        status(result.status)
    }
}

/// Whether a finished contract is reported as a failure: its conclusion
/// failed, or some example missed its expectation.
pub fn contract_failed(conclusion: &Option<ContractResult>, summary: &Summary, evaluation: bool) -> (r: bool)
    ensures
        r == ((conclusion matches Some(c) && c.status == ContractStatus::Failed) || (evaluation
            && summary.examples_failed > 0)),
{
    let concluded_failed = match conclusion {
        Some(c) => c.status == ContractStatus::Failed,
        None => false,
    };
    concluded_failed || (evaluation && summary.examples_failed > 0)
}

/// The first kept result that could not complete, if any.
pub fn blocking_issue(issues: &Vec<CheckResult>) -> (r: Option<usize>)
    ensures
        match r {
            Some(i) => i < issues@.len() && (issues@[i as int].status == Status::Error || issues@[i as int].status
                == Status::Incomplete) && forall|k: int| 0 <= k < i ==> !(#[trigger] issues@[k].status
                == Status::Error || issues@[k].status == Status::Incomplete),
            None => forall|k: int| 0 <= k < issues@.len() ==> !(#[trigger] issues@[k].status == Status::Error
                || issues@[k].status == Status::Incomplete),
        },
{
    let mut i: usize = 0;
    while i < issues.len()
        invariant
            i <= issues@.len(),
            forall|k: int| 0 <= k < i ==> !(#[trigger] issues@[k].status == Status::Error || issues@[k].status
                == Status::Incomplete),
        decreases issues@.len() - i,
    {
        if issues[i].status == Status::Error || issues[i].status == Status::Incomplete {
            return Some(i);
        }
        i += 1;
    }
    None
}

/// The lines a failure report gives one kept result: none for a check
/// judgment other than fail, error or incomplete; else its label (example
/// name or path) and reason (or a fallback), and for an example what was
/// expected and what was received.
pub open spec fn issue_text(result: CheckResult, evaluation: bool) -> Seq<Seq<char>> {
    if !(result.status == Status::Fail || result.status == Status::Error || result.status == Status::Incomplete)
        && !evaluation {
        seq![]
    } else {
        let label = match opt_view(result.example) {
            Some(e) => e,
            None => result.path@,
        };
        let fallback = if evaluation {
            "example did not match its expectation"@
        } else {
            "file evidence supports a violation"@
        };
        let first = "  "@ + label + ": "@ + match opt_view(result.reason) {
            Some(r) => r,
            None => fallback,
        };
        match result.expected {
            Some(e) => seq![first, "    expected "@ + status_word(status_of(e)) + " \u{b7} received "@ + status_word(result.status)],
            None => seq![first],
        }
    }
}

pub fn issue_lines(result: &CheckResult, evaluation: bool) -> (r: Vec<String>)
    ensures
        r@.map_values(|l: String| l@) == issue_text(*result, evaluation),
{
    let mut out: Vec<String> = Vec::new();
    if !(result.status == Status::Fail || result.status == Status::Error || result.status == Status::Incomplete)
        && !evaluation {
        assert(out@.map_values(|l: String| l@) =~= Seq::<Seq<char>>::empty());
        return out;
    }
    let mut v: Vec<char> = Vec::new();
    append(&mut v, "  ");
    match &result.example {
        Some(e) => append(&mut v, e.as_str()),
        None => append(&mut v, result.path.as_str()),
    }
    append(&mut v, ": ");
    match &result.reason {
        Some(r) => append(&mut v, r.as_str()),
        None => if evaluation {
            append(&mut v, "example did not match its expectation");
        } else {
            append(&mut v, "file evidence supports a violation");
        },
    }
    out.push(string_of(&v));
    if let Some(e) = result.expected {
        let mut w: Vec<char> = Vec::new();
        append(&mut w, "    expected ");
        let expected = status_name(crate::report::Status::from_verdict(e));
        append(&mut w, expected.as_str());
        append(&mut w, " \u{b7} received ");
        let received = status_name(result.status);
        append(&mut w, received.as_str());
        out.push(string_of(&w));
    }
    assert(out@.map_values(|l: String| l@) =~= issue_text(*result, evaluation));
    out
}


// ---------------------------------------------------------------------
// Annotated excerpts
// ---------------------------------------------------------------------

/// The first index at or after `p` that holds a newline, or the end.
pub open spec fn next_newline(s: Seq<char>, p: int) -> int
    decreases s.len() - p,
{
    if p >= s.len() {
        s.len() as int
    } else if s[p] == '\n' {
        p
    } else {
        next_newline(s, p + 1)
    }
}

/// Where line `k + 1` begins (character index): after the `k`-th newline,
/// or at the end when there are fewer lines.
pub open spec fn line_start(s: Seq<char>, k: nat) -> int
    decreases k,
{
    if k == 0 {
        0
    } else {
        let q = next_newline(s, line_start(s, (k - 1) as nat));
        if q < s.len() {
            q + 1
        } else {
            s.len() as int
        }
    }
}

proof fn lemma_next_newline(s: Seq<char>, p: int)
    requires
        0 <= p <= s.len(),
    ensures
        p <= next_newline(s, p) <= s.len(),
        next_newline(s, p) < s.len() ==> s[next_newline(s, p)] == '\n',
        forall|j: int| p <= j < next_newline(s, p) ==> s[j] != '\n',
    decreases s.len() - p,
{
    if p < s.len() && s[p] != '\n' {
        lemma_next_newline(s, p + 1);
    }
}

proof fn lemma_line_start(s: Seq<char>, k: nat)
    ensures
        0 <= line_start(s, k) <= s.len(),
    decreases k,
{
    if k > 0 {
        lemma_line_start(s, (k - 1) as nat);
        lemma_next_newline(s, line_start(s, (k - 1) as nat));
    }
}

/// The byte range of line `line` (counted from 1; 0 counts as 1) without
/// its newline: from the end of the previous lines to the next newline or
/// the end of the text.
pub open spec fn line_range(s: Seq<char>, line: usize) -> (int, int) {
    let k = if line > 0 { (line - 1) as nat } else { 0nat };
    let a = line_start(s, k);
    (byte_at(s, a), byte_at(s, next_newline(s, a)))
}

fn newline_from(v: &Vec<char>, p: usize) -> (q: usize)
    requires
        p <= v@.len(),
    ensures
        q == next_newline(v@, p as int),
{
    let mut q = p;
    while q < v.len() && v[q] != '\n'
        invariant
            p <= q <= v@.len(),
            next_newline(v@, p as int) == next_newline(v@, q as int),
        decreases v@.len() - q,
    {
        q += 1;
    }
    q
}

/// The byte range of one line of a text, whose ends are character
/// boundaries.
pub fn line_span(source: &str, line: usize) -> (r: (usize, usize))
    ensures
        r.0 == line_range(source@, line).0,
        r.1 == line_range(source@, line).1,
        r.0 <= r.1 <= vstd::utf8::encode_utf8(source@).len(),
        vstd::utf8::is_char_boundary(vstd::utf8::encode_utf8(source@), r.0 as int),
        vstd::utf8::is_char_boundary(vstd::utf8::encode_utf8(source@), r.1 as int),
{
    let v = crate::text::chars_of(source);
    let bytes = source.as_bytes();
    let total = bytes.len();
    proof {
        crate::text::lemma_utf8_len(source@);
    }
    let k: usize = if line > 0 { line - 1 } else { 0 };
    let mut a: usize = 0;
    let mut j: usize = 0;
    while j < k
        invariant
            j <= k,
            v@ == source@,
            a == line_start(v@, j as nat),
            a <= v@.len(),
        decreases k - j,
    {
        let q = newline_from(&v, a);
        proof {
            lemma_next_newline(v@, a as int);
        }
        a = if q < v.len() { q + 1 } else { v.len() };
        j += 1;
    }
    let b = newline_from(&v, a);
    proof {
        lemma_next_newline(v@, a as int);
        assert(v@.subrange(0, a as int) =~= v@.take(a as int));
        assert(v@.subrange(0, b as int) =~= v@.take(b as int));
        crate::text::lemma_utf8_len(v@.take(a as int));
        crate::text::lemma_utf8_len(v@.take(b as int));
        lemma_prefix_boundary(v@, a as int);
        lemma_prefix_boundary(v@, b as int);
        assert(v@.take(b as int) =~= v@.take(a as int) + v@.subrange(a as int, b as int));
        crate::text::lemma_utf8_len_concat(v@.take(a as int), v@.subrange(a as int, b as int));
    }
    let start = crate::text::utf8_len_of(&v, 0, a);
    let end = crate::text::utf8_len_of(&v, 0, b);
    (start, end)
}


/// What `annotate_snippets` renders, in plain text, for an error titled
/// `title` with one annotated span (`start..end`, bytes) of `source` at
/// `path`: a primary span, or a context span with its label.
pub uninterp spec fn rendered(
    title: Seq<char>,
    source: Seq<char>,
    path: Seq<char>,
    start: usize,
    end: usize,
    primary: bool,
    label: Option<Seq<char>>,
) -> Seq<char>;

/// `Renderer::plain().render` of an error report with one snippet and one
/// annotation. The renderer panics on a span past the end of the source,
/// and slices the source at the span's ends, so the span must be
/// markable. The rendered text is not stated: it is named.
#[verifier::external_body]
fn render_excerpt(
    title: &str,
    source: &str,
    path: &str,
    start: usize,
    end: usize,
    primary: bool,
    label: Option<&str>,
) -> (r: String)
    requires
        markable(source@, start, end),
    ensures
        r@ == rendered(title@, source@, path@, start, end, primary, match label {
            Some(l) => Some(l@),
            None => None,
        }),
{
    let kind = if primary {
        annotate_snippets::AnnotationKind::Primary
    } else {
        annotate_snippets::AnnotationKind::Context
    };
    let report = annotate_snippets::Level::ERROR.primary_title(title).element(
        annotate_snippets::Snippet::source(source).path(path).annotation(kind.span(start..end).label(label)),
    );
    annotate_snippets::Renderer::plain().render(&[report])
}

/// Whether the contract's rules span can be marked in its document.
pub fn rules_markable(contract: &Contract) -> (r: bool)
    ensures
        r == markable(contract.document@, contract.rules_span.start, contract.rules_span.end),
{
    let start = contract.rules_span.start;
    let end = contract.rules_span.end;
    let doc = contract.document.as_str();
    let n = doc.as_bytes().len();
    start <= end && end <= n && doc.is_char_boundary(start) && doc.is_char_boundary(end)
}

/// The contract's requirement as an excerpt of its document: the message
/// as title, the rules marked as context.
pub fn requirement_report(contract: &Contract) -> (r: String)
    requires
        markable(contract.document@, contract.rules_span.start, contract.rules_span.end),
    ensures
        r@ == rendered(
            contract.message@,
            contract.document@,
            contract.path@,
            contract.rules_span.start,
            contract.rules_span.end,
            false,
            Some("contract requirement"@),
        ),
{
    render_excerpt(
        contract.message.as_str(),
        contract.document.as_str(),
        contract.path.as_str(),
        contract.rules_span.start,
        contract.rules_span.end,
        false,
        Some("contract requirement"),
    )
}

/// A document error as an excerpt of the document's text: the message as
/// title, the offending line marked.
pub fn document_error_report(error: &DocumentError, source: &str) -> (r: String)
    ensures
        r@ == rendered(
            error.message@,
            source@,
            error.path@,
            line_range(source@, error.line).0 as usize,
            line_range(source@, error.line).1 as usize,
            true,
            None,
        ),
{
    let (start, end) = line_span(source, error.line);
    render_excerpt(error.message.as_str(), source, error.path.as_str(), start, end, true, None)
}


/// The frames of the progress spinner.
pub open spec fn spinner_frames() -> Seq<char> {
    seq!['\u{280b}', '\u{2819}', '\u{2839}', '\u{2838}', '\u{283c}', '\u{2834}', '\u{2826}', '\u{2827}', '\u{2807}', '\u{280f}']
}

/// The spinner frame shown after `elapsed_ms` milliseconds: a new frame
/// every tenth of a second, in a cycle.
pub fn spinner(elapsed_ms: u128) -> (r: char)
    ensures
        r == spinner_frames()[((elapsed_ms / 100) % 10) as int],
{
    let frames: [char; 10] = ['\u{280b}', '\u{2819}', '\u{2839}', '\u{2838}', '\u{283c}', '\u{2834}', '\u{2826}', '\u{2827}', '\u{2807}', '\u{280f}'];
    assert(frames@ =~= spinner_frames());
    let k = ((elapsed_ms / 100) % 10) as usize;
    frames[k]
}

} // verus!
