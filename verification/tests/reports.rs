use tenet::change::{file_text, Mode, source_text};
use tenet::contract::Verdict;
use tenet::format::{
    blocking_issue, conclusion_name, contract_failed, counts, finished_label, is_issue, issue_lines, line_span,
    result_label, spinner, status, status_name, suite, symbol, tone, Tone,
};
use tenet::report::{
    final_code, run_assumption, run_mode, CheckResult, ContractResult, ContractStatus, Status, Summary, Tally,
};

/// Reads a contract document, its frontmatter read as YAML.
fn read(path: &str, doc: &str) -> Result<tenet::contract::Contract, tenet::contract::DocumentError> {
    let front = match tenet::parse::frontmatter(path, doc) {
        Ok(front) => front,
        Err(e) => return Err(e),
    };
    let meta = match serde_yaml::from_str::<std::collections::BTreeMap<String, String>>(&front) {
        Ok(map) => match (map.get("name"), map.get("message")) {
            (Some(n), Some(m)) => Ok(tenet::parse::Metadata { name: n.clone(), message: m.clone() }),
            _ => Err(tenet::parse::YamlFault { line: None, message: "missing field".into() }),
        },
        Err(e) => Err(tenet::parse::YamlFault { line: e.location().map(|l| l.line()), message: e.to_string() }),
    };
    tenet::parse::parse(path, doc, meta)
}


fn check(status: Status, expected: Option<Verdict>) -> CheckResult {
    CheckResult {
        mode: Mode::Full,
        change_kind: None,
        previous_path: None,
        before_hash: None,
        after_hash: None,
        contract: "c".into(),
        contract_path: "p".into(),
        contract_hash: "h".into(),
        path: "src/a.ts".into(),
        source_hash: None,
        example: None,
        expected,
        status,
        message: "m".into(),
        reason: None,
        elapsed_ms: 0,
    }
}

#[test]
fn summaries_count_each_judgment_once() {
    let mut s = Summary::default();
    s.add(&check(Status::Pass, None));
    s.add(&check(Status::Fail, Some(Verdict::Fail)));
    s.add(&check(Status::Pass, Some(Verdict::Fail)));
    assert_eq!((s.passed, s.failed, s.examples_passed, s.examples_failed), (2, 1, 1, 1));
    assert_eq!(s.exit_code(false), 0);
    assert_eq!(s.exit_code(true), 1);
    assert_eq!(final_code(&s, true, false), 0);
    assert_eq!(final_code(&s, true, true), 1);
    s.add(&check(Status::Incomplete, None));
    assert_eq!(s.exit_code(false), 3);
    s.add(&check(Status::Error, None));
    assert_eq!(s.exit_code(false), 2);
    s.cancelled = true;
    assert_eq!(s.exit_code(false), 130);
}

#[test]
fn a_failed_file_judgment_alone_does_not_fail_a_check() {
    let mut s = Summary::default();
    s.failed = 1;
    s.contracts_verified = 1;
    assert_eq!(s.exit_code(false), 0);
    s.contracts_failed = 1;
    assert_eq!(s.exit_code(false), 1);
}

#[test]
fn unresolved_contracts_do_not_fail_a_check() {
    let mut s = Summary::default();
    s.conclude(&ContractResult { status: ContractStatus::Unresolved, reason: "r".into(), evidence_hash: None, error: None });
    assert_eq!(s.exit_code(false), 0);
    s.conclude(&ContractResult { status: ContractStatus::Failed, reason: "r".into(), evidence_hash: None, error: None });
    assert_eq!(s.exit_code(false), 1);
    s.conclude(&ContractResult { status: ContractStatus::Unresolved, reason: "r".into(), evidence_hash: None, error: Some("e".into()) });
    assert_eq!((s.errors, s.exit_code(false)), (1, 2));
}

#[test]
fn run_details_name_the_mode() {
    assert_eq!(run_mode(true, Mode::Diff), "eval");
    assert_eq!(run_mode(false, Mode::Diff), "diff");
    assert_eq!(run_mode(false, Mode::Full), "full");
    assert_eq!(run_assumption(false, Mode::Diff).as_deref(), Some("The base satisfies the selected contracts."));
    assert_eq!(run_assumption(true, Mode::Diff), None);
}

#[test]
fn labels_and_counts() {
    assert_eq!(status(Status::NotApplicable), "EXCLUDED");
    assert_eq!(status(Status::Uncertain), "UNRESOLVED");
    assert_eq!(status_name(Status::NotApplicable), "not_applicable");
    assert_eq!(conclusion_name(ContractStatus::Preserved), "PRESERVED");
    let mut s = Summary::default();
    assert_eq!(suite(&s, false), "EMPTY");
    assert_eq!(counts(&s, false), "0 completed");
    s.passed = 3;
    s.not_applicable = 2;
    s.errors = 1;
    assert_eq!(suite(&s, false), "ERROR");
    assert_eq!(counts(&s, false), "3 passed | 2 not applicable | 1 errors");
    s.examples_passed = 12;
    assert_eq!(counts(&s, true), "12 passed | 1 errors");
    s.errors = 0;
    assert_eq!(suite(&s, true), "PASS");
    assert_eq!(finished_label(&None, &s, false), "PASS");
    let c = Some(ContractResult { status: ContractStatus::Verified, reason: "r".into(), evidence_hash: None, error: None });
    assert_eq!(finished_label(&c, &s, false), "VERIFIED");
    assert_eq!(tone("PASS"), Tone::Good);
    assert_eq!(tone("FAILED"), Tone::Bad);
    assert_eq!(tone("INCOMPLETE"), Tone::Doubt);
    assert_eq!(tone("EMPTY"), Tone::Quiet);
    assert_eq!(symbol(Tone::Good), '\u{2713}');
    assert_eq!(symbol(Tone::Bad), '\u{d7}');
    assert_eq!(spinner(0), '\u{280b}');
    assert_eq!(spinner(250), '\u{2839}');
    assert_eq!(spinner(1000), '\u{280b}');
}

#[test]
fn reports_keep_the_results_that_matter() {
    assert!(is_issue(&check(Status::Fail, None), false));
    assert!(!is_issue(&check(Status::Pass, None), false));
    assert!(!is_issue(&check(Status::Fail, None), true));
    assert!(is_issue(&check(Status::Pass, Some(Verdict::Fail)), true));
    assert_eq!(result_label(&check(Status::Pass, Some(Verdict::Fail)), true), "FAIL");
    assert_eq!(result_label(&check(Status::Pass, Some(Verdict::Pass)), true), "PASS");
    assert_eq!(result_label(&check(Status::NotApplicable, None), false), "EXCLUDED");
    let failed = Some(ContractResult { status: ContractStatus::Failed, reason: "r".into(), evidence_hash: None, error: None });
    let mut s = Summary::default();
    assert!(contract_failed(&failed, &s, false));
    assert!(!contract_failed(&None, &s, true));
    s.examples_failed = 1;
    assert!(contract_failed(&None, &s, true));
    let issues = vec![check(Status::Fail, None), check(Status::Incomplete, None), check(Status::Error, None)];
    assert_eq!(blocking_issue(&issues), Some(1));
    assert_eq!(blocking_issue(&vec![check(Status::Fail, None)]), None);
    assert_eq!(issue_lines(&check(Status::Fail, None), false), vec!["  src/a.ts: file evidence supports a violation".to_string()]);
    assert!(issue_lines(&check(Status::Uncertain, None), false).is_empty());
    let mut e = check(Status::Pass, Some(Verdict::Fail));
    e.example = Some("bad".into());
    assert_eq!(
        issue_lines(&e, true),
        vec![
            "  bad: example did not match its expectation".to_string(),
            "    expected fail \u{b7} received pass".to_string()
        ]
    );
}

#[test]
fn line_spans_are_byte_ranges_of_lines() {
    let text = "first\nsécond\nthird";
    assert_eq!(line_span(text, 1), (0, 5));
    assert_eq!(line_span(text, 0), (0, 5));
    assert_eq!(line_span(text, 2), (6, 13));
    assert_eq!(&text[6..13], "sécond");
    assert_eq!(line_span(text, 3), (14, 19));
    assert_eq!(line_span(text, 9), (19, 19));
    assert_eq!(line_span("", 1), (0, 0));
}

#[test]
fn oversized_change_records_are_refused() {
    assert_eq!(source_text("{}".into()).unwrap(), "{}");
    assert_eq!(
        source_text("x".repeat(65537)).unwrap_err(),
        "before/after input exceeds 64 KiB; input was not truncated"
    );
}

#[test]
fn excerpts_show_the_marked_lines() {
    let e = tenet::contract::DocumentError {
        path: ".contracts/001-a/CONTRACT.md".into(),
        line: 2,
        message: "name must be lowercase kebab-case".into(),
    };
    let out = tenet::format::document_error_report(&e, "---\nname: Bad\nmessage: m\n---\n");
    assert!(out.contains("name must be lowercase kebab-case"));
    assert!(out.contains(".contracts/001-a/CONTRACT.md"));
    assert!(out.contains("name: Bad"));
    let c = read(
        ".contracts/001-errors/CONTRACT.md",
        "---\nname: errors\nmessage: Keep failures.\n---\n## Rules\nPreserve database failures.\n",
    )
    .unwrap();
    assert!(tenet::format::rules_markable(&c));
    let out = tenet::format::requirement_report(&c);
    assert!(out.contains("Keep failures."));
    assert!(out.contains("Preserve database failures."));
    assert!(out.contains("contract requirement"));
}

#[test]
fn a_live_report_counts_each_event_kind() {
    let events = [
        Tally::Request,
        Tally::Judgment(Status::Pass),
        Tally::Uncounted,
        Tally::Request,
        Tally::Judgment(Status::Fail),
        Tally::Judgment(Status::Uncertain),
        Tally::Judgment(Status::Pass),
    ];
    let mut s = Summary::default();
    for t in events {
        assert!(s.can_tally(t));
        s.tally(t);
    }
    assert_eq!((s.requests, s.passed, s.failed, s.uncertain), (2, 2, 1, 1));
    assert_eq!((s.not_applicable, s.errors, s.incomplete, s.examples_passed, s.contracts_failed), (0, 0, 0, 0, 0));
    let mut full = Summary::default();
    full.requests = usize::MAX;
    assert!(!full.can_tally(Tally::Request));
    assert!(full.can_tally(Tally::Uncounted));
}

#[test]
fn source_files_are_small_text_without_nul_bytes() {
    assert_eq!(file_text(b"let x = 1;\n", "a.ts").unwrap(), "let x = 1;\n");
    assert_eq!(file_text(&vec![b'a'; 65536], "a.ts").unwrap().len(), 65536);
    assert_eq!(file_text(&vec![b'a'; 65537], "a.ts").unwrap_err(), "source file exceeds 64 KiB: a.ts");
    assert_eq!(
        file_text(b"a\0b", "bin/x").unwrap_err(),
        "binary input cannot establish contract compliance: bin/x"
    );
    assert_eq!(file_text(&[0xff, 0xfe], "x.ts").unwrap_err(), "source file is not UTF-8: x.ts");
}
