use tenet::change::Mode;
use tenet::conclusion::{
    assessment_failed, check_context, check_required, choose_optional, conclusion_of, context_query, context_unavailable,
    settle_early, sources,
};
use tenet::discovery::{plan, Selection};
use tenet::report::{CheckResult, ContractStatus, Outcome, Status, Summary, Uncertainty};

/// Reads a contract document, its frontmatter read as YAML.
fn read(path: &str, doc: &str) -> Result<tenet::contract::Contract, tenet::contract::DocumentError> {
    let front = match tenet::parse::frontmatter(path, doc) {
        Ok(front) => front,
        Err(e) => return Err(e),
    };
    let meta = match serde_yaml::from_str::<std::collections::BTreeMap<String, String>>(&front) {
        Ok(map) => match (map.get("name"), map.get("message")) {
            (Some(n), Some(m)) => Ok(tenet::parse::Metadata { name: n.clone(), message: m.clone() }),
            _ => Err(tenet::parse::YamlFault { line: None, message: "missing field".into() }),
        },
        Err(e) => Err(tenet::parse::YamlFault { line: e.location().map(|l| l.line()), message: e.to_string() }),
    };
    tenet::parse::parse(path, doc, meta)
}


fn check(path: &str, status: Status) -> CheckResult {
    CheckResult {
        mode: Mode::Full,
        change_kind: None,
        previous_path: None,
        before_hash: None,
        after_hash: None,
        contract: "c".into(),
        contract_path: "p".into(),
        contract_hash: "h".into(),
        path: path.into(),
        source_hash: None,
        example: None,
        expected: None,
        status,
        message: "m".into(),
        reason: None,
        elapsed_ms: 0,
    }
}

#[test]
fn contracts_settle_early_when_no_question_is_needed() {
    let mut s = Summary::default();
    let na = vec![check("a", Status::NotApplicable)];
    s.errors = 1;
    let r = settle_early(&s, false, Mode::Full, &na, 0, 10).unwrap();
    assert_eq!(r.status, ContractStatus::Unresolved);
    assert_eq!(r.reason, "File checks could not complete; see their errors or budget results.");
    s.errors = 0;
    let r = settle_early(&s, true, Mode::Full, &na, 0, 10).unwrap();
    assert_eq!(r.reason, "Only selected paths were checked; contract-wide coverage is incomplete.");
    let r = settle_early(&s, false, Mode::Diff, &na, 0, 10).unwrap();
    assert_eq!(r.status, ContractStatus::Unaffected);
    assert_eq!(r.reason, "No relevant changes found; base compliance is assumed.");
    assert!(r.error.is_none());
    let r = settle_early(&s, false, Mode::Diff, &vec![], 0, 10).unwrap();
    assert_eq!(r.status, ContractStatus::Unaffected);
    assert!(settle_early(&s, false, Mode::Full, &na, 0, 10).is_none());
    let r = settle_early(&s, false, Mode::Full, &na, 10, 10).unwrap();
    assert_eq!(r.status, ContractStatus::Unresolved);
    assert_eq!(r.error.as_deref(), Some("Request budget exhausted before contract assessment."));
}

#[test]
fn answers_conclude_by_mode() {
    let r = conclusion_of(Outcome::Match, None, true, "h".into());
    assert_eq!((r.status, r.reason.as_str()), (ContractStatus::Failed, "Repository evidence supports a violation."));
    assert_eq!(r.evidence_hash.as_deref(), Some("h"));
    let r = conclusion_of(Outcome::NoMatch, None, true, "h".into());
    assert_eq!(r.status, ContractStatus::Preserved);
    let r = conclusion_of(Outcome::NoMatch, None, false, "h".into());
    assert_eq!(r.status, ContractStatus::Verified);
    let r = conclusion_of(Outcome::Uncertain, Some(Uncertainty::LowConfidence), false, "h".into());
    assert_eq!(r.status, ContractStatus::Unresolved);
    assert_eq!(r.reason, "Repository assessment did not meet the model confidence threshold.");
    let r = conclusion_of(Outcome::Uncertain, Some(Uncertainty::InsufficientContext), true, "h".into());
    assert_eq!(r.reason, "Repository assessment requires context beyond the supplied scope.");
    let r = conclusion_of(Outcome::Uncertain, None, true, "h".into());
    assert_eq!(r.reason, "Repository assessment could not determine compliance.");
    let r = assessment_failed("timeout".into());
    assert_eq!((r.reason.as_str(), r.error.as_deref()), ("Repository assessment failed.", Some("timeout")));
    let r = context_unavailable("too big");
    assert_eq!(r.reason, "Repository context unavailable: too big");
}

#[test]
fn the_repository_query_follows_the_mode() {
    let q = context_query(true);
    assert!(q.starts_with("Assume the base satisfied this requirement."));
    assert!(q.contains("\nRead the whole contract, including exceptions."));
    assert!(context_query(false).starts_with("Does the resulting repository violate this requirement?"));
}

#[test]
fn evidence_sources_split_by_judgment() {
    let c = read("src/.contracts/001-api/CONTRACT.md", "---\nname: api\nmessage: m\n---\n## Rules\nr\n").unwrap();
    let walked: Vec<String> = ["README.md", "src/a.ts", "src/b.ts"].iter().map(|s| s.to_string()).collect();
    let sel = Selection { paths: vec![], base: None, contract: None };
    let p = plan("/repo".into(), vec![c], &sel, vec![], None, &walked, &vec![], None);
    let results = vec![check("src/a.ts", Status::Pass), check("src/b.ts", Status::NotApplicable)];
    let s = sources(&p, "src", &results);
    assert_eq!(s.inventory, vec!["src/a.ts".to_string(), "src/b.ts".to_string()]);
    assert!(s.changed.is_empty());
    assert_eq!(s.required, vec!["src/a.ts".to_string()]);
    assert_eq!(s.optional, vec!["src/b.ts".to_string()]);
}

#[test]
fn required_sources_must_fit_together() {
    assert!(check_required(&vec![30000, 30000]).is_ok());
    assert_eq!(check_required(&vec![30000, 30000, 10000]).unwrap_err(), "required source exceeds 64 KiB");
    assert!(check_context(65536).is_ok());
    assert_eq!(check_context(65537).unwrap_err(), "repository context exceeds 64 KiB");
}

#[test]
fn optional_sources_fill_the_budget_in_order() {
    let items = vec![Some((40000, 10)), None, Some((30000, 10)), Some((100, 10))];
    let chosen = choose_optional(1000, false, &items).unwrap();
    assert_eq!(chosen, vec![true, false, false, true]);
    assert_eq!(
        choose_optional(70000, true, &items).unwrap_err(),
        "required repository context exceeds 64 KiB; context was not truncated"
    );
}

#[test]
fn repository_conclusions_hash_their_evidence() {
    let c = tenet::conclusion::repository_conclusion(Outcome::NoMatch, None, false, b"");
    assert_eq!(c.status, ContractStatus::Verified);
    assert_eq!(
        c.evidence_hash.as_deref(),
        Some("af1349b9f5f9a1a6a0404dea36dcc9499bcb25c9adc112b7cc9a93cae41f3262")
    );
    let d = tenet::conclusion::repository_conclusion(Outcome::Match, None, true, b"{}");
    assert_eq!(d.status, ContractStatus::Failed);
    assert_eq!(d.evidence_hash.unwrap().len(), 64);
    assert!(d.error.is_none());
}
