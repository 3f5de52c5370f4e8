use tenet::change::Mode;
use tenet::conclusion::{conclusion_of, context_query, settle_early};
use tenet::discovery::{plan, Selection};
use tenet::evals::{
    case_error, check_any_cases, check_expectations, check_fixture_path, check_inside, fingerprint, record_conclusion,
    redact, replace_all, select_cases, valid_case_name, Case, CaseResult, Totals,
};
use tenet::report::{ContractStatus, Outcome, Stage, Summary};
use tenet::runner::{budget_left, new_check, next_stage, query, record_answer, record_exhausted, subjects};

/// Reads a contract document, its frontmatter read as YAML.
fn read(path: &str, doc: &str) -> Result<tenet::contract::Contract, tenet::contract::DocumentError> {
    let front = match tenet::parse::frontmatter(path, doc) {
        Ok(front) => front,
        Err(e) => return Err(e),
    };
    let meta = match serde_yaml::from_str::<std::collections::BTreeMap<String, String>>(&front) {
        Ok(map) => match (map.get("name"), map.get("message")) {
            (Some(n), Some(m)) => Ok(tenet::parse::Metadata { name: n.clone(), message: m.clone() }),
            _ => Err(tenet::parse::YamlFault { line: None, message: "missing field".into() }),
        },
        Err(e) => Err(tenet::parse::YamlFault { line: e.location().map(|l| l.line()), message: e.to_string() }),
    };
    tenet::parse::parse(path, doc, meta)
}


fn case(name: &str, expect: &[(&str, ContractStatus)]) -> Case {
    Case {
        name: name.into(),
        patch: None,
        contract: None,
        context: vec![],
        split: "development".into(),
        expect: expect.iter().map(|(n, s)| (n.to_string(), *s)).collect(),
    }
}

/// The model of a fixture run: it answers `match`, and refuses any input
/// that carries an expected answer or the fixture's manifest.
fn model(query: &str, source: &str) -> Outcome {
    assert!(!query.contains("LABEL_SENTINEL") && !source.contains("LABEL_SENTINEL"), "expected answer leaked");
    assert!(!query.contains("eval.toml") && !source.contains("eval.toml"), "manifest entered model inputs");
    Outcome::Match
}

/// Runs every contract of a full plan of the fixture's base, asking the
/// model each question as a fixture case would, and scores the conclusions.
fn run_case(expect: &[(String, ContractStatus)], max_requests: usize) -> CaseResult {
    let contract = read(
        ".contracts/001-errors/CONTRACT.md",
        "---\nname: errors\nmessage: Keep failures.\n---\n## Rules\nPreserve database failures.\n",
    )
    .unwrap();
    let walked = vec![".contracts/001-errors/CONTRACT.md".to_string(), "code.ts".to_string()];
    let sel = Selection { paths: vec![], base: None, contract: None };
    let p = plan("/snapshot".into(), vec![contract], &sel, vec![], None, &walked, &vec![], None);
    let mut requests = 0usize;
    let mut total = Summary::default();
    let mut actual = Vec::new();
    for c in &p.contracts {
        let mut summary = Summary::default();
        let mut results = Vec::new();
        for path in subjects(&p, &c.scope) {
            let change = tenet::change::Change::new(path.clone(), None, Some("catch { return []; }\n".to_string()));
            let source = format!("{} {:?} {:?}", change.path, change.before, change.after);
            let mut r = new_check(c, path, None, p.mode);
            let mut stage = Some(Stage::Applicability);
            while let Some(s) = stage {
                if !budget_left(requests, max_requests) {
                    record_exhausted(&mut r);
                    break;
                }
                requests += 1;
                let answer = model(&query(c, s, r.mode), &source);
                stage = if record_answer(&mut r, s, answer, None) { next_stage(s) } else { None };
            }
            summary.add(&r);
            total.add(&r);
            results.push(r);
        }
        let conclusion = match settle_early(&summary, p.partial, p.mode, &results, requests, max_requests) {
            Some(c) => c,
            None => {
                requests += 1;
                let question = context_query(p.mode == Mode::Diff);
                let answer = model(&question, &format!("{}\n{:?}", c.body, p.inventory));
                conclusion_of(answer, None, p.mode == Mode::Diff, "evidence".into())
            }
        };
        summary.conclude(&conclusion);
        total.conclude(&conclusion);
        record_conclusion(&mut actual, c.name.clone(), conclusion.status);
    }
    let error = case_error(&total, actual.len(), expect.len());
    CaseResult { case: "fixture/case".into(), expected: expect.to_vec(), actual, error, summary: total }
}

#[test]
fn repository_cases_score_real_checks_without_sending_expectations() {
    let cases = vec![
        case("LABEL_SENTINEL", &[("errors", ContractStatus::Failed)]),
        case("mismatch", &[("errors", ContractStatus::Verified)]),
    ];
    let selected = select_cases("fixture", cases, "development", None, None).unwrap();
    assert_eq!(selected.len(), 2);
    let mut totals = Totals::default();
    for s in &selected {
        let result = run_case(&s.case.expect, 10);
        totals.add(&result);
    }
    assert_eq!((totals.matched, totals.mismatched), (1, 1));
    assert_eq!((totals.exit_code(false), totals.exit_code(true)), (0, 1));
    let limited = run_case(&selected[0].case.expect, 1);
    assert!(limited.error.is_some());
    totals.add(&limited);
    assert_eq!(totals.exit_code(false), 2);
    let contract = read(
        ".contracts/001-errors/CONTRACT.md",
        "---\nname: errors\nmessage: Keep failures.\n---\n## Rules\nPreserve database failures.\n",
    )
    .unwrap();
    let bad = vec![("missing".to_string(), ContractStatus::Verified)];
    assert!(check_expectations("fixture/bad", &vec![contract], &bad, false).is_err());
}

#[test]
fn case_selection_checks_names_and_splits() {
    assert!(valid_case_name("broken-cache_hit2"));
    assert!(!valid_case_name("bad name"));
    assert!(!valid_case_name(""));
    assert_eq!(select_cases("fx", vec![], "all", None, None).err().unwrap(), "empty fixture: fx");
    let twice = vec![case("a", &[("c", ContractStatus::Failed)]), case("a", &[("c", ContractStatus::Failed)])];
    assert_eq!(select_cases("fx", twice, "all", None, None).err().unwrap(), "duplicate case: a");
    assert_eq!(
        select_cases("fx", vec![case("a b", &[])], "all", None, None).err().unwrap(),
        "invalid case name"
    );
    let mut odd = case("a", &[("c", ContractStatus::Failed)]);
    odd.split = "test".into();
    assert_eq!(select_cases("fx", vec![odd], "all", None, None).err().unwrap(), "invalid split");
    let mut held = case("b", &[("c", ContractStatus::Failed)]);
    held.split = "heldout".into();
    let both = vec![case("a", &[("c", ContractStatus::Failed)]), held];
    let dev = select_cases("fx", both.clone(), "development", None, None).unwrap();
    assert_eq!(dev.iter().map(|s| s.id.as_str()).collect::<Vec<_>>(), ["fx/a"]);
    let all = select_cases("fx", both.clone(), "all", Some("fx/b"), None).unwrap();
    assert_eq!(all.iter().map(|s| s.id.as_str()).collect::<Vec<_>>(), ["fx/b"]);
    assert_eq!(
        select_cases("fx", vec![case("a", &[])], "all", None, None).err().unwrap(),
        "no expectations: fx/a"
    );
    assert_eq!(check_any_cases(0).unwrap_err(), "no fixture cases selected");
}

#[test]
fn one_contract_narrows_a_case() {
    let c = case("a", &[("one", ContractStatus::Failed), ("two", ContractStatus::Verified)]);
    let s = select_cases("fx", vec![c.clone()], "all", None, Some("two")).unwrap();
    assert_eq!(s[0].case.contract.as_deref(), Some("two"));
    assert_eq!(s[0].case.expect, vec![("two".to_string(), ContractStatus::Verified)]);
    assert!(select_cases("fx", vec![c], "all", None, Some("three")).unwrap().is_empty());
}

#[test]
fn expectations_must_fit_the_mode() {
    let contract = read(".contracts/001-errors/CONTRACT.md", "---\nname: errors\nmessage: m\n---\n## Rules\nr\n").unwrap();
    let cs = vec![contract];
    let verified = vec![("errors".to_string(), ContractStatus::Verified)];
    let preserved = vec![("errors".to_string(), ContractStatus::Preserved)];
    assert!(check_expectations("fx/a", &cs, &verified, false).is_ok());
    assert_eq!(
        check_expectations("fx/a", &cs, &verified, true).unwrap_err(),
        "fx/a: expectation does not match full/diff mode"
    );
    assert!(check_expectations("fx/a", &cs, &preserved, true).is_ok());
    assert!(check_expectations("fx/a", &cs, &preserved, false).is_err());
    assert_eq!(
        check_expectations("fx/a", &cs, &vec![], false).unwrap_err(),
        "fx/a: expectations must name every selected contract exactly"
    );
}

#[test]
fn fixture_inputs_stay_inside() {
    assert!(check_fixture_path("base").is_ok());
    assert!(check_fixture_path("patches/a.patch").is_ok());
    assert_eq!(check_fixture_path("../a").unwrap_err(), "fixture path must stay within its directory");
    assert!(check_fixture_path("./a").is_err());
    assert!(check_inside("/fx/base", "/fx").is_ok());
    assert_eq!(check_inside("/other", "/fx").unwrap_err(), "fixture input escapes its directory");
}

#[test]
fn results_score_their_expectations() {
    let expected = vec![("a".to_string(), ContractStatus::Failed), ("b".to_string(), ContractStatus::Verified)];
    let mut actual = Vec::new();
    record_conclusion(&mut actual, "b".into(), ContractStatus::Unresolved);
    record_conclusion(&mut actual, "a".into(), ContractStatus::Failed);
    assert_eq!(actual[0].0, "a");
    let r = CaseResult { case: "x".into(), expected: expected.clone(), actual: actual.clone(), error: None, summary: Summary::default() };
    assert!(!r.matched());
    assert_eq!(r.matches(), 1);
    record_conclusion(&mut actual, "b".into(), ContractStatus::Verified);
    let r = CaseResult { case: "x".into(), expected: expected.clone(), actual, error: None, summary: Summary::default() };
    assert!(r.matched());
    assert_eq!(r.matches(), 2);
    let e = CaseResult { case: "x".into(), expected, actual: vec![], error: Some("e".into()), summary: Summary::default() };
    assert!(!e.matched());
    assert_eq!(e.matches(), 0);
    let mut t = Totals::default();
    t.add(&r);
    t.add(&e);
    assert_eq!((t.matched, t.errors, t.expectations_matched, t.expectations_mismatched), (1, 1, 2, 0));
    assert_eq!(t.exit_code(true), 2);
    let mut s = Summary::default();
    assert_eq!(case_error(&s, 1, 2).as_deref(), Some("Missing contract conclusions."));
    s.incomplete = 1;
    assert_eq!(
        case_error(&s, 1, 1).as_deref(),
        Some("File or repository checks could not complete; see the recorded events.")
    );
}

#[test]
fn fingerprints_digest_the_parts_in_order() {
    let files = vec![("a.ts".to_string(), b"x".to_vec())];
    let hashes = vec!["h1".to_string()];
    let got = fingerprint(b"manifest", &Some("p".into()), &files, &hashes);
    assert_eq!(got, blake3::hash(b"manifestpa.tsxh1").to_hex().to_string());
    let mut hasher = blake3::Hasher::new();
    hasher.update(b"manifest");
    hasher.update(b"a.ts");
    hasher.update(b"x");
    hasher.update(b"h1");
    assert_eq!(fingerprint(b"manifest", &None, &files, &hashes), hasher.finalize().to_hex().to_string());
}

#[test]
fn secrets_are_redacted() {
    assert_eq!(replace_all("aXbXXc", "X", "[R]"), "a[R]b[R][R]c");
    assert_eq!(replace_all("aaa", "aa", "b"), "ba");
    assert_eq!(replace_all("abc", "", "z"), "abc");
    let secrets = vec!["sk-123".to_string(), String::new()];
    assert_eq!(redact("key=sk-123; again sk-123".into(), &secrets), "key=[REDACTED]; again [REDACTED]");
}

#[test]
fn selected_cases_keep_what_they_were_written_with() {
    let mut c = case("patched", &[("one", ContractStatus::Failed), ("two", ContractStatus::Preserved)]);
    c.patch = Some("patches/a.patch".into());
    c.context = vec!["src/a.ts".into(), "src/b.ts".into()];
    c.split = "heldout".into();
    let s = select_cases("fx", vec![c], "heldout", None, Some("two")).unwrap();
    assert_eq!(s[0].id, "fx/patched");
    assert_eq!(s[0].case.name, "patched");
    assert_eq!(s[0].case.patch.as_deref(), Some("patches/a.patch"));
    assert_eq!(s[0].case.context, vec!["src/a.ts".to_string(), "src/b.ts".to_string()]);
    assert_eq!(s[0].case.split, "heldout");
}

#[test]
fn each_case_gets_what_is_left_of_the_run_budget() {
    let mut totals = Totals::default();
    assert_eq!(totals.remaining(10), Ok(10));
    totals.requests = 7;
    assert_eq!(totals.remaining(10), Ok(3));
    totals.requests = 10;
    assert_eq!(totals.remaining(10).unwrap_err(), "evaluation request budget exhausted");
    assert_eq!(Totals::default().remaining(0).unwrap_err(), "evaluation request budget exhausted");
}
