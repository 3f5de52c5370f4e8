use tenet::change::{Change, ChangeKind, Mode};
use tenet::contract::{Example, ExampleChange, Verdict};
use tenet::report::{Outcome, Stage, Status, Uncertainty};
use tenet::runner::{
    budget_left, check_mode, check_options, example_change, example_path, new_check, next_stage, query, record_answer,
    record_change, record_exhausted, record_failure, Options,
};

/// Reads a contract document, its frontmatter read as YAML.
fn read(path: &str, doc: &str) -> Result<tenet::contract::Contract, tenet::contract::DocumentError> {
    let front = match tenet::parse::frontmatter(path, doc) {
        Ok(front) => front,
        Err(e) => return Err(e),
    };
    let meta = match serde_yaml::from_str::<std::collections::BTreeMap<String, String>>(&front) {
        Ok(map) => match (map.get("name"), map.get("message")) {
            (Some(n), Some(m)) => Ok(tenet::parse::Metadata { name: n.clone(), message: m.clone() }),
            _ => Err(tenet::parse::YamlFault { line: None, message: "missing field".into() }),
        },
        Err(e) => Err(tenet::parse::YamlFault { line: e.location().map(|l| l.line()), message: e.to_string() }),
    };
    tenet::parse::parse(path, doc, meta)
}


fn example(change: Option<ExampleChange>) -> Example {
    Example {
        change,
        name: "bad".into(),
        path: "a.ts".into(),
        expected: Verdict::Fail,
        source: "catch { return []; }\n".into(),
        line: 9,
    }
}

#[test]
fn a_run_needs_jobs_and_requests() {
    assert!(check_options(Options { jobs: 1, max_requests: 1 }).is_ok());
    assert_eq!(
        check_options(Options { jobs: 0, max_requests: 5 }).unwrap_err(),
        "jobs and max-requests must be positive"
    );
    assert!(check_options(Options { jobs: 4, max_requests: 0 }).is_err());
}

#[test]
fn examples_choose_their_mode_and_change() {
    let full = example(None);
    let diff = example(Some(ExampleChange { before: Some("a".into()), after: None }));
    assert_eq!(check_mode(Mode::Diff, Some(&full)), Mode::Full);
    assert_eq!(check_mode(Mode::Full, Some(&diff)), Mode::Diff);
    assert_eq!(check_mode(Mode::Diff, None), Mode::Diff);
    let c = example_change("src/a.ts".into(), &full);
    assert_eq!((c.kind, c.before, c.after.as_deref()), (ChangeKind::Added, None, Some("catch { return []; }\n")));
    let c = example_change("src/a.ts".into(), &diff);
    assert_eq!(c.kind, ChangeKind::Deleted);
    let contract = read("src/.contracts/001-api/CONTRACT.md", "---\nname: api\nmessage: m\n---\n## Rules\nr\n").unwrap();
    assert_eq!(example_path(&contract, &full), "src/a.ts");
}

#[test]
fn a_check_starts_as_an_error_and_records_its_answers() {
    let contract = read(".contracts/001-api/CONTRACT.md", "---\nname: api\nmessage: Keep it.\n---\n## Rules\nr\n").unwrap();
    let e = example(None);
    let mut r = new_check(&contract, "a.ts".into(), Some(&e), Mode::Full);
    assert_eq!(r.status, Status::Error);
    assert_eq!(r.message, "Keep it.");
    assert_eq!(r.example.as_deref(), Some("bad"));
    assert_eq!(r.expected, Some(Verdict::Fail));
    assert!(record_answer(&mut r, Stage::Applicability, Outcome::Match, None));
    assert_eq!(r.status, Status::Error);
    assert!(!record_answer(&mut r, Stage::Verification, Outcome::Uncertain, Some(Uncertainty::LowConfidence)));
    assert_eq!((r.status, r.reason.as_deref()), (Status::Uncertain, Some("low confidence")));
    assert!(!record_answer(&mut r, Stage::Applicability, Outcome::NoMatch, None));
    assert_eq!(r.status, Status::NotApplicable);
    assert!(!record_answer(&mut r, Stage::Verification, Outcome::Match, None));
    assert_eq!((r.status, r.reason.clone()), (Status::Fail, None));
    record_exhausted(&mut r);
    assert_eq!((r.status, r.reason.as_deref()), (Status::Incomplete, Some("request budget exhausted")));
    record_failure(&mut r, "boom".into());
    assert_eq!((r.status, r.reason.as_deref()), (Status::Error, Some("boom")));
    assert_eq!(next_stage(Stage::Applicability), Some(Stage::Verification));
    assert_eq!(next_stage(Stage::Verification), None);
    assert!(budget_left(9, 10));
    assert!(!budget_left(10, 10));
}

#[test]
fn recorded_changes_carry_digests() {
    let contract = read(".contracts/001-api/CONTRACT.md", "---\nname: api\nmessage: m\n---\n## Rules\nr\n").unwrap();
    let mut r = new_check(&contract, "a.ts".into(), None, Mode::Diff);
    let change = Change::new("a.ts".into(), Some("old".into()), Some("new".into())).renamed_from("b.ts".into());
    record_change(&mut r, &change, "{}");
    assert_eq!(r.change_kind, Some(ChangeKind::Renamed));
    assert_eq!(r.previous_path.as_deref(), Some("b.ts"));
    assert_eq!(r.before_hash, Some(blake3::hash(b"old").to_hex().to_string()));
    assert_eq!(r.after_hash, Some(blake3::hash(b"new").to_hex().to_string()));
    assert_eq!(r.source_hash, Some(blake3::hash(b"{}").to_hex().to_string()));
}

#[test]
fn stage_queries_carry_rules_and_applicability() {
    let contract = read(
        ".contracts/001-api/CONTRACT.md",
        "---\nname: api\nmessage: m\n---\n## Rules\nKeep errors.\n\n## Applies to\nDatabase code.\n",
    )
    .unwrap();
    let q = query(&contract, Stage::Applicability, Mode::Full);
    assert!(q.starts_with("Does this file contain code to which the requirement could apply?"));
    assert!(q.ends_with("\nRequirement:\nKeep errors.\nApplies to:\nDatabase code."));
    let plain = read(".contracts/001-api/CONTRACT.md", "---\nname: api\nmessage: m\n---\n## Rules\nKeep errors.\n").unwrap();
    let q = query(&plain, Stage::Verification, Mode::Diff);
    assert!(q.starts_with("Does this change break the requirement, assuming the base satisfied it?"));
    assert!(q.ends_with("Applies to:\nUse the requirement to determine relevance."));
    assert!(q.contains("Input is a change record; null contents mean the file does not exist on that side."));
}
