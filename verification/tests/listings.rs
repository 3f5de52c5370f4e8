use tenet::change::Change;
use tenet::discovery::{plan, Selection};
use tenet::listing::{
    check_context_path, check_context_size, check_contract_file, contracts_for, dry_run_lines, first_time, selection_base,
    validated, view_contract,
};

/// Reads a contract document, its frontmatter read as YAML.
fn read(path: &str, doc: &str) -> Result<tenet::contract::Contract, tenet::contract::DocumentError> {
    let front = match tenet::parse::frontmatter(path, doc) {
        Ok(front) => front,
        Err(e) => return Err(e),
    };
    let meta = match serde_yaml::from_str::<std::collections::BTreeMap<String, String>>(&front) {
        Ok(map) => match (map.get("name"), map.get("message")) {
            (Some(n), Some(m)) => Ok(tenet::parse::Metadata { name: n.clone(), message: m.clone() }),
            _ => Err(tenet::parse::YamlFault { line: None, message: "missing field".into() }),
        },
        Err(e) => Err(tenet::parse::YamlFault { line: e.location().map(|l| l.line()), message: e.to_string() }),
    };
    tenet::parse::parse(path, doc, meta)
}


fn contracts() -> Vec<tenet::contract::Contract> {
    vec![
        read(".contracts/001-root/CONTRACT.md", "---\nname: root\nmessage: m\n---\n## Rules\nr\n").unwrap(),
        read("src/.contracts/001-api/CONTRACT.md", "---\nname: api\nmessage: m\n---\n## Rules\nr\n").unwrap(),
    ]
}

#[test]
fn validation_counts_contracts() {
    assert_eq!(validated(&contracts()).unwrap(), "2 contracts valid");
    assert_eq!(validated(&vec![]).unwrap_err(), "no contracts found");
}

#[test]
fn lists_show_the_contracts_that_cover_a_path() {
    let cs = contracts();
    assert_eq!(
        contracts_for(&cs, None).unwrap(),
        vec!["root  .contracts/001-root/CONTRACT.md".to_string(), "api  src/.contracts/001-api/CONTRACT.md".to_string()]
    );
    assert_eq!(contracts_for(&cs, Some("lib/a.ts")).unwrap(), vec!["root  .contracts/001-root/CONTRACT.md".to_string()]);
    assert_eq!(contracts_for(&cs, Some("src/a.ts")).unwrap().len(), 2);
    assert_eq!(contracts_for(&cs, Some("../x")).unwrap_err(), "--for path must be relative to the project root");
    let shown = view_contract(&cs, "api").unwrap();
    assert!(shown.starts_with("src/.contracts/001-api/CONTRACT.md\n\n---\nname: api"));
    assert_eq!(view_contract(&cs, "nope").unwrap_err(), "unknown contract");
}

#[test]
fn dry_runs_list_contract_and_file_pairs() {
    let walked: Vec<String> = ["a.ts", "src/b.ts"].iter().map(|s| s.to_string()).collect();
    let sel = Selection { paths: vec![], base: None, contract: None };
    let p = plan("/repo".into(), contracts(), &sel, vec![], None, &walked, &vec![], None);
    assert_eq!(
        dry_run_lines(&p),
        vec!["root  a.ts".to_string(), "root  src/b.ts".to_string(), "api  src/b.ts".to_string()]
    );
    assert_eq!(selection_base(true, Some("main".into())).as_deref(), Some("HEAD"));
    assert_eq!(selection_base(false, Some("main".into())).as_deref(), Some("main"));
}

#[test]
fn context_files_are_checked() {
    assert!(check_context_path("src/a.ts").is_ok());
    assert_eq!(
        check_context_path("../a.ts").unwrap_err(),
        "context paths must be repository source files: ../a.ts"
    );
    assert!(check_context_path(".contracts/001-root/CONTRACT.md").is_err());
    assert!(check_context_path("node_modules/x.js").is_err());
    let mut seen = Vec::new();
    assert!(first_time(&mut seen, "b"));
    assert!(first_time(&mut seen, "a"));
    assert!(!first_time(&mut seen, "b"));
    assert_eq!(seen, vec!["a".to_string(), "b".to_string()]);
    let walked: Vec<String> = vec![];
    let sel = Selection { paths: vec![], base: None, contract: None };
    let mut p = plan("/repo".into(), contracts(), &sel, vec![], None, &walked, &vec![], None);
    assert_eq!(
        p.add_context(Change::new("gone.ts".into(), None, None)).unwrap_err(),
        "context file does not exist: gone.ts"
    );
    assert!(p.add_context(Change::new("x.ts".into(), None, Some("x".into()))).is_ok());
    assert_eq!(p.context.len(), 1);
    assert!(check_context_size(65536).is_ok());
    assert_eq!(check_context_size(65537).unwrap_err(), "supplementary context exceeds 64 KiB");
    assert_eq!(check_contract_file("a", false, 1).unwrap_err(), "contract must be a regular file: a");
    assert_eq!(check_contract_file("a", true, 65537).unwrap_err(), "contract too large: a");
    assert!(check_contract_file("a", true, 65536).is_ok());
}
