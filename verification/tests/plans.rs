use tenet::change::Mode;
use tenet::contract::Contract;
use tenet::discovery::{check_selected, is_contract_document, order_contracts, plan, select_contracts, Changes, Selection};
use tenet::paths::{allowed, excluded_name, is_contract, join, starts_with};

/// Reads a contract document, its frontmatter read as YAML.
fn read(path: &str, doc: &str) -> Result<tenet::contract::Contract, tenet::contract::DocumentError> {
    let front = match tenet::parse::frontmatter(path, doc) {
        Ok(front) => front,
        Err(e) => return Err(e),
    };
    let meta = match serde_yaml::from_str::<std::collections::BTreeMap<String, String>>(&front) {
        Ok(map) => match (map.get("name"), map.get("message")) {
            (Some(n), Some(m)) => Ok(tenet::parse::Metadata { name: n.clone(), message: m.clone() }),
            _ => Err(tenet::parse::YamlFault { line: None, message: "missing field".into() }),
        },
        Err(e) => Err(tenet::parse::YamlFault { line: e.location().map(|l| l.line()), message: e.to_string() }),
    };
    tenet::parse::parse(path, doc, meta)
}


fn contract(path: &str, name: &str) -> Contract {
    let doc = format!("---\nname: {name}\nmessage: Keep it.\n---\n## Rules\nKeep it.\n");
    read(path, &doc).unwrap()
}

fn strings(v: &[&str]) -> Vec<String> {
    v.iter().map(|s| s.to_string()).collect()
}

#[test]
fn paths_follow_their_components() {
    assert!(starts_with("src/api/a.ts", "src"));
    assert!(starts_with("src/api/a.ts", ""));
    assert!(!starts_with("srcs/a.ts", "src"));
    assert_eq!(join("", "a.ts"), "a.ts");
    assert_eq!(join("src", "a.ts"), "src/a.ts");
    assert!(is_contract("src/.contracts/001-a/CONTRACT.md"));
    assert!(!is_contract("src/a.ts"));
    assert!(is_contract_document(".contracts/001-a/CONTRACT.md"));
    assert!(!is_contract_document(".contracts/001-a/notes.md"));
    assert!(excluded_name("node_modules"));
    assert!(excluded_name(".env.local"));
    assert!(!excluded_name("src"));
    assert!(!allowed("target/debug/a"));
    assert!(allowed("src/a.ts"));
}

#[test]
fn selected_paths_stay_in_the_project() {
    assert!(check_selected("src/a.ts").is_ok());
    assert!(check_selected("./src").is_ok());
    assert_eq!(
        check_selected("../x").unwrap_err(),
        "selected paths must be relative and stay within the project"
    );
    assert!(check_selected("/etc").is_err());
}

#[test]
fn contracts_run_by_scope_depth_then_number() {
    let cs = vec![
        contract("src/.contracts/001-inner/CONTRACT.md", "inner"),
        contract(".contracts/002-second/CONTRACT.md", "second"),
        contract(".contracts/001-first/CONTRACT.md", "first"),
    ];
    let ordered = order_contracts(cs).unwrap();
    let names: Vec<_> = ordered.iter().map(|c| c.name.as_str()).collect();
    assert_eq!(names, ["first", "second", "inner"]);
}

#[test]
fn duplicate_contracts_are_refused() {
    let cs = vec![
        contract(".contracts/001-first/CONTRACT.md", "same"),
        contract(".contracts/002-second/CONTRACT.md", "same"),
    ];
    assert_eq!(order_contracts(cs).unwrap_err(), "duplicate contract name: same");
    let cs = vec![
        contract(".contracts/001-first/CONTRACT.md", "first"),
        contract(".contracts/001-second/CONTRACT.md", "second"),
    ];
    assert!(order_contracts(cs).unwrap_err().starts_with("duplicate contract number in"));
}

#[test]
fn selection_names_one_contract_or_needs_some() {
    let cs = vec![contract(".contracts/001-first/CONTRACT.md", "first")];
    let sel = Selection { paths: vec![], base: None, contract: Some("missing".into()) };
    assert_eq!(select_contracts(cs.clone(), &sel, "/repo").unwrap_err(), "unknown contract: missing");
    let sel = Selection { paths: vec![], base: None, contract: None };
    assert_eq!(select_contracts(vec![], &sel, "/repo").unwrap_err(), "no contracts found under /repo");
    let sel = Selection { paths: vec![], base: Some("main".into()), contract: None };
    assert!(select_contracts(vec![], &sel, "/repo").unwrap().is_empty());
    let sel = Selection { paths: vec![], base: None, contract: Some("first".into()) };
    assert_eq!(select_contracts(cs, &sel, "/repo").unwrap().len(), 1);
}

#[test]
fn a_full_plan_judges_the_inventory_in_scope() {
    let cs = vec![contract("src/.contracts/001-api/CONTRACT.md", "api")];
    let walked = strings(&["README.md", "src/.contracts/001-api/CONTRACT.md", "src/a.ts", "src/b.ts"]);
    let sel = Selection { paths: vec![], base: None, contract: None };
    let p = plan("/repo".into(), cs, &sel, vec![], None, &walked, &vec![], Some("abc".into()));
    assert_eq!(p.mode, Mode::Full);
    assert_eq!(p.inventory, strings(&["README.md", "src/a.ts", "src/b.ts"]));
    assert_eq!(p.files, strings(&["src/a.ts", "src/b.ts"]));
    assert!(p.deleted.is_empty());
    assert!(!p.partial);
    assert_eq!(p.head.as_deref(), Some("abc"));
    assert_eq!(p.base, None);
}

#[test]
fn a_diff_plan_judges_changed_files_and_keeps_touched_contracts() {
    let cs = vec![
        contract(".contracts/001-root/CONTRACT.md", "root"),
        contract("lib/.contracts/001-lib/CONTRACT.md", "lib"),
        contract("src/.contracts/001-api/CONTRACT.md", "api"),
    ];
    let walked = strings(&["lib/x.ts", "src/new.ts"]);
    let changes = Changes {
        paths: vec![
            ("src/.contracts/001-api/CONTRACT.md".into(), None),
            ("src/gone.ts".into(), None),
            ("src/new.ts".into(), Some("old/name.ts".into())),
        ],
        base: "base-commit".into(),
    };
    let sel = Selection { paths: vec![], base: Some("main".into()), contract: None };
    let p = plan("/repo".into(), cs, &sel, vec![], Some(changes), &walked, &strings(&["src/gone.ts"]), None);
    assert_eq!(p.mode, Mode::Diff);
    assert_eq!(p.base.as_deref(), Some("base-commit"));
    let kept: Vec<_> = p.contracts.iter().map(|c| c.name.as_str()).collect();
    assert_eq!(kept, ["root", "api"]);
    assert_eq!(p.files, strings(&["src/gone.ts", "src/new.ts"]));
    assert_eq!(p.deleted, strings(&["src/gone.ts"]));
    assert_eq!(p.previous_paths, vec![("src/new.ts".to_string(), "old/name.ts".to_string())]);
    assert_eq!(p.contract_changes, strings(&["src/.contracts/001-api/CONTRACT.md"]));
    assert_eq!(p.previous("src/new.ts").as_deref(), Some("old/name.ts"));
    assert!(p.in_scope("src/new.ts", "old"));
}

#[test]
fn selected_paths_make_a_partial_plan() {
    let cs = vec![contract(".contracts/001-root/CONTRACT.md", "root")];
    let walked = strings(&["a.ts", "src/b.ts"]);
    let sel = Selection { paths: strings(&["src"]), base: None, contract: None };
    let p = plan("/repo".into(), cs, &sel, strings(&["src"]), None, &walked, &vec![], None);
    assert!(p.partial);
    assert_eq!(p.files, strings(&["src/b.ts"]));
}
