use tenet::contract::Verdict;

/// Reads a contract document, its frontmatter read as YAML.
fn read(path: &str, doc: &str) -> Result<tenet::contract::Contract, tenet::contract::DocumentError> {
    let front = match tenet::parse::frontmatter(path, doc) {
        Ok(front) => front,
        Err(e) => return Err(e),
    };
    let meta = match serde_yaml::from_str::<std::collections::BTreeMap<String, String>>(&front) {
        Ok(map) => match (map.get("name"), map.get("message")) {
            (Some(n), Some(m)) => Ok(tenet::parse::Metadata { name: n.clone(), message: m.clone() }),
            _ => Err(tenet::parse::YamlFault { line: None, message: "missing field".into() }),
        },
        Err(e) => Err(tenet::parse::YamlFault { line: e.location().map(|l| l.line()), message: e.to_string() }),
    };
    tenet::parse::parse(path, doc, meta)
}


const DOC: &str = "---\nname: errors\nmessage: Keep failures.\n---\n## Rules\nPreserve database failures.\n";

#[test]
fn parse_reads_a_contract() {
    let c = read(".contracts/001-errors/CONTRACT.md", DOC).unwrap();
    assert_eq!(c.name, "errors");
    assert_eq!(c.message, "Keep failures.");
    assert_eq!(c.number, 1);
    assert_eq!(c.scope, "");
    assert_eq!(c.path, ".contracts/001-errors/CONTRACT.md");
    assert_eq!(c.rules, "Preserve database failures.");
    assert_eq!(c.body, "## Rules\nPreserve database failures.");
    assert_eq!(c.applies_to, None);
    assert!(c.examples.is_empty());
    assert_eq!(c.rules_line, 6);
    assert_eq!((c.rules_span.start, c.rules_span.end), (54, 81));
    assert_eq!(&DOC[c.rules_span.clone()], c.rules);
    assert_eq!(c.hash.len(), 64);
    assert_eq!(c.hash, blake3::hash(DOC.as_bytes()).to_hex().to_string());
    assert_eq!(c.document, DOC);
}

#[test]
fn parse_places_a_nested_contract_in_its_scope() {
    let c = read("src/api/.contracts/012-api-errors/CONTRACT.md", &DOC.replace("errors\n", "api-errors\n")).unwrap();
    assert_eq!(c.scope, "src/api");
    assert_eq!(c.number, 12);
    assert_eq!(c.name, "api-errors");
}

#[test]
fn parse_reads_applies_to_and_examples() {
    let doc = "---\nname: errors\nmessage: Keep failures.\n---\n## Rules\nKeep them.\n\n## Applies to\nDatabase code.\n\n## Examples\n\n```ts tenet:example name=bad expect=fail path=src/a.ts\ncatch { return []; }\n```\n";
    let c = read(".contracts/001-errors/CONTRACT.md", doc).unwrap();
    assert_eq!(c.rules, "Keep them.");
    assert_eq!(c.applies_to.as_deref(), Some("Database code."));
    assert_eq!(c.examples.len(), 1);
    let e = &c.examples[0];
    assert_eq!(e.name, "bad");
    assert_eq!(e.expected, Verdict::Fail);
    assert_eq!(e.path, "src/a.ts");
    assert_eq!(e.source, "catch { return []; }\n");
    assert_eq!(e.line, 13);
    assert!(e.change.is_none());
}

fn error_of(path: &str, doc: &str) -> (usize, String) {
    let e = read(path, doc).err().expect("an error");
    assert_eq!(e.path, path);
    (e.line, e.message)
}

#[test]
fn parse_refuses_misplaced_documents() {
    assert_eq!(error_of("CONTRACT.md", DOC).1, "contract requires .contracts");
    assert_eq!(error_of("notes/CONTRACT.md", DOC).1, "expected .contracts/NNN-name/CONTRACT.md");
    assert_eq!(error_of(".contracts/errors/CONTRACT.md", DOC).1, "contract directory requires NNN-name");
    assert_eq!(error_of(".contracts/01-errors/CONTRACT.md", DOC).1, "contract number needs at least three digits");
    assert_eq!(
        error_of(".contracts/000-errors/CONTRACT.md", DOC).1,
        "contract directory must be NNN-kebab-case with a positive number"
    );
    assert_eq!(
        error_of(".contracts/001-Errors/CONTRACT.md", DOC).1,
        "contract directory must be NNN-kebab-case with a positive number"
    );
}

#[test]
fn parse_refuses_bad_frontmatter() {
    let p = ".contracts/001-errors/CONTRACT.md";
    assert_eq!(error_of(p, "## Rules\nx\n"), (1, "contract requires YAML frontmatter".to_string()));
    assert_eq!(error_of(p, "---"), (1, "missing frontmatter".to_string()));
    assert_eq!(error_of(p, "---\nname: errors\n"), (1, "unclosed YAML frontmatter".to_string()));
    assert_eq!(
        error_of(p, "---\nname: Errors\nmessage: m\n---\n## Rules\nx\n"),
        (1, "name must be lowercase kebab-case".to_string())
    );
    assert_eq!(
        error_of(p, "---\nname: errors\nmessage: '  '\n---\n## Rules\nx\n"),
        (1, "message must not be empty".to_string())
    );
}

#[test]
fn frontmatter_errors_keep_the_readers_line() {
    let p = ".contracts/001-errors/CONTRACT.md";
    let doc = "---\nname: errors\nmessage: m\nowner: me\n---\n## Rules\nx\n";
    assert_eq!(tenet::parse::frontmatter(p, doc).unwrap(), "name: errors\nmessage: m\nowner: me\n");
    let fault = tenet::parse::YamlFault {
        line: Some(3),
        message: "unknown field `owner`, expected `name` or `message` at line 3 column 1".into(),
    };
    let e = tenet::parse::parse(p, doc, Err(fault)).err().unwrap();
    assert_eq!(e.line, 4);
    assert_eq!(e.message, "unknown field `owner`, expected `name` or `message` at line 3 column 1");
    let fault = tenet::parse::YamlFault { line: None, message: "missing field `message`".into() };
    assert_eq!(tenet::parse::parse(p, doc, Err(fault)).err().unwrap().line, 2);
    let listed = "---\nname: errors\nmessage: m\nowner: [me]\n---\n## Rules\nx\n";
    assert_eq!(read(p, listed).err().unwrap().line, 4);
    assert_eq!(
        tenet::parse::frontmatter(p, "## Rules\n").err().unwrap().message,
        "contract requires YAML frontmatter"
    );
}

#[test]
fn parse_refuses_an_empty_body() {
    let e = read(".contracts/001-errors/CONTRACT.md", "---\nname: errors\nmessage: m\n---\n  \n").err().unwrap();
    assert_eq!(e.message, "contract body must not be empty");
    assert_eq!(e.line, 1);
}

#[test]
fn parse_refuses_an_oversized_document() {
    let big = format!("{DOC}{}", "x".repeat(70_000));
    assert_eq!(error_of(".contracts/001-errors/CONTRACT.md", &big).1, "contract exceeds 65536 bytes");
}

#[test]
fn document_errors_describe_their_place() {
    let e = read(".contracts/001-errors/CONTRACT.md", "---").err().unwrap();
    assert_eq!(e.describe(), ".contracts/001-errors/CONTRACT.md:1: missing frontmatter");
}

#[test]
fn change_examples_give_before_and_after() {
    let doc = "---\nname: errors\nmessage: m\n---\n## Rules\nKeep them.\n\n## Examples\n\n```json tenet:change expect=fail path=src/a.ts name=swallowed\n{\"before\": \"throw e;\\n\", \"after\": \"return [];\\n\"}\n```\n";
    let c = read(".contracts/001-errors/CONTRACT.md", doc).unwrap();
    let e = &c.examples[0];
    assert_eq!(e.name, "swallowed");
    let change = e.change.as_ref().unwrap();
    assert_eq!(change.before.as_deref(), Some("throw e;\n"));
    assert_eq!(change.after.as_deref(), Some("return [];\n"));
    let deleted = doc.replace("\"after\": \"return [];\\n\"", "\"after\": null");
    let c = read(".contracts/001-errors/CONTRACT.md", &deleted).unwrap();
    assert_eq!(c.examples[0].change.as_ref().unwrap().after, None);
    let odd = doc.replace("\"after\"", "\"later\"");
    assert_eq!(read(".contracts/001-errors/CONTRACT.md", &odd).err().unwrap().message, "unknown change field: later");
    let empty = doc.replace("{\"before\": \"throw e;\\n\", \"after\": \"return [];\\n\"}", "{}");
    assert_eq!(
        read(".contracts/001-errors/CONTRACT.md", &empty).err().unwrap().message,
        "change example needs before or after"
    );
    let broken = doc.replace("{\"before\"", "{before");
    assert!(read(".contracts/001-errors/CONTRACT.md", &broken).err().unwrap().message.starts_with("invalid change example: "));
}

#[test]
fn nested_headings_and_indented_code_are_not_structure() {
    let p = ".contracts/001-errors/CONTRACT.md";
    let doc = "---\nname: errors\nmessage: m\n---\n## Rules\nKeep them.\n\n> ## Applies to\n> quoted\n\n- ## Examples\n\n    ts tenet:example name=x expect=fail path=a.ts\n";
    let c = read(p, doc).unwrap();
    assert_eq!(c.applies_to, None);
    assert!(c.examples.is_empty());
    assert!(c.rules.starts_with("Keep them."));
    let fenced = "---\nname: errors\nmessage: m\n---\n## Rules\nKeep them.\n\n```ts tenet:example name=x expect=fail path=a.ts\nx\n```\n";
    assert_eq!(read(p, fenced).err().unwrap().message, "Tenet examples belong in ## Examples");
}

#[test]
fn digests_are_blake3_in_lowercase_hex() {
    assert_eq!(
        tenet::parse::digest_hex(b""),
        "af1349b9f5f9a1a6a0404dea36dcc9499bcb25c9adc112b7cc9a93cae41f3262"
    );
    assert_eq!(
        tenet::parse::digest_hex(b"abc"),
        "6437b3ac38465133ffb63b75273a8db548c558465d79db03fd359c6cd5bd9d85"
    );
}
