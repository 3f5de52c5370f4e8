use tenet::git::{
    base_listing, base_path, base_size, base_text, check_reference, diff_paths_of, fields_of, output_text,
    relative_to, with_untracked,
};

#[test]
fn nul_separated_fields_drop_empty_runs() {
    let f = fields_of(b"M\0a.ts\0\0R100\0b\0c\0");
    let f: Vec<&[u8]> = f.iter().map(|v| v.as_slice()).collect();
    assert_eq!(f, vec![&b"M"[..], b"a.ts", b"R100", b"b", b"c"]);
    assert!(fields_of(b"").is_empty());
    assert!(fields_of(b"\0\0").is_empty());
}

#[test]
fn strip_prefix_keeps_the_rest_of_the_path() {
    assert_eq!(relative_to("/repo", "/repo/src/a.ts").as_deref(), Some("src/a.ts"));
    assert_eq!(relative_to("/repo", "/repo").as_deref(), Some(""));
    assert_eq!(relative_to("/repo/src", "/repo/lib/a.ts"), None);
    assert_eq!(relative_to("/repo", "/repository/a.ts"), None);
}

#[test]
fn diff_output_gives_changed_paths_with_renames() {
    let names = b"M\0src/a.ts\0R087\0src/old.ts\0src/new.ts\0A\0other/x.ts\0D\0src/gone.ts\0";
    let paths = diff_paths_of(names, "/top", "/top/src").unwrap();
    assert_eq!(
        paths,
        vec![
            ("a.ts".to_string(), None),
            ("gone.ts".to_string(), None),
            ("new.ts".to_string(), Some("old.ts".to_string())),
        ]
    );
}

#[test]
fn a_rename_across_the_root_keeps_the_side_inside() {
    let names = b"R100\0outside/a.ts\0src/a.ts\0R100\0src/b.ts\0outside/b.ts\0";
    let paths = diff_paths_of(names, "/top", "/top/src").unwrap();
    assert_eq!(paths, vec![("a.ts".to_string(), None), ("b.ts".to_string(), None)]);
}

#[test]
fn truncated_diff_output_is_an_error() {
    assert_eq!(diff_paths_of(b"M\0", "/top", "/top").unwrap_err(), "missing Git path");
    assert_eq!(diff_paths_of(b"R100\0a\0", "/top", "/top").unwrap_err(), "missing rename path");
    assert!(diff_paths_of(b"M\0\xff\0", "/top", "/top").is_err());
}

#[test]
fn untracked_files_join_without_replacing() {
    let paths = vec![("a.ts".to_string(), Some("z.ts".to_string()))];
    let all = with_untracked(paths, b"a.ts\0b.ts\0", "/top", "/top").unwrap();
    assert_eq!(all, vec![("a.ts".to_string(), Some("z.ts".to_string())), ("b.ts".to_string(), None)]);
}

#[test]
fn git_text_is_trimmed() {
    assert_eq!(output_text(b"abc123\n").unwrap(), "abc123");
    assert!(output_text(b"\xff").is_err());
}

#[test]
fn references_cannot_look_like_options() {
    assert!(check_reference("main").is_ok());
    assert_eq!(check_reference("--all").unwrap_err(), "Git reference cannot start with '-'");
}

#[test]
fn base_files_are_checked() {
    assert_eq!(base_path("/top", "/top/src", "a.ts").unwrap(), "src/a.ts");
    assert_eq!(base_path("/top", "/elsewhere", "a.ts").unwrap_err(), "prefix not found");
    assert_eq!(base_listing(b"", "a.ts").unwrap(), false);
    assert_eq!(base_listing(b"100644 blob 0123\ta.ts\0", "a.ts").unwrap(), true);
    assert_eq!(base_listing(b"100755 blob 0123\ta.ts\0", "a.ts").unwrap(), true);
    assert_eq!(
        base_listing(b"120000 blob 0123\ta.ts\0", "a.ts").unwrap_err(),
        "base input must be a regular file: a.ts"
    );
    assert!(base_size(b"65536\n", "a.ts").is_ok());
    assert_eq!(base_size(b"65537\n", "a.ts").unwrap_err(), "base file exceeds 64 KiB: a.ts");
    assert!(base_size(b"x\n", "a.ts").is_err());
    assert!(base_size(b"+12\n", "a.ts").is_ok());
    assert_eq!(base_size(b"1x\n", "a.ts").unwrap_err(), "invalid digit found in string");
    assert_eq!(base_size(b"\n", "a.ts").unwrap_err(), "cannot parse integer from empty string");
    assert_eq!(
        base_size(b"99999999999999999999999999\n", "a.ts").unwrap_err(),
        "number too large to fit in target type"
    );
    assert_eq!(base_text(b"fn main() {}\n", "a.rs").unwrap(), "fn main() {}\n");
    assert_eq!(base_text(b"a\0b", "a.bin").unwrap_err(), "binary base file: a.bin");
    assert_eq!(base_text(b"\xff", "a.txt").unwrap_err(), "base file is not UTF-8");
}
