use leva::common::tools::files::{
    accept_workspace_path, resolve_within, components, file_write_message, listing_entry, not_found_message, outside_workspace_message,
    name_order, names_le, path_starts_with,
};
use leva::common::tools::memory::{
    daily_append, is_md_file, listing, md_file_name, md_files_sorted, reference_not_found,
    reference_written, sanitize, search_report, soul_report, topic_not_found, topic_written,
    SearchFile,
};
use leva::common::tools::registry::{
    is_local_tool, local_tool_names, parse_call, result_text, str_arg, get_tools_schema, ToolArg,
    ToolCall,
};

fn arg(k: &str, v: &str) -> ToolArg {
    ToolArg { key: k.to_string(), value: Some(v.to_string()) }
}

#[test]
fn local_tools_listed_in_order() {
    let names = local_tool_names();
    assert_eq!(names.len(), 12);
    assert_eq!(names[0], "file_read");
    assert_eq!(names[11], "reference_search");
    assert!(is_local_tool("memory_topic_list"));
    assert!(!is_local_tool("gmail_inbox"));
    assert!(!is_local_tool(""));
}

#[test]
fn string_arguments() {
    let args = vec![arg("path", "a.txt"), ToolArg { key: "n".into(), value: None }, arg("path", "b.txt")];
    assert_eq!(str_arg(&args, "path"), "b.txt");
    assert_eq!(str_arg(&args, "n"), "");
    assert_eq!(str_arg(&args, "missing"), "");
}

#[test]
fn parse_known_calls() {
    match parse_call("file_write", &vec![arg("path", "p"), arg("content", "c")]).unwrap() {
        ToolCall::FileWrite { path, content } => {
            assert_eq!(path, "p");
            assert_eq!(content, "c");
        }
        other => panic!("unexpected {:?}", other),
    }
    match parse_call("memory_topic_read", &vec![]).unwrap() {
        ToolCall::MemoryTopicRead { topic } => assert_eq!(topic, ""),
        other => panic!("unexpected {:?}", other),
    }
    assert!(matches!(parse_call("soul_read", &vec![]).unwrap(), ToolCall::SoulRead));
    assert!(matches!(parse_call("reference_list", &vec![]).unwrap(), ToolCall::ReferenceList));
}

#[test]
fn parse_unknown_tool_is_error() {
    match parse_call("web_search", &vec![]) {
        Err(e) => assert_eq!(e, "Error: unknown local tool 'web_search'"),
        Ok(c) => panic!("unexpected {:?}", c),
    }
}

#[test]
fn results_as_text() {
    assert_eq!(result_text(Ok("done".into())), "done");
    assert_eq!(result_text(Err("boom".into())), "Error: boom");
}

#[test]
fn tool_schemas() {
    let specs = get_tools_schema();
    assert_eq!(specs.len(), 20);
    assert_eq!(specs[0].name, "file_read");
    assert_eq!(specs[19].name, "web_research");
    for s in &specs {
        let v: serde_json::Value = serde_json::from_str(s.parameters).unwrap();
        assert_eq!(v["type"], "object");
        for r in v["required"].as_array().cloned().unwrap_or_default() {
            assert!(v["properties"].get(r.as_str().unwrap()).is_some(), "{} requires {r}", s.name);
        }
    }
    for (i, n) in local_tool_names().iter().enumerate() {
        assert_eq!(specs[i].name, *n);
    }
}

#[test]
fn sanitize_names() {
    assert_eq!(sanitize("  My Topic! "), "my-topic");
    assert_eq!(sanitize("../etc/passwd"), "etcpasswd");
    assert_eq!(sanitize("!!!"), "untitled");
    assert_eq!(sanitize(""), "untitled");
    assert_eq!(sanitize("a_b-C 1"), "a_b-c-1");
    assert_eq!(md_file_name("Rust Notes"), "rust-notes.md");
}

#[test]
fn sanitize_is_idempotent() {
    for name in ["  My Topic! ", "../etc/passwd", "!!!", "", "a_b-C 1", "Hello World\t", "x.y/z"] {
        let once = sanitize(name);
        assert!(!once.is_empty());
        assert!(once
            .chars()
            .all(|c| c.is_ascii_lowercase() || c.is_ascii_digit() || c == '-' || c == '_'));
        assert_eq!(sanitize(&once), once);
    }
}

#[test]
fn markdown_files() {
    assert!(is_md_file("a.md"));
    assert!(!is_md_file(".md"));
    assert!(!is_md_file("a.txt"));
    assert!(!is_md_file("md"));
    let v = md_files_sorted(vec!["b.md".into(), "x.txt".into(), "a.md".into()]);
    assert_eq!(v, vec!["a.md".to_string(), "b.md".to_string()]);
}

#[test]
fn listings() {
    let (text, stems) = listing(vec!["zeta.md".into(), "notes.txt".into(), "alpha.md".into()], "no topics");
    assert_eq!(text, "alpha\nzeta");
    assert_eq!(stems, vec!["alpha".to_string(), "zeta".to_string()]);
    let (empty, none) = listing(vec!["x.txt".into()], "no topics");
    assert_eq!(empty, "no topics");
    assert!(none.is_empty());
}

#[test]
fn daily_log_entries() {
    assert_eq!(daily_append("", false, "2024-01-02", "first"), "# 2024-01-02\n\n- first\n");
    assert_eq!(
        daily_append("# 2024-01-02\n\n- first\n", true, "2024-01-02", "second"),
        "# 2024-01-02\n\n- first\n- second\n"
    );
}

#[test]
fn line_search_ignores_case() {
    let files = vec![
        SearchFile { rel: "2024-01-01.md".into(), text: "Met Alice\nbought milk\n".into() },
        SearchFile { rel: "topics/people.md".into(), text: "alice likes tea".into() },
    ];
    assert_eq!(
        search_report(&files, "ALICE"),
        "2024-01-01.md: Met Alice\ntopics/people.md: alice likes tea"
    );
    assert_eq!(search_report(&files, "zebra"), "no matches");
    assert_eq!(search_report(&vec![], "x"), "no matches");
}

#[test]
fn soul_prompt() {
    assert_eq!(soul_report(&vec![]), "empty soul");
    let files = vec![
        SearchFile { rel: "AGENTS.md".into(), text: "a".into() },
        SearchFile { rel: "USER.md".into(), text: "u".into() },
    ];
    assert_eq!(soul_report(&files), "--- AGENTS.md ---\na\n\n--- USER.md ---\nu");
}

#[test]
fn reports() {
    assert_eq!(topic_written("rust.md"), "wrote topic: rust.md");
    assert_eq!(reference_written("doc.md"), "wrote reference: doc.md");
    assert_eq!(topic_not_found("Rust"), "topic 'Rust' not found");
    assert_eq!(reference_not_found("doc"), "reference 'doc' not found");
    assert_eq!(file_write_message("notes/a.txt", "héllo"), "wrote 6 chars to notes/a.txt");
}

fn comps(s: &str) -> Vec<String> {
    components(s).into_iter().map(|c| c.into_iter().collect()).collect()
}

#[test]
fn path_components_as_std() {
    for p in ["/a/b", "/a//b/./c/", "./x/../y", ".", "a/b", "", "/", "..", "./", "a/./b"] {
        let std: Vec<String> = std::path::Path::new(p)
            .components()
            .map(|c| c.as_os_str().to_string_lossy().to_string())
            .collect();
        assert_eq!(comps(p), std, "components of {p:?}");
    }
}

#[test]
fn workspace_check() {
    assert!(path_starts_with("/work/space/a.txt", "/work/space"));
    assert!(path_starts_with("/work/space", "/work/space/"));
    assert!(!path_starts_with("/work/spaceship/a", "/work/space"));
    assert!(!path_starts_with("/etc/passwd", "/work/space"));
    assert!(!path_starts_with("work/space/a", "/work/space"));
    // an unresolved `..` is a component like any other
    assert!(path_starts_with("/work/space/../x", "/work/space"));
    for (p, b) in [("/a/b/c", "/a/b"), ("/a/bc", "/a/b"), ("a", ""), ("./a", "a"), ("/a/./b", "/a/b")] {
        assert_eq!(
            path_starts_with(p, b),
            std::path::Path::new(p).starts_with(b),
            "{p:?} under {b:?}"
        );
    }
}

#[test]
fn file_reports() {
    assert_eq!(outside_workspace_message(), "path outside workspace");
    assert_eq!(not_found_message("docs"), "not found: docs");
    assert_eq!(listing_entry("src", true), "src/");
    assert_eq!(listing_entry("a.txt", false), "a.txt");
}

#[test]
fn workspace_paths_resolved_lexically() {
    let r = |b: &str, p: &str| resolve_within(b, p);
    assert_eq!(r("/w", "a/../b"), Some("/w/b".to_string()));
    assert_eq!(r("/w", "a/./b/"), Some("/w/a/b".to_string()));
    assert_eq!(r("/w", "."), Some("/w".to_string()));
    assert_eq!(r("/w/", "notes.md"), Some("/w/notes.md".to_string()));
    assert_eq!(r("/w", "x/../../w/y"), Some("/w/y".to_string()));
    assert_eq!(r("/w", "/w/q"), Some("/w/q".to_string()));
    // leaving the workspace, even to a file that does not exist yet
    assert_eq!(r("/w", "../x/new.txt"), None);
    assert_eq!(r("/w", "a/../../x"), None);
    assert_eq!(r("/w", "/etc/passwd"), None);
    assert_eq!(r("/", "../.."), Some("/".to_string()));
}

#[test]
fn workspace_path_on_disk() {
    // the file exists, inside the workspace
    assert_eq!(accept_workspace_path("/w", Some("/w/real/a".into()), ""), Some("/w/real/a".to_string()));
    // a new file under an existing directory of the workspace
    assert_eq!(accept_workspace_path("/w", Some("/w/docs".into()), "new/x.txt"), Some("/w/docs/new/x.txt".to_string()));
    // a link that leads out of the workspace, to the file or to a directory above it
    assert_eq!(accept_workspace_path("/w", Some("/etc/passwd".into()), ""), None);
    assert_eq!(accept_workspace_path("/w", Some("/tmp/outside".into()), "new.txt"), None);
    // a dangling link
    assert_eq!(accept_workspace_path("/w", None, "new.txt"), None);
    // what is below the existing part cannot climb back out of it
    assert_eq!(accept_workspace_path("/w", Some("/w/docs".into()), "../../x"), None);
}

#[test]
fn entries_in_byte_order() {
    assert!(names_le(&b"a".to_vec(), &b"b".to_vec()));
    assert!(names_le(&b"ab".to_vec(), &b"ab".to_vec()));
    assert!(names_le(&b"ab".to_vec(), &b"abc".to_vec()));
    assert!(!names_le(&b"abc".to_vec(), &b"ab".to_vec()));
    assert!(names_le(&b"Z".to_vec(), &b"a".to_vec()));
    let names: Vec<Vec<u8>> = ["notes.md", "B", "a", "notes", "a", "\u{e9}", "z"]
        .iter()
        .map(|s| s.as_bytes().to_vec())
        .collect();
    assert_eq!(name_order(&names), vec![1, 2, 4, 3, 0, 6, 5]);
    assert_eq!(name_order(&Vec::new()), Vec::<usize>::new());
}
