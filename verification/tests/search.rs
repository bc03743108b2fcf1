use claw::search::{resolve_base, split_lines, FoundFile, GlobTool, GrepSearch, GrepTarget, GrepTool};
use claw::tasks::Timestamp;

fn at(secs: i64, nanos: u32) -> Timestamp {
    Timestamp { secs, nanos }
}

#[test]
fn paths_join_like_std() {
    assert_eq!(resolve_base("/a", Some("b")), "/a/b");
    assert_eq!(resolve_base("/a/", Some("b")), "/a/b");
    assert_eq!(resolve_base("", Some("b")), "b");
    assert_eq!(GlobTool::full_pattern("/a", "/b"), "/b");
    assert_eq!(resolve_base("/cwd", Some("src")), "/cwd/src");
    assert_eq!(resolve_base("/cwd", Some("/abs")), "/abs");
    assert_eq!(resolve_base("/cwd", None), "/cwd");
    assert_eq!(GlobTool::full_pattern("/cwd", "**/*.rs"), "/cwd/**/*.rs");
    assert_eq!(GrepTool::walk_pattern("/cwd", None), "/cwd/**/*");
    assert_eq!(GrepTool::walk_pattern("/cwd", Some("*.rs")), "/cwd/**/*.rs");
}

#[test]
fn grep_searches_a_file_path_itself() {
    match GrepTool::target("/cwd/src/main.rs", Some("*.md"), true) {
        GrepTarget::File(f) => assert_eq!(f, "/cwd/src/main.rs"),
        other => panic!("unexpected {:?}", other),
    }
    match GrepTool::target("/cwd/src", None, false) {
        GrepTarget::Walk(w) => assert_eq!(w, "/cwd/src/**/*"),
        other => panic!("unexpected {:?}", other),
    }
    let p = match GrepTool::compile("foo", false) {
        Ok(p) => p,
        Err(_) => panic!("pattern should compile"),
    };
    let mut g = GrepSearch::new();
    g.scan_file("/cwd/src/main.rs", "bar\nfoo\n", &p);
    assert_eq!(g.render().content, "/cwd/src/main.rs:2:foo");
}

#[test]
fn glob_lists_newest_first_stably() {
    let files = vec![
        FoundFile { path: "old".to_string(), modified: at(10, 0) },
        FoundFile { path: "new".to_string(), modified: at(30, 0) },
        FoundFile { path: "mid1".to_string(), modified: at(20, 5) },
        FoundFile { path: "mid2".to_string(), modified: at(20, 5) },
        FoundFile { path: "mid0".to_string(), modified: at(20, 4) },
    ];
    let out = GlobTool::render(files);
    assert!(!out.is_error);
    assert_eq!(out.content, "new\nmid1\nmid2\nmid0\nold");
    assert_eq!(GlobTool::render(vec![]).content, "(no matches)");
    let e = GlobTool::pattern_error("Pattern syntax error near position 1");
    assert!(e.is_error);
    assert_eq!(e.content, "invalid glob pattern: Pattern syntax error near position 1");
}

#[test]
fn lines_split_like_str_lines() {
    for text in ["", "a", "a\n", "a\nb", "a\r\nb\r\n", "\n\n", "a\rb", "x\r", "\r\n"] {
        let want: Vec<String> = text.lines().map(String::from).collect();
        assert_eq!(split_lines(text), want, "text {:?}", text);
    }
}

#[test]
fn grep_reports_matches_with_line_numbers() {
    let p = match GrepTool::compile("fo+", false) {
        Ok(p) => p,
        Err(_) => panic!("pattern should compile"),
    };
    let mut g = GrepSearch::new();
    g.scan_file("/x/a.txt", "foo\nbar\nxfoo\n", &p);
    g.scan_file("/x/b.txt", "FOO\n", &p);
    let out = g.render();
    assert_eq!(out.content, "/x/a.txt:1:foo\n/x/a.txt:3:xfoo");
    let ci = match GrepTool::compile("fo+", true) {
        Ok(p) => p,
        Err(_) => panic!("pattern should compile"),
    };
    let mut g = GrepSearch::new();
    g.scan_file("b", "FOO", &ci);
    assert_eq!(g.render().content, "b:1:FOO");
    assert_eq!(GrepSearch::new().render().content, "(no matches)");
}

#[test]
fn grep_invalid_regex() {
    match GrepTool::compile("(", false) {
        Err(o) => {
            assert!(o.is_error);
            assert!(o.content.starts_with("invalid regex: "));
            assert!(o.content.len() > "invalid regex: ".len());
        },
        Ok(_) => panic!("should not compile"),
    }
}

#[test]
fn grep_caps_at_five_hundred() {
    let p = match GrepTool::compile("x", false) {
        Ok(p) => p,
        Err(_) => panic!(),
    };
    let content = "x\n".repeat(300);
    let mut g = GrepSearch::new();
    g.scan_file("a", &content, &p);
    assert!(!g.is_capped());
    g.scan_file("b", &content, &p);
    assert!(g.is_capped());
    g.scan_file("c", &content, &p);
    let out = g.render().content;
    let lines: Vec<&str> = out.lines().collect();
    assert_eq!(lines.len(), 501);
    assert_eq!(lines[299], "a:300:x");
    assert_eq!(lines[499], "b:200:x");
    assert_eq!(lines[500], "(truncated at 500 matches)");
}

#[test]
fn tool_metadata() {
    assert_eq!(GlobTool.name(), "glob");
    assert_eq!(GrepTool.name(), "grep");
    assert!(GlobTool.is_read_only() && GrepTool.is_read_only());
    let s: serde_json::Value = serde_json::from_str(GrepTool.input_schema()).unwrap();
    assert_eq!(s["required"][0], "pattern");
    let s: serde_json::Value = serde_json::from_str(GlobTool.input_schema()).unwrap();
    assert_eq!(s["properties"]["path"]["type"], "string");
}
