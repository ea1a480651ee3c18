use hls_fetch::error::PipelineError;
use hls_fetch::resolver::{local_filename_of, resolve};

#[test]
fn resolve_plain_line() {
    let seg = resolve("https://host/path", "seg1.ts").unwrap();
    assert_eq!(seg.raw_line, "seg1.ts");
    assert_eq!(seg.fetch_url, "https://host/path/seg1.ts");
    assert_eq!(seg.local_filename, "seg1.ts");
}

#[test]
fn resolve_keeps_query_in_url_and_strips_it_from_name() {
    let seg = resolve("https://host/path", "seg1.ts?tok=a").unwrap();
    assert_eq!(seg.raw_line, "seg1.ts?tok=a");
    assert_eq!(seg.fetch_url, "https://host/path/seg1.ts?tok=a");
    assert_eq!(seg.local_filename, "seg1.ts");
    assert!(seg.fetch_url.ends_with("?tok=a"));
    assert!(!seg.local_filename.contains('?'));
}

#[test]
fn resolve_takes_last_path_component() {
    let seg = resolve("https://host", "720p/part/seg9.ts?e=1&h=ab/cd").unwrap();
    assert_eq!(seg.fetch_url, "https://host/720p/part/seg9.ts?e=1&h=ab/cd");
    assert_eq!(seg.local_filename, "seg9.ts");
}

#[test]
fn resolve_splits_on_first_question_mark() {
    let seg = resolve("b", "a.ts?x=1?y=2").unwrap();
    assert_eq!(seg.local_filename, "a.ts");
    assert_eq!(seg.fetch_url, "b/a.ts?x=1?y=2");
}

#[test]
fn resolve_always_puts_one_separator() {
    let seg = resolve("https://host/path/", "seg.ts").unwrap();
    assert_eq!(seg.fetch_url, "https://host/path//seg.ts");
    let seg = resolve("", "seg.ts").unwrap();
    assert_eq!(seg.fetch_url, "/seg.ts");
}

#[test]
fn resolve_rejects_line_without_name() {
    for line in ["", "?tok=a", "dir/", "dir/?tok=a", "/", "a/b/?x"] {
        match resolve("https://host", line) {
            Err(PipelineError::ReferenceMalformed { line: l }) => assert_eq!(l, line),
            other => panic!("line {:?} gave {:?}", line, other),
        }
    }
}

#[test]
fn local_filename_of_lines() {
    assert_eq!(local_filename_of("seg.ts"), Some("seg.ts".to_string()));
    assert_eq!(local_filename_of("a/b/seg.ts?k=v"), Some("seg.ts".to_string()));
    assert_eq!(local_filename_of("a/b/"), None);
    assert_eq!(local_filename_of(""), None);
    assert_eq!(local_filename_of("?"), None);
    assert_eq!(local_filename_of("x?/y"), Some("x".to_string()));
}

#[test]
fn resolve_rejects_parent_directory_as_name() {
    for line in ["..", "a/..", "..?x", "a/b/..?tok=1", "/.."] {
        match resolve("https://host", line) {
            Err(PipelineError::ReferenceMalformed { line: l }) => assert_eq!(l, line),
            other => panic!("line {:?} gave {:?}", line, other),
        }
        assert_eq!(local_filename_of(line), None);
    }
}

#[test]
fn resolve_rejects_current_directory_as_name() {
    for line in [".", "x/.", ".?x", "a/b/.?tok=1"] {
        match resolve("https://host", line) {
            Err(PipelineError::ReferenceMalformed { line: l }) => assert_eq!(l, line),
            other => panic!("line {:?} gave {:?}", line, other),
        }
        assert_eq!(local_filename_of(line), None);
    }
}

#[test]
fn resolve_accepts_names_that_only_start_with_dots() {
    for (line, name) in [
        ("...", "..."),
        ("..a", "..a"),
        ("a..", "a.."),
        (".hidden.ts", ".hidden.ts"),
        ("../seg.ts?t=1", "seg.ts"),
        ("./seg.ts", "seg.ts"),
        (".a", ".a"),
        ("a.", "a."),
    ] {
        let seg = resolve("https://host", line).unwrap();
        assert_eq!(seg.local_filename, name);
        assert_eq!(seg.fetch_url, format!("https://host/{}", line));
    }
}
