use hls_fetch::playlist::{classify, is_directive, join, parse_playlist, split_lines, PlaylistLine};
use hls_fetch::text::{find_first, find_tail_start, push_chars, to_chars, to_string};

#[test]
fn to_chars_keeps_every_character() {
    assert_eq!(to_chars("a/b?c"), vec!['a', '/', 'b', '?', 'c']);
    assert_eq!(to_chars(""), Vec::<char>::new());
    assert_eq!(to_chars("é→x"), vec!['é', '→', 'x']);
}

#[test]
fn to_string_takes_the_range() {
    let chars = to_chars("segment.ts");
    assert_eq!(to_string(&chars, 0, 7), "segment");
    assert_eq!(to_string(&chars, 8, 10), "ts");
    assert_eq!(to_string(&chars, 3, 3), "");
}

#[test]
fn push_chars_appends_the_range() {
    let chars = to_chars("abcdef");
    let mut out = String::from("x");
    push_chars(&mut out, &chars, 2, 5);
    assert_eq!(out, "xcde");
}

#[test]
fn find_first_gives_first_position_or_end() {
    let chars = to_chars("a?b?c");
    assert_eq!(find_first(&chars, 0, 5, '?'), 1);
    assert_eq!(find_first(&chars, 2, 5, '?'), 3);
    assert_eq!(find_first(&chars, 4, 5, '?'), 5);
    assert_eq!(find_first(&chars, 0, 1, '?'), 1);
}

#[test]
fn find_tail_start_gives_position_behind_last() {
    let chars = to_chars("a/b/c");
    assert_eq!(find_tail_start(&chars, 0, 5, '/'), 4);
    assert_eq!(find_tail_start(&chars, 0, 3, '/'), 2);
    assert_eq!(find_tail_start(&chars, 0, 1, '/'), 0);
    assert_eq!(find_tail_start(&chars, 0, 4, '/'), 4);
}

#[test]
fn directive_starts_with_hash() {
    assert!(is_directive("#EXTM3U"));
    assert!(is_directive("#"));
    assert!(!is_directive("seg1.ts"));
    assert!(!is_directive(" #EXTINF"));
    assert!(!is_directive(""));
}

#[test]
fn split_lines_on_line_feeds() {
    assert_eq!(split_lines("#EXTM3U\nseg1.ts\nseg2.ts\n"), vec!["#EXTM3U", "seg1.ts", "seg2.ts"]);
    assert_eq!(split_lines("a\nb"), vec!["a", "b"]);
}

#[test]
fn split_lines_drops_carriage_return_before_line_feed() {
    assert_eq!(split_lines("a\r\nb\r\n"), vec!["a", "b"]);
    assert_eq!(split_lines("a\r\r\nb"), vec!["a\r", "b"]);
}

#[test]
fn split_lines_keeps_lone_carriage_return_at_the_end() {
    assert_eq!(split_lines("a\nb\r"), vec!["a", "b\r"]);
}

#[test]
fn split_lines_keeps_empty_lines_inside() {
    assert_eq!(split_lines("a\n\nb\n"), vec!["a", "", "b"]);
    assert_eq!(split_lines("\n"), vec![""]);
    assert_eq!(split_lines("\n\n"), vec!["", ""]);
}

#[test]
fn split_lines_of_empty_text_is_empty() {
    assert_eq!(split_lines(""), Vec::<String>::new());
}

#[test]
fn split_lines_agrees_with_std() {
    let samples = [
        "",
        "\n",
        "\r",
        "\r\n",
        "a",
        "a\n",
        "a\r\n",
        "a\r",
        "a\n\r",
        "a\r\r\n",
        "\n\na\n\n",
        "#EXTM3U\r\n#EXTINF:4,\r\nseg.ts?x=1\r\n",
        "x\ny\nz",
        "é\nü\r\n→",
    ];
    for text in samples {
        let expected: Vec<String> = text.lines().map(|l| l.to_string()).collect();
        assert_eq!(split_lines(text), expected, "text {:?}", text);
    }
}

#[test]
fn join_puts_line_feeds_between_lines() {
    assert_eq!(join(&vec!["a".to_string(), "b".to_string(), "c".to_string()]), "a\nb\nc");
    assert_eq!(join(&vec!["a".to_string()]), "a");
    assert_eq!(join(&Vec::new()), "");
    assert_eq!(join(&vec!["".to_string(), "".to_string()]), "\n");
}

#[test]
fn join_agrees_with_std() {
    let lines = vec!["#EXTM3U".to_string(), "file:///d/a.ts".to_string(), "".to_string()];
    assert_eq!(join(&lines), lines.join("\n"));
}

#[test]
fn classify_tags_by_first_character() {
    assert!(matches!(classify("#EXTM3U".to_string()), PlaylistLine::Directive(s) if s == "#EXTM3U"));
    assert!(matches!(classify("a.ts".to_string()), PlaylistLine::SegmentReference(s) if s == "a.ts"));
    assert!(matches!(classify(String::new()), PlaylistLine::SegmentReference(s) if s.is_empty()));
    assert_eq!(classify("a.ts?x".to_string()).raw_line(), "a.ts?x");
    assert_eq!(classify("#x".to_string()).raw_line(), "#x");
}

#[test]
fn parse_playlist_keeps_order_and_tags() {
    let lines = parse_playlist("#EXTM3U\r\n#EXTINF:4,\r\nseg1.ts?tok=a\r\n#EXT-X-ENDLIST");
    assert_eq!(lines.len(), 4);
    assert!(matches!(&lines[0], PlaylistLine::Directive(s) if s == "#EXTM3U"));
    assert!(matches!(&lines[1], PlaylistLine::Directive(s) if s == "#EXTINF:4,"));
    assert!(matches!(&lines[2], PlaylistLine::SegmentReference(s) if s == "seg1.ts?tok=a"));
    assert!(matches!(&lines[3], PlaylistLine::Directive(s) if s == "#EXT-X-ENDLIST"));
    assert!(parse_playlist("").is_empty());
}
