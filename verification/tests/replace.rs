use replacer::error::PatternError;
use replacer::replacer::interpolated_template;
use replacer::replacer::pattern_for;
use replacer::replacer::Replacer;
use replacer::template::InvalidReplaceCapture;
use std::borrow::Cow;

fn build(look_for: &str, replace_with: &str, literal: bool, flags: Option<&str>, limit: usize) -> Replacer {
    Replacer::new(
        look_for.to_string(),
        replace_with.to_string(),
        literal,
        flags.map(|f| f.to_string()),
        limit,
    )
    .unwrap()
}

#[test]
fn literal_replaces_every_match_without_limit() {
    let r = build("foo", "bar", true, None, 0);
    assert_eq!(&*r.replace(b"foo foo foo"), b"bar bar bar");
}

#[test]
fn limit_two_leaves_third_match() {
    let r = build("foo", "bar", true, None, 2);
    assert_eq!(&*r.replace(b"foo foo foo"), b"bar bar foo");
}

#[test]
fn limit_above_total_replaces_all() {
    let r = build("foo", "bar", true, None, 7);
    assert_eq!(&*r.replace(b"foo foo foo"), b"bar bar bar");
}

#[test]
fn limit_one_replaces_leftmost_only() {
    let r = build("a", "bb", true, None, 1);
    assert_eq!(&*r.replace(b"xaxaxa"), b"xbbxaxa");
}

#[test]
fn captures_are_swapped() {
    let r = build(r"(\w+)@(\w+)", "$2@$1", false, None, 0);
    assert_eq!(&*r.replace(b"alice@example"), b"example@alice");
}

#[test]
fn named_capture_is_interpolated() {
    let r = build(r"(?P<first>\w+) (?P<second>\w+)", "${second}-$first", false, None, 0);
    assert_eq!(&*r.replace(b"one two"), b"two-one");
}

#[test]
fn capture_that_did_not_take_part_is_empty() {
    let r = build(r"a(b)?c", "[$1]", false, None, 0);
    assert_eq!(&*r.replace(b"ac abc"), b"[] [b]");
}

#[test]
fn nonexistent_capture_is_rejected() {
    let r = Replacer::new(
        r"(\w+)@(\w+)".to_string(),
        "$5".to_string(),
        false,
        None,
        0,
    );
    match r {
        Err(PatternError::InvalidReplaceCapture(e)) => {
            assert_eq!(e.start, 0);
            assert_eq!(e.end, 2);
        }
        _ => panic!("expected an invalid capture"),
    }
}

#[test]
fn unknown_name_is_rejected_at_its_offset() {
    let r = Replacer::new(
        r"(?P<word>\w+)".to_string(),
        "$word and ${other}!".to_string(),
        false,
        None,
        0,
    );
    match r {
        Err(PatternError::InvalidReplaceCapture(e)) => {
            assert_eq!((e.start, e.end), (10, 18));
        }
        _ => panic!("expected an invalid capture"),
    }
}

#[test]
fn number_followed_by_letters_is_a_name() {
    let r = Replacer::new(r"(\w+)".to_string(), "$1a".to_string(), false, None, 0);
    assert!(matches!(r, Err(PatternError::InvalidReplaceCapture(_))));
    let r = build(r"(\w+)", "${1}a", false, None, 0);
    assert_eq!(&*r.replace(b"x"), b"xa");
}

#[test]
fn literal_replacement_keeps_dollar_signs() {
    let r = build("foo", "$5 ${x} $$", true, None, 0);
    assert_eq!(&*r.replace(b"a foo"), b"a $5 ${x} $$");
}

#[test]
fn invalid_pattern_is_a_compile_error() {
    let r = Replacer::new("(".to_string(), "x".to_string(), false, None, 0);
    assert!(matches!(r, Err(PatternError::Compile(_))));
}

#[test]
fn pattern_error_comes_before_capture_error() {
    let r = Replacer::new("(".to_string(), "$9".to_string(), false, None, 0);
    assert!(matches!(r, Err(PatternError::Compile(_))));
}

#[test]
fn literal_mode_escapes_metacharacters() {
    let r = build("a.b", "X", true, None, 0);
    assert!(r.has_matches(b"a.b"));
    assert!(!r.has_matches(b"aXb"));
    assert_eq!(&*r.replace(b"aXb a.b"), b"aXb X");
    let r = build("(", "X", true, None, 0);
    assert_eq!(&*r.replace(b"f(x)"), b"fXx)");
}

#[test]
fn pattern_mode_reads_metacharacters() {
    let r = build("a.b", "X", false, None, 0);
    assert!(r.has_matches(b"aXb"));
}

#[test]
fn no_match_hands_back_the_input() {
    let r = build("zzz", "y", true, None, 0);
    let content = b"nothing to see";
    let out = r.replace(content);
    assert!(matches!(out, Cow::Borrowed(_)));
    assert_eq!(&*out, content);
    assert!(!r.has_matches(content));
    let out = r.replace_preview(content);
    assert!(matches!(out, Cow::Borrowed(_)));
}

#[test]
fn a_match_gives_a_new_buffer() {
    let r = build("a", "a", true, None, 0);
    let out = r.replace(b"banana");
    assert!(matches!(out, Cow::Owned(_)));
    assert_eq!(&*out, b"banana");
}

#[test]
fn empty_content_is_unchanged() {
    let r = build("a", "b", true, None, 0);
    assert_eq!(&*r.replace(b""), b"");
}

#[test]
fn empty_matches_are_replaced_between_bytes() {
    let r = build("x*", "-", false, None, 0);
    assert_eq!(&*r.replace(b"abc"), b"-a-b-c-");
}

#[test]
fn word_boundary_flag() {
    let r = build("cat", "dog", false, Some("w"), 0);
    assert!(r.has_matches(b"a cat sat"));
    assert!(!r.has_matches(b"category"));
    assert_eq!(&*r.replace(b"cat category cat"), b"dog category dog");
}

#[test]
fn word_boundary_flag_in_literal_mode() {
    let r = build("a.b", "X", true, Some("w"), 0);
    assert_eq!(&*r.replace(b"a.b xa.b aXb"), b"X xa.b aXb");
}

#[test]
fn case_insensitive_flag() {
    let r = build("Cat", "x", false, Some("i"), 0);
    assert!(r.has_matches(b"cat"));
    assert!(r.has_matches(b"CAT"));
    assert!(r.has_matches(b"cAt"));
    let r = build("Cat", "x", false, None, 0);
    assert!(!r.has_matches(b"cat"));
}

#[test]
fn case_flags_last_one_wins() {
    let r = build("Cat", "x", false, Some("ic"), 0);
    assert!(!r.has_matches(b"cat"));
    let r = build("Cat", "x", false, Some("ci"), 0);
    assert!(r.has_matches(b"cat"));
}

#[test]
fn word_flag_forgets_earlier_flags() {
    let r = build("Cat", "x", false, Some("iw"), 0);
    assert!(!r.has_matches(b"cat"));
    let r = build("Cat", "x", false, Some("wi"), 0);
    assert!(r.has_matches(b"cat"));
}

#[test]
fn anchors_match_each_line_by_default() {
    let r = build("^a", "x", false, None, 0);
    assert_eq!(&*r.replace(b"a\na\n"), b"x\nx\n");
    let r = build("^a", "x", false, Some("e"), 0);
    assert_eq!(&*r.replace(b"a\na\n"), b"x\na\n");
}

#[test]
fn dot_all_flag_turns_multi_line_off_unless_kept() {
    let r = build("a.b", "x", false, None, 0);
    assert!(!r.has_matches(b"a\nb"));
    let r = build("a.b", "x", false, Some("s"), 0);
    assert!(r.has_matches(b"a\nb"));
    let r = build("^b", "x", false, Some("s"), 0);
    assert!(!r.has_matches(b"a\nb"));
    let r = build("^b", "x", false, Some("sm"), 0);
    assert!(r.has_matches(b"a\nb"));
    let r = build("^b", "x", false, Some("ms"), 0);
    assert!(r.has_matches(b"a\nb"));
}

#[test]
fn word_flag_keeps_multi_line_matching() {
    let r = build("^b", "x", false, Some("w"), 0);
    assert!(r.has_matches(b"a\nb"));
    assert_eq!(&*r.replace(b"a\nb"), b"a\nx");
    let r = build("^b", "x", false, Some("ew"), 0);
    assert!(!r.has_matches(b"a\nb"));
    let r = build("^b", "x", false, Some("x"), 0);
    assert!(r.has_matches(b"a\nb"));
}

#[test]
fn word_flag_forgets_earlier_dot_all() {
    let r = build("a.b", "x", false, Some("smw"), 0);
    assert!(!r.has_matches(b"a\nb"));
    let r = build("a.b", "x", false, Some("wsm"), 0);
    assert!(r.has_matches(b"a\nb"));
}

#[test]
fn escapes_in_replacement_are_expanded() {
    let r = build("a", r"\n\t", false, None, 0);
    assert_eq!(&*r.replace(b"a"), b"\n\t");
    let r = build("a", r"\n\t", true, None, 0);
    assert_eq!(&*r.replace(b"a"), br"\n\t");
}

#[test]
fn malformed_escape_keeps_replacement_as_written() {
    let r = build("a", r"\n\q", false, None, 0);
    assert_eq!(&*r.replace(b"a"), br"\n\q");
}

#[test]
fn matching_is_on_bytes() {
    let r = build("é", "e", true, None, 0);
    assert_eq!(&*r.replace("café".as_bytes()), b"cafe");
    let r = build("b", "c", true, None, 0);
    assert_eq!(&*r.replace(b"a\xffb"), b"a\xffc");
}

#[test]
fn preview_wraps_each_replacement() {
    let r = build("foo", "bar", true, None, 2);
    assert_eq!(
        &*r.replace_preview(b"foo foo foo"),
        b"\x1b[34mbar\x1b[0m \x1b[34mbar\x1b[0m foo"
    );
}

#[test]
fn preview_without_markers_is_replace() {
    let r = build(r"(\d+)", "<$1>", false, None, 3);
    let content = b"1 22 333 4444 55555";
    let preview = r.replace_preview(content).into_owned();
    let text = String::from_utf8(preview).unwrap();
    let stripped = text.replace("\x1b[34m", "").replace("\x1b[0m", "");
    assert_eq!(stripped.as_bytes(), &*r.replace(content));
    assert_eq!(stripped, "<1> <22> <333> 4444 55555");
}

#[test]
fn replacer_is_reusable() {
    let r = build("o", "0", true, None, 1);
    assert_eq!(&*r.replace(b"foo"), b"f0o");
    assert_eq!(&*r.replace(b"boo"), b"b0o");
    assert_eq!(&*r.replace(b"foo"), b"f0o");
}

#[test]
fn pattern_text_is_escaped_in_literal_mode() {
    assert_eq!(pattern_for("a.b".to_string(), true, false), r"a\.b");
    assert_eq!(pattern_for("a.b".to_string(), false, false), "a.b");
    assert_eq!(pattern_for("a.b".to_string(), true, true), r"\ba\.b\b");
    assert_eq!(pattern_for("cat".to_string(), false, true), r"\bcat\b");
    assert_eq!(
        pattern_for(r"\.+*?()|[]{}^$#&-~ é%".to_string(), true, false),
        r"\\\.\+\*\?\(\)\|\[\]\{\}\^\$\#\&\-\~ é%"
    );
}

#[test]
fn interpolated_template_is_checked_then_expanded() {
    let groups = vec![None, Some(b"word".to_vec())];
    assert_eq!(
        interpolated_template(br"$1\t${word}".to_vec(), &groups),
        Ok(b"$1\t${word}".to_vec())
    );
    assert_eq!(
        interpolated_template(br"$1\q".to_vec(), &groups),
        Ok(br"$1\q".to_vec())
    );
    assert_eq!(
        interpolated_template(br"\n$2".to_vec(), &groups),
        Err(InvalidReplaceCapture { start: 2, end: 4 })
    );
}

#[test]
fn group_zero_is_the_whole_match() {
    let r = build("b+", "[$0]", false, None, 0);
    assert_eq!(&*r.replace(b"abbbc"), b"a[bbb]c");
}

#[test]
fn doubled_dollar_is_a_dollar() {
    let r = build("x", "$$1", false, None, 0);
    assert_eq!(&*r.replace(b"x"), b"$1");
}

fn without_markers(preview: &[u8]) -> Vec<u8> {
    let mut out = Vec::new();
    let mut rest = preview;
    while !rest.is_empty() {
        if rest.starts_with(b"\x1b[34m") {
            rest = &rest[5..];
        } else if rest.starts_with(b"\x1b[0m") {
            rest = &rest[4..];
        } else {
            out.push(rest[0]);
            rest = &rest[1..];
        }
    }
    out
}

#[test]
fn preview_strips_to_replace_beside_stray_escape_bytes() {
    let r = build("foo", "m", true, None, 0);
    let content = b"\x1b[0foo \x1b foo\x1b[3";
    let preview = r.replace_preview(content).into_owned();
    assert_eq!(preview, b"\x1b[0\x1b[34mm\x1b[0m \x1b \x1b[34mm\x1b[0m\x1b[3".to_vec());
    assert_eq!(r.replace(content).into_owned(), b"\x1b[0m \x1b m\x1b[3".to_vec());
    assert_eq!(without_markers(&preview), r.replace(content).into_owned());
}

#[test]
fn marker_in_the_content_is_lost_with_the_markers() {
    let r = build("foo", "bar", true, None, 0);
    let content = b"\x1b[0m foo";
    let preview = r.replace_preview(content).into_owned();
    assert_eq!(without_markers(&preview), b" bar".to_vec());
    assert_eq!(&*r.replace(content), b"\x1b[0m bar");
}
