use m3u_parser::M3uLine;
use m3u_parser::parse;

#[test]
fn empty_input_yields_nothing() {
    let (rem, lines) = parse("");
    assert_eq!(rem, "");
    assert!(lines.is_empty());
}

#[test]
fn blank_lines_yield_nothing() {
    let (rem, lines) = parse("\n\r\n\n");
    assert_eq!(rem, "");
    assert!(lines.is_empty());
}

#[test]
fn whitespace_blank_lines_yield_nothing() {
    let (rem, lines) = parse("   \n\t \r\n");
    assert_eq!(rem, "");
    assert!(lines.is_empty());
}

#[test]
fn header_directive_without_params() {
    let (rem, lines) = parse("#EXTM3U\n");
    assert_eq!(rem, "");
    assert_eq!(lines, vec![M3uLine::Directive("EXTM3U", None)]);
}

#[test]
fn directive_with_params_then_location() {
    let (rem, lines) = parse("#EXTINF:10,Title\nhttp://x/a.ts\n");
    assert_eq!(rem, "");
    assert_eq!(
        lines,
        vec![
            M3uLine::Directive("EXTINF", Some("10,Title")),
            M3uLine::Location("http://x/a.ts"),
        ]
    );
}

#[test]
fn comment_line_contributes_nothing() {
    let (rem, lines) = parse("# just a comment\nhttp://y/b.ts\n");
    assert_eq!(rem, "");
    assert_eq!(lines, vec![M3uLine::Location("http://y/b.ts")]);
}

#[test]
fn lower_case_hash_line_is_not_a_directive() {
    let (rem, lines) = parse("#extm3u\n");
    assert_eq!(rem, "");
    // the fallback chosen here: an unrecognized `#` line is a comment,
    // discarded entirely — in particular it is never Directive("extm3u")
    assert!(lines.is_empty());
}

#[test]
fn mixed_case_hash_line_is_not_a_directive() {
    let (rem, lines) = parse("#Extm3u\n");
    assert_eq!(rem, "");
    assert!(lines.is_empty());
}

#[test]
fn end_of_input_terminates_a_location() {
    let (rem, lines) = parse("http://z/c.ts");
    assert_eq!(rem, "");
    assert_eq!(lines, vec![M3uLine::Location("http://z/c.ts")]);
}

#[test]
fn end_of_input_terminates_a_directive() {
    let (rem, lines) = parse("#EXTM3U");
    assert_eq!(rem, "");
    assert_eq!(lines, vec![M3uLine::Directive("EXTM3U", None)]);
}

#[test]
fn params_may_be_empty() {
    let (rem, lines) = parse("#EXT-X-ENDLIST:\n");
    assert_eq!(rem, "");
    assert_eq!(lines, vec![M3uLine::Directive("EXT-X-ENDLIST", Some(""))]);
}

#[test]
fn name_takes_digits_and_hyphens() {
    let (rem, lines) = parse("#EXT-X-VERSION:3\n");
    assert_eq!(rem, "");
    assert_eq!(lines, vec![M3uLine::Directive("EXT-X-VERSION", Some("3"))]);
}

#[test]
fn params_keep_later_colons() {
    let (rem, lines) = parse("#EXTINF:a:b=\"c:d\"\n");
    assert_eq!(rem, "");
    assert_eq!(lines, vec![M3uLine::Directive("EXTINF", Some("a:b=\"c:d\""))]);
}

#[test]
fn carriage_return_linefeed_ends_lines() {
    let (rem, lines) = parse("#EXTM3U\r\nhttp://a/1.ts\r\n");
    assert_eq!(rem, "");
    assert_eq!(
        lines,
        vec![M3uLine::Directive("EXTM3U", None), M3uLine::Location("http://a/1.ts")]
    );
}

#[test]
fn bare_hash_line_is_a_comment() {
    let (rem, lines) = parse("#\nhttp://a/1.ts\n");
    assert_eq!(rem, "");
    assert_eq!(lines, vec![M3uLine::Location("http://a/1.ts")]);
}

#[test]
fn directive_name_followed_by_space_is_a_comment() {
    let (rem, lines) = parse("#EXTM3U extra\n");
    assert_eq!(rem, "");
    assert!(lines.is_empty());
}

#[test]
fn leading_whitespace_is_stripped_from_every_line_kind() {
    let (rem, lines) = parse("  #EXTINF:x\n\t http://a/1.ts\n");
    assert_eq!(rem, "");
    assert_eq!(
        lines,
        vec![M3uLine::Directive("EXTINF", Some("x")), M3uLine::Location("http://a/1.ts")]
    );
}

#[test]
fn lone_carriage_return_stops_classification() {
    let (rem, lines) = parse("a\rb\n");
    assert_eq!(rem, "a\rb\n");
    assert!(lines.is_empty());
}

#[test]
fn records_before_an_unclassifiable_line_are_kept() {
    let (rem, lines) = parse("http://a/1.ts\nx\ry\n");
    assert_eq!(rem, "x\ry\n");
    assert_eq!(lines, vec![M3uLine::Location("http://a/1.ts")]);
}

#[test]
fn trailing_whitespace_without_line_break_is_left_over() {
    let (rem, lines) = parse("http://a/1.ts\n   ");
    assert_eq!(rem, "   ");
    assert_eq!(lines, vec![M3uLine::Location("http://a/1.ts")]);
}

#[test]
fn non_ascii_content_is_kept_verbatim() {
    let (rem, lines) = parse("média/épisode.ts\n");
    assert_eq!(rem, "");
    assert_eq!(lines, vec![M3uLine::Location("média/épisode.ts")]);
}

#[test]
fn locations_round_trip_through_reconstruction() {
    let input = "#EXTM3U\n#EXTINF:10,One\nhttp://x/a.ts\n# note\n\nsegments/b.ts\r\nc.ts";
    let (_, lines) = parse(input);
    let locs: Vec<&str> = lines
        .iter()
        .filter_map(|l| match l {
            M3uLine::Location(t) => Some(*t),
            M3uLine::Directive(_, _) => None,
        })
        .collect();
    assert_eq!(locs, vec!["http://x/a.ts", "segments/b.ts", "c.ts"]);
    let mut rebuilt = String::new();
    for t in &locs {
        rebuilt.push_str(t);
        rebuilt.push('\n');
    }
    let (rem, reparsed) = parse(&rebuilt);
    assert_eq!(rem, "");
    let relocs: Vec<&str> = reparsed
        .iter()
        .filter_map(|l| match l {
            M3uLine::Location(t) => Some(*t),
            M3uLine::Directive(_, _) => None,
        })
        .collect();
    assert_eq!(reparsed.len(), relocs.len());
    assert_eq!(locs, relocs);
}
