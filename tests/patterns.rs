use shrx::{char_in_impl, Pattern};

fn compile_rx(r: &str, ok: bool) -> bool {
    let rx = Pattern::new(r);
    match rx {
        Ok(_) => ok,
        Err(_) => !ok,
    }
}

fn match_rx(rx: &str, s: &str, ok: bool) -> bool {
    let p = Pattern::new(rx);
    match p {
        Ok(p) => {
            let m = p.check(s);
            match m {
                Some(_) => ok,
                None => !ok,
            }
        }
        Err(_) => false,
    }
}

fn match_groups(rx: &str, s: &str, groups: &[&str]) -> bool {
    match_byte_groups(rx, s, &groups.iter().map(|g| g.as_bytes()).collect::<Vec<_>>())
}

fn match_byte_groups(rx: &str, s: &str, groups: &[&[u8]]) -> bool {
    let p = Pattern::new(rx).unwrap();
    let m = p.check(s).unwrap();

    if groups.len() != m.group_count() {
        println!("GROUP LEN: {} {}", groups.len(), m.group_count());
        return false;
    }

    for i in 0..groups.len() {
        if groups[i] != m.group(i).as_slice() {
            println!("GROUP[{}]: {:?} {:?}", i, groups[i], m.group(i));
            return false;
        }
    }

    true
}

fn parse_error_message(rx: &str) -> String {
    match Pattern::new(rx) {
        Ok(_) => panic!("pattern {:?} compiled", rx),
        Err(e) => e.description().to_string(),
    }
}

#[test]
fn test_compile() {
    assert!(compile_rx("", true));
    assert!(compile_rx("asd*def.xxx", true));
    assert!(compile_rx("asd*[1-2].xxx", true));
    assert!(compile_rx("asd*\\[1-2.xxx", true));
    assert!(compile_rx("asd*[1-2.xxx", false));
}

#[test]
fn test_match() {
    assert!(match_rx("ab", "ab", true));
    assert!(match_rx("a*b", "ab", true));
    assert!(match_rx("a*b", "acb", true));
    assert!(match_rx("a*b", "accccccccccb", true));

    assert!(match_rx("a[c-e]b", "acb", true));
    assert!(match_rx("a[c-e]b", "adb", true));
    assert!(match_rx("a[c-e]b", "aeb", true));
    assert!(match_rx("a[c-e]b", "aab", false));
    assert!(match_rx("a[c-e]b", "afb", false));

    assert!(match_rx("a?b", "a$b", true));

    assert!(match_rx("a*b?x", "acccb$x", true));
}

#[test]
fn test_match_group() {
    assert!(match_groups("a*b", "acccb", &["ccc"]));
    assert!(match_groups("a*b?x", "acccb$x", &["ccc", "$"]));
    assert!(match_groups("a*b[0-9]x", "acccb4x", &["ccc", "4"]));
}

#[test]
fn test_char_in() {
    assert!(!char_in_impl(&[], 3));
    assert!(!char_in_impl(&[1], 0));
    assert!(char_in_impl(&[1], 1));
    assert!(!char_in_impl(&[1], 2));
    assert!(!char_in_impl(&[1, 2, 3], 0));
    assert!(char_in_impl(&[1, 2, 3], 1));
    assert!(char_in_impl(&[1, 2, 3], 2));
    assert!(char_in_impl(&[1, 2, 3], 3));
    assert!(!char_in_impl(&[1, 2, 3], 4));
}

#[test]
fn compiling_twice_matches_alike() {
    let a = Pattern::new("x*[a-c]?y").unwrap();
    let b = Pattern::new("x*[a-c]?y").unwrap();
    for s in ["xby!y", "xy", "xaay", "xzzcqy", "xcy", ""] {
        let ra = a.check(s).map(|m| (0..m.group_count()).map(|i| m.group(i).clone()).collect::<Vec<_>>());
        let rb = b.check(s).map(|m| (0..m.group_count()).map(|i| m.group(i).clone()).collect::<Vec<_>>());
        assert_eq!(ra, rb);
    }
}

#[test]
fn plain_pattern_matches_only_itself() {
    let p = Pattern::new("report.txt").unwrap();
    assert_eq!(p.check("report.txt").unwrap().group_count(), 0);
    assert!(p.check("report.tx").is_none());
    assert!(p.check("report.txt2").is_none());
    assert!(p.check("Report.txt").is_none());
    assert!(p.check("").is_none());
}

#[test]
fn empty_pattern_matches_only_empty_input() {
    let p = Pattern::new("").unwrap();
    assert_eq!(p.check("").unwrap().group_count(), 0);
    assert!(p.check("a").is_none());
    assert!(p.check(" ").is_none());
}

#[test]
fn literal_match_has_no_captures() {
    let p = Pattern::new("ab").unwrap();
    assert_eq!(p.check("ab").unwrap().group_count(), 0);
}

#[test]
fn star_captures_the_run_between_literals() {
    assert!(match_groups("a*b", "acb", &["c"]));
    assert!(match_groups("a*b", "accccccccccb", &["cccccccccc"]));
    assert!(match_groups("a*b", "ab", &[""]));
}

#[test]
fn any_char_captures_one_byte() {
    assert!(match_groups("a?b", "a$b", &["$"]));
    assert!(!match_rx("a?b", "ab", true));
    assert!(!match_rx("a?b", "a$$b", true));
}

#[test]
fn star_takes_the_shortest_run_that_lets_the_rest_match() {
    assert!(match_groups("a*b*", "abab", &["", "ab"]));
    assert!(match_groups("a*b", "aabab", &["aba"]));
    assert!(match_groups("*-*", "a-b-c", &["a", "b-c"]));
}

#[test]
fn star_at_the_end_takes_the_rest() {
    assert!(match_groups("a*", "abc", &["bc"]));
    assert!(match_groups("*", "", &[""]));
    assert!(match_groups("**", "xy", &["", "xy"]));
}

#[test]
fn matching_is_anchored_at_both_ends() {
    assert!(!match_rx("b", "abc", true));
    assert!(!match_rx("ab", "abc", true));
    assert!(!match_rx("bc", "abc", true));
}

#[test]
fn negated_set_matches_bytes_outside_it() {
    assert!(match_groups("a[^c-e]b", "afb", &["f"]));
    assert!(!match_rx("a[^c-e]b", "adb", true));
    assert!(!match_rx("a[^c-e]b", "ab", true));
}

#[test]
fn empty_set_matches_no_byte_and_its_negation_every_byte() {
    assert!(!match_rx("[]", "a", true));
    assert!(!match_rx("[]", "", true));
    assert!(match_groups("[^]", "a", &["a"]));
    assert!(match_groups("[^]", "]", &["]"]));
}

#[test]
fn set_lists_bytes_and_ranges() {
    assert!(match_groups("[xa-cz]", "b", &["b"]));
    assert!(match_groups("[xa-cz]", "x", &["x"]));
    assert!(match_groups("[xa-cz]", "z", &["z"]));
    assert!(!match_rx("[xa-cz]", "y", true));
    assert!(!match_rx("[xa-cz]", "d", true));
}

#[test]
fn set_with_repeated_and_overlapping_items() {
    assert!(match_groups("[aab-da-b]", "c", &["c"]));
    assert!(!match_rx("[aab-da-b]", "e", true));
}

#[test]
fn minus_before_closing_bracket_is_a_member() {
    assert!(match_groups("[a-]", "-", &["-"]));
    assert!(match_groups("[a-]", "a", &["a"]));
    assert!(!match_rx("[a-]", "b", true));
}

#[test]
fn reversed_range_is_empty() {
    assert!(!match_rx("[e-a]", "c", true));
    assert!(!match_rx("[e-a]", "a", true));
}

#[test]
fn range_up_to_the_last_byte_value() {
    let p = Pattern::new("[\u{7f}-\u{ff}]").unwrap();
    // '\u{ff}' is the two bytes C3 BF, so the set is 0x7f..=0xC3 with 0xBF
    assert!(p.check("\u{7f}").is_some());
    assert!(p.check("a").is_none());
}

#[test]
fn escaped_bytes_are_literal() {
    assert!(match_rx("a\\*b", "a*b", true));
    assert!(!match_rx("a\\*b", "axb", true));
    assert!(match_rx("\\?", "?", true));
    assert!(!match_rx("\\?", "x", true));
    assert!(match_rx("\\[x]", "[x]", true));
    assert!(match_rx("\\\\", "\\", true));
}

#[test]
fn escaped_set_items() {
    assert!(match_groups("[\\]]", "]", &["]"]));
    assert!(match_groups("[\\^a]", "^", &["^"]));
    assert!(match_groups("[\\--/]", ".", &["."]));
}

#[test]
fn escaped_range_end_is_the_byte_after_the_backslash() {
    assert!(match_groups("[a-\\c]", "b", &["b"]));
    assert!(match_groups("[a-\\c]", "c", &["c"]));
    assert!(!match_rx("[a-\\c]", "d", true));
    assert!(!match_rx("[a-\\c]", "]", true));
}

#[test]
fn zero_byte_can_be_a_set_member() {
    assert!(match_groups("[\u{0}a]", "\u{0}", &["\u{0}"]));
    assert!(match_groups("[\u{0}a]", "a", &["a"]));
}

#[test]
fn matching_works_on_bytes() {
    assert!(!match_rx("?", "\u{e9}", true));
    assert!(match_byte_groups("??", "\u{e9}", &[&[0xc3], &[0xa9]]));
    assert!(match_byte_groups("*\u{e9}", "x\u{e9}", &[b"x"]));
}

#[test]
fn dangling_escape_is_an_error() {
    assert_eq!(parse_error_message("ab\\"), "Unexpected end of string");
}

#[test]
fn unterminated_set_is_an_error() {
    assert_eq!(parse_error_message("["), "Unexpected end of string");
    assert_eq!(parse_error_message("[^"), "Unexpected end of string");
    assert_eq!(parse_error_message("[ab"), "Unexpected end of string");
    assert_eq!(parse_error_message("asd*[1-2.xxx"), "Unexpected end of string");
    assert_eq!(parse_error_message("[\\"), "Unexpected end of string");
    assert_eq!(parse_error_message("[\\]"), "Unexpected end of string");
}

#[test]
fn unterminated_range_is_an_error() {
    assert_eq!(parse_error_message("[a-"), "Unexpected end of string");
    assert_eq!(parse_error_message("[a-\\"), "Unexpected end of string");
    assert_eq!(parse_error_message("[a-b"), "Unexpected end of string");
}

#[test]
fn parse_error_keeps_its_message() {
    let e = shrx::ParseError::from("bad pattern");
    assert_eq!(e.description(), "bad pattern");
}

#[test]
fn pattern_renders_as_text() {
    let p = Pattern::new("a*b[0-9]x").unwrap();
    assert_eq!(p.to_string(), "a*b[0123456789]x");
    let q = Pattern::new("?[^a-c-]\\*z").unwrap();
    assert_eq!(q.to_string(), "?[^-abc]*z");
    assert_eq!(q.render(), b"?[^-abc]*z".to_vec());
    assert_eq!(Pattern::new("").unwrap().to_string(), "");
}

#[test]
fn captures_render_as_text() {
    let p = Pattern::new("a*b?x").unwrap();
    let m = p.check("acccb$x").unwrap();
    assert_eq!(m.to_string(), "M[ 'ccc' '$' ]");
    let e = Pattern::new("ab").unwrap().check("ab").unwrap();
    assert_eq!(e.to_string(), "M[ ]");
}

#[test]
fn rendering_replaces_bytes_that_are_not_utf8() {
    let p = Pattern::new("??").unwrap();
    let m = p.check("\u{e9}").unwrap();
    assert_eq!(m.render(), b"M[ '\xc3' '\xa9' ]".to_vec());
    assert_eq!(m.to_string(), "M[ '\u{fffd}' '\u{fffd}' ]");
    let s = Pattern::new("[\u{e9}]").unwrap();
    assert_eq!(s.to_string(), "[\u{fffd}\u{fffd}]");
}
