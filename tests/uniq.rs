use lineutils::uniq::{collapse_lines, Collapser, Config};

fn lines(v: &[&str]) -> Vec<String> {
    v.iter().map(|s| s.to_string()).collect()
}

#[test]
fn collapses_neighbouring_repeats() {
    let input = lines(&["a\n", "a\n", "b\n", "a\n", "a\n", "a\n"]);
    assert_eq!(collapse_lines(&input, false), lines(&["a\n", "b\n", "a\n"]));
}

#[test]
fn collapses_with_counts() {
    let input = lines(&["a\n", "a\n", "b\n", "a\n", "a\n", "a\n"]);
    assert_eq!(
        collapse_lines(&input, true),
        lines(&["   2 a\n", "   1 b\n", "   3 a\n"])
    );
}

#[test]
fn count_wider_than_column() {
    let input: Vec<String> = (0..12345).map(|_| "x\n".to_string()).collect();
    assert_eq!(collapse_lines(&input, true), lines(&["12345 x\n"]));
}

#[test]
fn terminator_is_ignored_when_comparing() {
    let input = lines(&["a\n", "a\r\n", "a"]);
    assert_eq!(collapse_lines(&input, true), lines(&["   3 a\n"]));
}

#[test]
fn trailing_whitespace_is_not_a_terminator() {
    let input = lines(&["a \n", "a\n"]);
    assert_eq!(collapse_lines(&input, false), lines(&["a \n", "a\n"]));
}

#[test]
fn single_line_without_terminator_is_flushed() {
    assert_eq!(collapse_lines(&lines(&["last"]), false), lines(&["last"]));
    assert_eq!(collapse_lines(&lines(&["last"]), true), lines(&["   1 last"]));
}

#[test]
fn empty_input_gives_nothing() {
    assert_eq!(collapse_lines(&vec![], true), Vec::<String>::new());
}

#[test]
fn leading_empty_line_is_kept() {
    let input = lines(&["\n", "\n", "x\n"]);
    assert_eq!(collapse_lines(&input, true), lines(&["   2 \n", "   1 x\n"]));
}

#[test]
fn collapsing_twice_changes_nothing() {
    let input = lines(&["a\n", "a\r\n", "b\n", "b\n", "c", "c\n", "a\n"]);
    let once = collapse_lines(&input, false);
    assert_eq!(collapse_lines(&once, false), once);
}

#[test]
fn streaming_matches_whole_input() {
    let mut c = Collapser::new(true);
    assert_eq!(c.push("a\n".to_string()), None);
    assert_eq!(c.push("a\n".to_string()), None);
    assert_eq!(c.repeats(), 2);
    assert_eq!(c.push("b".to_string()), Some("   2 a\n".to_string()));
    assert_eq!(c.finish(), Some("   1 b".to_string()));
}

#[test]
fn finish_without_input_gives_nothing() {
    assert_eq!(Collapser::new(false).finish(), None);
}

#[test]
fn config_holds_its_values() {
    let c = Config::new("in.txt".to_string(), Some("out.txt".to_string()), true);
    assert_eq!(c.in_file(), "in.txt");
    assert_eq!(c.out_file(), Some(&"out.txt".to_string()));
    assert!(c.count());
    let d = Config::new("-".to_string(), None, false);
    assert_eq!(d.out_file(), None);
    assert!(!d.count());
}
