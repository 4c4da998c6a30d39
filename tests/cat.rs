use lineutils::cat::{Config, ConfigError, NumberMode, Numberer};

fn run(n: &mut Numberer, input: &[&str]) -> Vec<String> {
    input.iter().map(|l| n.number(l)).collect()
}

#[test]
fn plain_passes_lines_through() {
    let mut n = Numberer::new(NumberMode::Plain);
    assert_eq!(run(&mut n, &["a", "", "b"]), vec!["a", "", "b"]);
    assert_eq!(n.next_number(), 1);
}

#[test]
fn number_all_counts_every_line() {
    let mut n = Numberer::new(NumberMode::NumberAll);
    let out = run(&mut n, &["a", "", "b"]);
    assert_eq!(out, vec!["     1\ta", "     2\t", "     3\tb"]);
    assert_eq!(out.len(), 3);
}

#[test]
fn number_nonblank_skips_empty_lines() {
    let mut n = Numberer::new(NumberMode::NumberNonBlank);
    let out = run(&mut n, &["a", "", "b", "", "c"]);
    assert_eq!(out, vec!["     1\ta", "", "     2\tb", "", "     3\tc"]);
}

#[test]
fn number_nonblank_numbers_whitespace_only_lines() {
    let mut n = Numberer::new(NumberMode::NumberNonBlank);
    assert_eq!(run(&mut n, &[" "]), vec!["     1\t "]);
}

#[test]
fn wide_numbers_are_not_cut() {
    let mut n = Numberer::new(NumberMode::NumberAll);
    for _ in 0..999_999 {
        n.number("x");
    }
    assert_eq!(n.number("y"), "1000000\ty");
}

#[test]
fn numbering_continues_across_sources() {
    // One numberer serves every source of a run: the second source does not
    // start again at 1.
    let mut n = Numberer::new(NumberMode::NumberAll);
    let first = run(&mut n, &["a", "b"]);
    let second = run(&mut n, &["c"]);
    assert_eq!(first, vec!["     1\ta", "     2\tb"]);
    assert_eq!(second, vec!["     3\tc"]);
}

#[test]
fn config_selects_mode() {
    let files = vec!["-".to_string()];
    assert_eq!(Config::new(files.clone(), false, false).unwrap().mode(), NumberMode::Plain);
    assert_eq!(Config::new(files.clone(), true, false).unwrap().mode(), NumberMode::NumberAll);
    let c = Config::new(files.clone(), false, true).unwrap();
    assert_eq!(c.mode(), NumberMode::NumberNonBlank);
    assert_eq!(c.files(), &files);
}

#[test]
fn config_rejects_both_modes() {
    let r = Config::new(vec!["-".to_string()], true, true);
    assert_eq!(r.unwrap_err(), ConfigError::ConflictingModes);
}
