use zgrep::config::Config;
use zgrep::error::{list_error, read_error, FileProblem, GrepError, ListFailure, ReadFailure};
use zgrep::text::{decimal_string, paint, Color};
use zgrep::utils::{
    contains_chars, count_matches, format_match, get_matches, scan, split_lines, sum_counts,
    MatchRecord,
};
use zgrep::walk::{collect_shallow, DirEntry, WalkStep, Walker};
use zgrep::{Grep, SearchMode};

fn args(v: &[&str]) -> Vec<String> {
    v.iter().map(|s| s.to_string()).collect()
}

fn s(x: &str) -> String {
    x.to_string()
}

fn entry(path: &str, is_dir: bool) -> DirEntry {
    DirEntry { path: s(path), is_dir }
}

#[test]
fn parse_two_positionals() {
    let g = Grep::from(&args(&["pattern", "path"])).unwrap();
    assert_eq!(g.pattern, "pattern");
    assert_eq!(g.path, "path");
    assert_eq!(g.config, Config::new());
    assert_eq!(g.mode(), SearchMode::ListFile);
}

#[test]
fn parse_line_numbers() {
    let g = Grep::from(&args(&["-n", "pattern", "path"])).unwrap();
    assert!(g.config.lines);
    assert!(!g.config.recursive && !g.config.full_recursive && !g.config.count);
    assert_eq!(g.pattern, "pattern");
    assert_eq!(g.path, "path");
}

#[test]
fn parse_missing_path() {
    match Grep::from(&args(&["pattern"])) {
        Err(GrepError::ArgError(2, 1)) => {}
        _ => panic!("expected an argument error"),
    }
}

#[test]
fn parse_unknown_option() {
    match Grep::from(&args(&["--bogus", "pattern", "path"])) {
        Err(GrepError::OptionError(t)) => assert_eq!(t, "--bogus"),
        _ => panic!("expected an option error"),
    }
}

#[test]
fn parse_first_unknown_option_wins_over_count() {
    match Grep::from(&args(&["a", "b", "c", "-x", "-y"])) {
        Err(GrepError::OptionError(t)) => assert_eq!(t, "-x"),
        _ => panic!("expected an option error"),
    }
}

#[test]
fn parse_too_many_positionals() {
    match Grep::from(&args(&["a", "b", "c"])) {
        Err(GrepError::ArgError(2, 3)) => {}
        _ => panic!("expected an argument error"),
    }
}

#[test]
fn parse_options_anywhere() {
    let g = Grep::from(&args(&["foo", "-r", "d", "-c", "-rf"])).unwrap();
    assert_eq!(g.pattern, "foo");
    assert_eq!(g.path, "d");
    assert!(g.config.recursive && g.config.full_recursive && g.config.count);
    assert!(!g.config.lines);
    assert_eq!(g.mode(), SearchMode::CountDir);
}

#[test]
fn modes() {
    let mut g = Grep::new();
    assert_eq!(g.mode(), SearchMode::ListFile);
    g.config.count = true;
    assert_eq!(g.mode(), SearchMode::CountFile);
    g.config.full_recursive = true;
    assert_eq!(g.mode(), SearchMode::CountDir);
    g.config.count = false;
    assert_eq!(g.mode(), SearchMode::ListDir);
}

#[test]
fn count_lines_containing() {
    assert_eq!(count_matches(&s("foo\nbar foo\nbaz"), &s("foo")), 2);
    assert_eq!(count_matches(&s("foo\nbar foo\nbaz"), &s("ba")), 2);
    assert_eq!(count_matches(&s("foo\nbar foo\nbaz"), &s("qux")), 0);
}

#[test]
fn count_empty_file_and_empty_pattern() {
    assert_eq!(count_matches(&s(""), &s("x")), 0);
    assert_eq!(count_matches(&s(""), &s("")), 0);
    assert_eq!(count_matches(&s("a\n\nb\n"), &s("")), 3);
}

#[test]
fn pattern_is_literal() {
    assert_eq!(count_matches(&s("a.c\nabc\n(x)*"), &s("a.c")), 1);
    assert_eq!(count_matches(&s("a.c\nabc\n(x)*"), &s("(x)*")), 1);
    assert_eq!(count_matches(&s("Foo\nfoo"), &s("foo")), 1);
}

#[test]
fn lines_split_like_str_lines() {
    let cs: Vec<char> = "a\r\nb\n\nc\r".chars().collect();
    let ls: Vec<String> = split_lines(&cs).iter().map(|l| l.iter().collect()).collect();
    assert_eq!(ls, vec!["a", "b", "", "c\r"]);
    let cs: Vec<char> = "x\n".chars().collect();
    assert_eq!(split_lines(&cs).len(), 1);
}

#[test]
fn substring_check() {
    let t: Vec<char> = "hello world".chars().collect();
    let p: Vec<char> = "o w".chars().collect();
    let q: Vec<char> = "ow".chars().collect();
    let long: Vec<char> = "hello world!".chars().collect();
    assert!(contains_chars(&t, &p));
    assert!(!contains_chars(&t, &q));
    assert!(!contains_chars(&t, &long));
    assert!(contains_chars(&t, &Vec::new()));
}

#[test]
fn scan_records_in_order() {
    let recs = scan(&s("foo\nbar\nbar foo\nfoofoo"), &s("foo"));
    let got: Vec<(usize, String)> = recs.into_iter().map(|r| (r.line_number, r.text)).collect();
    assert_eq!(got, vec![(1, s("foo")), (3, s("bar foo")), (4, s("foofoo"))]);
}

#[test]
fn single_file_with_numbers() {
    let out = get_matches(&s("a.txt"), &s("foo\nbar foo"), &s("foo"), true, false, false);
    assert_eq!(out, vec![s("1:foo"), s("2:bar foo")]);
}

#[test]
fn directory_listing_has_path_prefix() {
    let out = get_matches(&s("d/a.txt"), &s("foo\nx\nbar foo"), &s("foo"), true, true, false);
    assert_eq!(out, vec![s("d/a.txt:1:foo"), s("d/a.txt:3:bar foo")]);
    let out = get_matches(&s("d/a.txt"), &s("foo\nx"), &s("foo"), false, true, false);
    assert_eq!(out, vec![s("d/a.txt:foo")]);
}

#[test]
fn colored_prefixes() {
    let rec = MatchRecord { line_number: 12, text: s("hit") };
    let out = format_match(&s("p"), &rec, true, true, true);
    assert_eq!(out, "\x1b[34mp\x1b[0m:\x1b[31m12\x1b[0m:hit");
    assert_eq!(paint(&s("x"), Color::Red, true), "\x1b[31mx\x1b[0m");
    assert_eq!(paint(&s("x"), Color::Blue, false), "x");
}

#[test]
fn decimal_rendering() {
    assert_eq!(decimal_string(0), "0");
    assert_eq!(decimal_string(7), "7");
    assert_eq!(decimal_string(1905), "1905");
    assert_eq!(decimal_string(usize::MAX), usize::MAX.to_string());
}

#[test]
fn shallow_collect_skips_subdirectory() {
    let (files, skipped) = collect_shallow(vec![
        entry("d/a.txt", false),
        entry("d/sub", true),
        entry("d/b.txt", false),
    ]);
    assert_eq!(files, vec![s("d/a.txt"), s("d/b.txt")]);
    assert_eq!(skipped, vec![s("d/sub")]);
}

fn listing(dir: &str) -> Vec<DirEntry> {
    match dir {
        "d" => vec![entry("d/a.txt", false), entry("d/sub", true), entry("d/b.txt", false)],
        "d/sub" => vec![entry("d/sub/c.txt", false), entry("d/sub/deep", true)],
        "d/sub/deep" => vec![entry("d/sub/deep/e.txt", false)],
        _ => Vec::new(),
    }
}

#[test]
fn full_walk_flattens_depth_first() {
    let mut w = Walker::new(true);
    w.add_listing(listing("d"));
    let mut steps = 0;
    while !w.is_done() {
        match w.step() {
            WalkStep::Descend(p) => w.add_listing(listing(&p)),
            WalkStep::Skipped(_) => panic!("a full walk skips nothing"),
            WalkStep::Collected => {}
            WalkStep::Done => panic!("not done yet"),
        }
        steps += 1;
    }
    assert_eq!(steps, 6);
    assert!(matches!(w.step(), WalkStep::Done));
    assert_eq!(
        w.into_files(),
        vec![s("d/a.txt"), s("d/sub/c.txt"), s("d/sub/deep/e.txt"), s("d/b.txt")]
    );
}

#[test]
fn shallow_walker_reports_skip() {
    let mut w = Walker::new(false);
    w.add_listing(listing("d"));
    assert!(matches!(w.step(), WalkStep::Collected));
    match w.step() {
        WalkStep::Skipped(p) => assert_eq!(p, "d/sub"),
        _ => panic!("expected a skipped directory"),
    }
    assert!(matches!(w.step(), WalkStep::Collected));
    assert!(w.is_done());
    assert_eq!(w.into_files(), vec![s("d/a.txt"), s("d/b.txt")]);
}

#[test]
fn directory_count_skips_failed_files() {
    let outcomes = vec![
        Ok(2),
        Err(read_error(s("d/x"), ReadFailure::InvalidData)),
        Ok(5),
    ];
    let (total, warnings) = sum_counts(&outcomes, false);
    assert_eq!(total, 7);
    assert_eq!(warnings, vec![s("zgrep: FILE ERROR: d/x : Invalid data")]);
}

#[test]
fn directory_count_saturates() {
    let outcomes = vec![Ok(usize::MAX), Ok(1)];
    assert_eq!(sum_counts(&outcomes, false).0, usize::MAX);
    assert_eq!(sum_counts(&Vec::new(), false).0, 0);
}

#[test]
fn recursive_count_scenario() {
    let g = Grep::from(&args(&["foo", "d", "-r", "-c"])).unwrap();
    assert_eq!(g.mode(), SearchMode::CountDir);
    let (files, skipped) = collect_shallow(vec![entry("d/a.txt", false), entry("d/b.txt", false)]);
    assert!(skipped.is_empty());
    let contents = |p: &str| if p == "d/a.txt" { s("foo\nbar foo") } else { s("baz") };
    let outcomes: Vec<Result<usize, GrepError>> =
        files.iter().map(|f| Ok(count_matches(&contents(f), &g.pattern))).collect();
    let (total, warnings) = sum_counts(&outcomes, false);
    assert_eq!(decimal_string(total), "2");
    assert!(warnings.is_empty());
}

#[test]
fn single_file_scenario() {
    let g = Grep::from(&args(&["-n", "foo", "a.txt"])).unwrap();
    assert_eq!(g.mode(), SearchMode::ListFile);
    let out = get_matches(&g.path, &s("foo\nbar foo"), &g.pattern, g.config.lines, false, false);
    assert_eq!(out, vec![s("1:foo"), s("2:bar foo")]);
}

#[test]
fn error_messages() {
    let e = read_error(s("f"), ReadFailure::NotFound);
    assert_eq!(e.message(false), "zgrep: FILE ERROR: f : File not found");
    assert_eq!(e.message(true), "zgrep: FILE ERROR: \x1b[31mf\x1b[0m : File not found");
    let e = read_error(s("f"), ReadFailure::InvalidInput);
    assert_eq!(e.message(false), "zgrep: FILE ERROR: f : Unreadable input");
    let e = read_error(s("f"), ReadFailure::Other);
    assert_eq!(e.message(false), "zgrep: FILE ERROR: f : Unknown file error");
    let e = list_error(s("d"), ListFailure::NotADirectory);
    assert_eq!(e.message(false), "zgrep: FILE ERROR: d : Not a directory");
    let e = list_error(s("d"), ListFailure::NotFound);
    assert_eq!(e.message(false), "zgrep: FILE ERROR: d : Directory not found");
    let e = list_error(s("d"), ListFailure::Other);
    assert_eq!(e.message(false), "zgrep: FILE ERROR: d : Error while getting directory contents");
    assert_eq!(
        GrepError::ArgError(2, 13).message(false),
        "zgrep: ARGUMENT ERROR: Expected 2 but received 13 arguments"
    );
    assert_eq!(
        GrepError::OptionError(s("-z")).message(false),
        "zgrep: OPTION ERROR: Unknown option: -z"
    );
    assert_eq!(
        GrepError::PathError(s("b\u{fffd}d")).message(false),
        "zgrep: PATH ERROR: Path is not valid UTF-8: \"b\u{fffd}d\""
    );
    assert_eq!(GrepError::EntryError.message(false), "zgrep: DIRECTORY ENTRY ERROR");
    assert_eq!(FileProblem::InvalidData.text(), "Invalid data");
}
