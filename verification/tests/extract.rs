use comment_filter::config::Config;
use comment_filter::extract::{
    extract_block, extract_line_run, parse_comment_block, parse_comments, Dialect,
};
use comment_filter::render::{append_decimal, append_line, render_line_text, render_lines};
use comment_filter::report::FileReport;

fn names(list: &[&str]) -> Vec<String> {
    list.iter().map(|s| s.to_string()).collect()
}

#[test]
fn block_runs_to_the_closing_line() {
    let lines = vec!["/* @Todo fix this", "still todo", "*/", "other"];
    let (end, capture) = extract_block(&lines, 0, &Config::default());
    assert_eq!(end, 2);
    assert_eq!(capture.categories, names(&["Todo"]));
    assert_eq!(capture.text, "\t\t1 /* @Todo fix this\n\t\t2 still todo\n\t\t3 */");
}

#[test]
fn block_on_one_line() {
    let lines = vec!["x", "/* @A: one */", "/* @B */"];
    let (end, capture) = extract_block(&lines, 1, &Config::default());
    assert_eq!(end, 1);
    assert_eq!(capture.categories, names(&["A"]));
    assert_eq!(capture.text, "\t\t2 /* @A: one */");
}

#[test]
fn unterminated_block_runs_to_the_last_line() {
    let lines = vec!["code", "/* @Fix start", "more", "and more"];
    let (end, capture) = extract_block(&lines, 1, &Config::default());
    assert_eq!(end, 3);
    assert_eq!(capture.categories, names(&["Fix"]));
    assert_eq!(capture.text, "\t\t2 /* @Fix start\n\t\t3 more\n\t\t4 and more");
}

#[test]
fn block_with_two_categories() {
    let lines = vec!["/* @A", " * @B and @C", " * @A again", " */", "@D"];
    let (end, capture) = extract_block(&lines, 0, &Config::default());
    assert_eq!(end, 3);
    assert_eq!(capture.categories, names(&["A", "B"]));
    assert_eq!(capture.text, "\t\t1 /* @A\n\t\t2  * @B and @C\n\t\t3  * @A again\n\t\t4  */");
}

#[test]
fn block_without_tag_has_no_category() {
    let lines = vec!["/* nothing", "*/"];
    let (end, capture) = extract_block(&lines, 0, &Config::default());
    assert_eq!(end, 1);
    assert!(capture.categories.is_empty());
    assert_eq!(capture.text, "\t\t1 /* nothing\n\t\t2 */");
}

#[test]
fn block_start_behind_the_file_captures_nothing() {
    let lines = vec!["/* @A */"];
    let (end, capture) = extract_block(&lines, 1, &Config::default());
    assert_eq!(end, 1);
    assert!(capture.categories.is_empty());
    assert_eq!(capture.text, "");
    let (end, capture) = extract_block(&Vec::new(), 0, &Config::default());
    assert_eq!(end, 0);
    assert!(capture.categories.is_empty());
    assert_eq!(capture.text, "");
}

#[test]
fn block_on_the_last_line() {
    let lines = vec!["a", "/* @Z"];
    let (end, capture) = extract_block(&lines, 1, &Config::default());
    assert_eq!(end, 1);
    assert_eq!(capture.categories, names(&["Z"]));
    assert_eq!(capture.text, "\t\t2 /* @Z");
}

#[test]
fn run_stops_before_the_first_line_without_marker() {
    let lines = vec!["// @Bug: off by one", "// more detail", "code"];
    let (end, capture) = extract_line_run(&lines, 0, Dialect::Slashes, &Config::default());
    assert_eq!(end, 2);
    assert_eq!(capture.categories, names(&["Bug"]));
    assert_eq!(capture.text, "\t\t1 // @Bug: off by one\n\t\t2 // more detail");
}

#[test]
fn run_that_reaches_the_end_of_the_file() {
    let lines = vec!["code", "# @Note a", "# b"];
    let (end, capture) = extract_line_run(&lines, 1, Dialect::Hash, &Config::default());
    assert_eq!(end, 3);
    assert_eq!(capture.categories, names(&["Note"]));
    assert_eq!(capture.text, "\t\t2 # @Note a\n\t\t3 # b");
}

#[test]
fn run_does_not_take_tags_from_the_line_behind_it() {
    let lines = vec!["// @In", "code @Out"];
    let (end, capture) = extract_line_run(&lines, 0, Dialect::Slashes, &Config::default());
    assert_eq!(end, 1);
    assert_eq!(capture.categories, names(&["In"]));
    assert_eq!(capture.text, "\t\t1 // @In");
}

#[test]
fn dialects_are_not_mixed() {
    let lines = vec!["// @A", "# @B", "// @C"];
    let (end, capture) = extract_line_run(&lines, 0, Dialect::Slashes, &Config::default());
    assert_eq!(end, 1);
    assert_eq!(capture.categories, names(&["A"]));
    let (end, capture) = extract_line_run(&lines, 1, Dialect::Hash, &Config::default());
    assert_eq!(end, 2);
    assert_eq!(capture.categories, names(&["B"]));
    assert_eq!(capture.text, "\t\t2 # @B");
}

#[test]
fn run_on_a_line_without_the_marker_is_empty() {
    let lines = vec!["code @A", "// @B"];
    let (end, capture) = extract_line_run(&lines, 0, Dialect::Slashes, &Config::default());
    assert_eq!(end, 0);
    assert!(capture.categories.is_empty());
    assert_eq!(capture.text, "");
    let (end, capture) = extract_line_run(&lines, 5, Dialect::Slashes, &Config::default());
    assert_eq!(end, 5);
    assert!(capture.categories.is_empty());
    assert_eq!(capture.text, "");
}

#[test]
fn run_with_marker_inside_the_line() {
    let lines = vec!["let x = 1; // @Why", "let y = 2; // because", "let z = 3;"];
    let (end, capture) = extract_line_run(&lines, 0, Dialect::Slashes, &Config::default());
    assert_eq!(end, 2);
    assert_eq!(capture.categories, names(&["Why"]));
    assert_eq!(capture.text, "\t\t1 let x = 1; // @Why\n\t\t2 let y = 2; // because");
}

#[test]
fn extraction_twice_gives_the_same_capture() {
    let lines = vec!["/* @A @B", "@C */", "rest"];
    let config = Config::default();
    let (end_1, capture_1) = extract_block(&lines, 0, &config);
    let (end_2, capture_2) = extract_block(&lines, 0, &config);
    assert_eq!(end_1, end_2);
    assert_eq!(capture_1.categories, capture_2.categories);
    assert_eq!(capture_1.text, capture_2.text);
    assert_eq!(capture_1.categories, names(&["A", "C"]));
}

#[test]
fn parse_comment_block_records_under_every_category() {
    let lines = vec!["/* @A", "@B */", "x"];
    let mut info = FileReport::new("f.c".to_string());
    let end = parse_comment_block(&lines, 0, &mut info, &Config::default());
    assert_eq!(end, 1);
    assert_eq!(info.path, "f.c");
    assert_eq!(info.categories.len(), 2);
    assert_eq!(info.categories[0].name, "A");
    assert_eq!(info.categories[1].name, "B");
    let text = "\t\t1 /* @A\n\t\t2 @B */".to_string();
    assert_eq!(info.categories[0].blocks, vec![text.clone()]);
    assert_eq!(info.categories[1].blocks, vec![text]);
}

#[test]
fn parse_comment_block_appends_to_a_known_category() {
    let lines = vec!["/* @A one */", "/* @A two */"];
    let mut info = FileReport::new("f.c".to_string());
    let config = Config::default();
    assert_eq!(parse_comment_block(&lines, 0, &mut info, &config), 0);
    assert_eq!(parse_comment_block(&lines, 1, &mut info, &config), 1);
    assert_eq!(info.categories.len(), 1);
    assert_eq!(
        info.categories[0].blocks,
        vec!["\t\t1 /* @A one */".to_string(), "\t\t2 /* @A two */".to_string()]
    );
}

#[test]
fn parse_comments_with_slashes() {
    let lines = vec!["// @Bug: off by one", "// more detail", "code"];
    let mut info = FileReport::new("f.rs".to_string());
    let end = parse_comments(&lines, 0, &mut info, true, &Config::default());
    assert_eq!(end, 2);
    assert_eq!(info.categories.len(), 1);
    assert_eq!(info.categories[0].name, "Bug");
    assert_eq!(
        info.categories[0].blocks,
        vec!["\t\t1 // @Bug: off by one\n\t\t2 // more detail".to_string()]
    );
}

#[test]
fn parse_comments_with_hash() {
    let lines = vec!["# @Note x", "// @Other", "# y"];
    let mut info = FileReport::new("f.py".to_string());
    let end = parse_comments(&lines, 0, &mut info, false, &Config::default());
    assert_eq!(end, 1);
    assert_eq!(info.categories.len(), 1);
    assert_eq!(info.categories[0].name, "Note");
    assert_eq!(info.categories[0].blocks, vec!["\t\t1 # @Note x".to_string()]);
}

#[test]
fn dialect_marks_its_own_lines() {
    let slashes: Vec<char> = "a // b".chars().collect();
    let hash: Vec<char> = "a # b".chars().collect();
    assert!(Dialect::Slashes.marks(&slashes));
    assert!(!Dialect::Slashes.marks(&hash));
    assert!(Dialect::Hash.marks(&hash));
    assert!(!Dialect::Hash.marks(&slashes));
}

#[test]
fn line_numbers_are_written_in_decimal() {
    assert_eq!(render_line_text(1, "a"), "\t\t1 a");
    assert_eq!(render_line_text(9, "a"), "\t\t9 a");
    assert_eq!(render_line_text(10, "a"), "\t\t10 a");
    assert_eq!(render_line_text(12345, ""), "\t\t12345 ");
    assert_eq!(render_line_text(0, "zero"), "\t\t0 zero");
    assert_eq!(render_line_text(1090, "x y"), "\t\t1090 x y");
}

#[test]
fn largest_number_is_written_in_full() {
    let mut out = String::new();
    append_decimal(&mut out, usize::MAX);
    assert_eq!(out, format!("{}", usize::MAX));
}

#[test]
fn append_keeps_what_is_there() {
    let mut out = "head:".to_string();
    append_decimal(&mut out, 407);
    assert_eq!(out, "head:407");
    append_line(&mut out, 3, "text");
    assert_eq!(out, "head:407\t\t3 text");
}

#[test]
fn lines_are_joined_by_newlines() {
    let lines = vec!["a", "b", "c", "d", "e", "f", "g", "h", "i", "j", "k"];
    assert_eq!(render_lines(&lines, 8, 11), "\t\t9 i\n\t\t10 j\n\t\t11 k");
    assert_eq!(render_lines(&lines, 0, 1), "\t\t1 a");
    assert_eq!(render_lines(&lines, 3, 3), "");
    assert_eq!(render_lines(&lines, 5, 2), "");
    assert_eq!(render_lines(&lines, 9, 50), "\t\t10 j\n\t\t11 k");
    assert_eq!(render_lines(&lines, 11, 50), "");
    assert_eq!(render_lines(&lines, 12, 50), "");
}
