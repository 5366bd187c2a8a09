use comment_filter::collect::{
    as_line_slices, classify_line, collect_file, parse_file_or_dir, LineKind, SourceFile,
};
use comment_filter::config::Config;
use comment_filter::extract::Dialect;
use comment_filter::report::{Capture, FileReport};

fn names(list: &[&str]) -> Vec<String> {
    list.iter().map(|s| s.to_string()).collect()
}

fn kind(line: &str) -> LineKind {
    classify_line(&line.chars().collect())
}

fn entry_names(report: &FileReport) -> Vec<String> {
    report.categories.iter().map(|e| e.name.clone()).collect()
}

#[test]
fn block_comment_in_a_file() {
    let lines = vec!["/* @Todo fix this", "still todo", "*/", "other"];
    let report = collect_file("a.c".to_string(), &lines, &Config::default());
    assert_eq!(report.path, "a.c");
    assert_eq!(entry_names(&report), names(&["Todo"]));
    assert_eq!(
        report.categories[0].blocks,
        vec!["\t\t1 /* @Todo fix this\n\t\t2 still todo\n\t\t3 */".to_string()]
    );
}

#[test]
fn line_comments_in_a_file() {
    let lines = vec!["// @Bug: off by one", "// more detail", "code"];
    let report = collect_file("a.rs".to_string(), &lines, &Config::default());
    assert_eq!(entry_names(&report), names(&["Bug"]));
    assert_eq!(
        report.categories[0].blocks,
        vec!["\t\t1 // @Bug: off by one\n\t\t2 // more detail".to_string()]
    );
}

#[test]
fn ignored_category_is_not_in_the_report() {
    let config = Config {
        spec_symbols: vec!['@'],
        category_filter: None,
        ignore_filter: Some(names(&["Todo"])),
    };
    let lines = vec!["// @Todo later", "x", "/* @Todo", "*/", "# @Todo"];
    let report = collect_file("a".to_string(), &lines, &config);
    assert!(report.is_empty());
    assert!(report.categories.is_empty());
}

#[test]
fn unterminated_block_in_a_file() {
    let lines = vec!["x", "/* @Open", "// @Inside", "# end"];
    let report = collect_file("a".to_string(), &lines, &Config::default());
    assert_eq!(entry_names(&report), names(&["Open", "Inside"]));
    let text = "\t\t2 /* @Open\n\t\t3 // @Inside\n\t\t4 # end".to_string();
    assert_eq!(report.categories[0].blocks, vec![text.clone()]);
    assert_eq!(report.categories[1].blocks, vec![text]);
}

#[test]
fn empty_file_gives_an_empty_report() {
    let report = collect_file("none".to_string(), &Vec::new(), &Config::default());
    assert_eq!(report.path, "none");
    assert!(report.is_empty());
}

#[test]
fn tags_outside_comments_are_not_seen() {
    let lines = vec!["let a = \"@Nope\";", "b @Neither"];
    let report = collect_file("a".to_string(), &lines, &Config::default());
    assert!(report.is_empty());
}

#[test]
fn block_marker_wins_over_line_markers() {
    assert_eq!(kind("# // /* x"), LineKind::BlockStart);
    assert_eq!(kind("# // x"), LineKind::LineComment(Dialect::Slashes));
    assert_eq!(kind("x # y"), LineKind::LineComment(Dialect::Hash));
    assert_eq!(kind("x / y * z"), LineKind::Plain);
    assert_eq!(kind(""), LineKind::Plain);
    assert_eq!(kind("*/"), LineKind::Plain);
}

#[test]
fn line_with_all_markers_is_read_as_a_block() {
    let lines = vec!["# // /* @A", "// @B */", "// @C"];
    let report = collect_file("a".to_string(), &lines, &Config::default());
    assert_eq!(entry_names(&report), names(&["A", "B", "C"]));
    let block = "\t\t1 # // /* @A\n\t\t2 // @B */".to_string();
    assert_eq!(report.categories[0].blocks, vec![block.clone()]);
    assert_eq!(report.categories[1].blocks, vec![block]);
    assert_eq!(report.categories[2].blocks, vec!["\t\t3 // @C".to_string()]);
}

#[test]
fn line_behind_a_run_is_looked_at_again() {
    let lines = vec!["// @A", "/* @B */", "# @C", "// @D", "x"];
    let report = collect_file("a".to_string(), &lines, &Config::default());
    assert_eq!(entry_names(&report), names(&["A", "B", "C", "D"]));
    assert_eq!(report.categories[0].blocks, vec!["\t\t1 // @A".to_string()]);
    assert_eq!(report.categories[1].blocks, vec!["\t\t2 /* @B */".to_string()]);
    assert_eq!(report.categories[2].blocks, vec!["\t\t3 # @C".to_string()]);
    assert_eq!(report.categories[3].blocks, vec!["\t\t4 // @D".to_string()]);
}

#[test]
fn texts_of_one_category_stay_in_file_order() {
    let lines = vec!["// @A 1", "", "/* @B", "@A */", "", "# @A 3", "# @B 3"];
    let report = collect_file("a".to_string(), &lines, &Config::default());
    assert_eq!(entry_names(&report), names(&["A", "B"]));
    let block = "\t\t3 /* @B\n\t\t4 @A */".to_string();
    let run = "\t\t6 # @A 3\n\t\t7 # @B 3".to_string();
    assert_eq!(
        report.categories[0].blocks,
        vec!["\t\t1 // @A 1".to_string(), block.clone(), run.clone()]
    );
    assert_eq!(report.categories[1].blocks, vec![block, run]);
}

#[test]
fn tag_named_twice_in_a_comment_gets_one_text() {
    let lines = vec!["// @A", "// @A", "// @A"];
    let report = collect_file("a".to_string(), &lines, &Config::default());
    assert_eq!(entry_names(&report), names(&["A"]));
    assert_eq!(report.categories[0].blocks.len(), 1);
}

#[test]
fn collecting_twice_gives_the_same_report() {
    let lines = vec!["// @A 1", "x", "/* @B", "@A */", "# @C: 3", "# @B 3"];
    let config = Config {
        spec_symbols: vec!['@', '#'],
        category_filter: None,
        ignore_filter: Some(names(&["C"])),
    };
    let one = collect_file("a".to_string(), &lines, &config);
    let two = collect_file("a".to_string(), &lines, &config);
    assert_eq!(entry_names(&one), entry_names(&two));
    assert_eq!(one.categories.len(), two.categories.len());
    for (a, b) in one.categories.iter().zip(two.categories.iter()) {
        assert_eq!(a.blocks, b.blocks);
    }
    assert_eq!(entry_names(&one), names(&["A", "B", ""]));
}

#[test]
fn many_lines_keep_their_numbers() {
    let mut owned: Vec<String> = Vec::new();
    for _ in 0..120 {
        owned.push("code".to_string());
    }
    owned.push("// @Far away".to_string());
    let lines = as_line_slices(&owned);
    let report = collect_file("big".to_string(), &lines, &Config::default());
    assert_eq!(entry_names(&report), names(&["Far"]));
    assert_eq!(report.categories[0].blocks, vec!["\t\t121 // @Far away".to_string()]);
}

#[test]
fn every_file_gets_a_report() {
    let files = vec![
        SourceFile { path: "one".to_string(), lines: names(&["// @A", "x"]) },
        SourceFile { path: "two".to_string(), lines: names(&["nothing"]) },
        SourceFile { path: "three".to_string(), lines: names(&["/* @B", "@C"]) },
    ];
    let reports = parse_file_or_dir(&files, &Config::default()).expect("always some");
    assert_eq!(reports.len(), 3);
    assert_eq!(reports[0].path, "one");
    assert_eq!(entry_names(&reports[0]), names(&["A"]));
    assert_eq!(reports[1].path, "two");
    assert!(reports[1].is_empty());
    assert_eq!(reports[2].path, "three");
    assert_eq!(entry_names(&reports[2]), names(&["B", "C"]));
    assert_eq!(parse_file_or_dir(&Vec::new(), &Config::default()).map(|r| r.len()), Some(0));
}

#[test]
fn report_records_and_finds() {
    let mut report = FileReport::new("p".to_string());
    assert!(report.is_empty());
    assert_eq!(report.position(&"A".to_string()), None);
    assert!(report.get(&"A".to_string()).is_none());
    report.record(&"A".to_string(), &"one".to_string());
    report.record(&"B".to_string(), &"two".to_string());
    report.record(&"A".to_string(), &"three".to_string());
    assert!(!report.is_empty());
    assert_eq!(report.position(&"A".to_string()), Some(0));
    assert_eq!(report.position(&"B".to_string()), Some(1));
    assert_eq!(report.position(&"C".to_string()), None);
    assert_eq!(report.get(&"A".to_string()), Some(&names(&["one", "three"])));
    assert_eq!(report.get(&"B".to_string()), Some(&names(&["two"])));
    assert_eq!(report.path, "p");
}

#[test]
fn capture_is_copied_under_each_category() {
    let mut report = FileReport::new("p".to_string());
    report.record(&"B".to_string(), &"old".to_string());
    let capture = Capture { categories: names(&["A", "B", "C"]), text: "new".to_string() };
    report.record_capture(&capture);
    assert_eq!(entry_names(&report), names(&["B", "A", "C"]));
    assert_eq!(report.categories[0].blocks, names(&["old", "new"]));
    assert_eq!(report.categories[1].blocks, names(&["new"]));
    assert_eq!(report.categories[2].blocks, names(&["new"]));
    let nothing = Capture { categories: Vec::new(), text: "lost".to_string() };
    report.record_capture(&nothing);
    assert_eq!(entry_names(&report), names(&["B", "A", "C"]));
    assert_eq!(report.categories[0].blocks, names(&["old", "new"]));
}
