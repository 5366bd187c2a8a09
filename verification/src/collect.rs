//! The file collector: walks the lines of one file, hands every comment to
//! the extractor of its kind, and gathers what they capture.
//!
//! A line that holds `/*` starts a block comment; otherwise one that holds
//! `//` starts a run of `//` comments; otherwise one that holds `#` starts a
//! run of `#` comments; any other line is passed over. Behind a block the
//! walk goes on with the line after the block's last line, behind a run with
//! the first line that is not part of the run.

use vstd::prelude::*;
use crate::config::{Config, ConfigView};
use crate::extract::{
    block_open, block_stop, capture_of, extract_block, extract_line_run, lemma_block_stop,
    lemma_region_categories, lemma_run_end, run_end, Dialect,
};
use crate::report::{
    as_map, lemma_position_from, lemma_record_all_well_formed, record_all, well_formed,
    CaptureView, CategoryView, FileReport, FileReportView,
};
use crate::text::{has_char, has_pair, has_substring, to_chars};

verus! {

/// What a line starts, as the collector sees it.
#[derive(Clone, Copy, Debug, PartialEq, Eq, Structural)]
pub enum LineKind {
    /// The line holds `/*`.
    BlockStart,
    /// The line holds no `/*` but the marker of a line comment; with both
    /// markers on the line, `//` is the one that counts.
    LineComment(Dialect),
    /// The line holds none of the three markers.
    Plain,
}

/// The kind of `line`: the three markers are looked for in the fixed order
/// `/*`, `//`, `#`, and the first that is found decides.
pub open spec fn line_kind(line: Seq<char>) -> LineKind {
    if has_substring(line, block_open()) {
        LineKind::BlockStart
    } else if has_substring(line, Dialect::Slashes.marker()) {
        LineKind::LineComment(Dialect::Slashes)
    } else if has_substring(line, Dialect::Hash.marker()) {
        LineKind::LineComment(Dialect::Hash)
    } else {
        LineKind::Plain
    }
}

/// Index just past the region that starts on line `index`: past the block,
/// past the run, or past the single line that starts neither.
pub open spec fn region_end(lines: Seq<Seq<char>>, index: int) -> int
    recommends
        0 <= index < lines.len(),
{
    match line_kind(lines[index]) {
        LineKind::BlockStart => block_stop(lines, index),
        LineKind::LineComment(dialect) => run_end(lines, index, dialect.marker()),
        LineKind::Plain => index + 1,
    }
}

/// What is captured of the region that starts on line `index`: the lines of
/// a comment, or nothing where the line starts no comment.
pub open spec fn region_capture(lines: Seq<Seq<char>>, index: int, config: ConfigView)
    -> CaptureView
    recommends
        0 <= index < lines.len(),
{
    match line_kind(lines[index]) {
        LineKind::Plain => capture_of(lines, index, index, config),
        _ => capture_of(lines, index, region_end(lines, index), config),
    }
}

/// The categories of a file after the walk has gone from line `index` to
/// the end, having gathered `found` before.
pub open spec fn scan_from(
    lines: Seq<Seq<char>>,
    config: ConfigView,
    index: int,
    found: Seq<CategoryView>,
) -> Seq<CategoryView>
    decreases lines.len() - index,
    via scan_from_terminates
{
    if index < 0 || index >= lines.len() {
        found
    } else {
        let capture = region_capture(lines, index, config);
        scan_from(
            lines,
            config,
            region_end(lines, index),
            record_all(found, capture.categories, capture.text),
        )
    }
}

#[via_fn]
proof fn scan_from_terminates(
    lines: Seq<Seq<char>>,
    config: ConfigView,
    index: int,
    found: Seq<CategoryView>,
) {
    if 0 <= index < lines.len() {
        lemma_region_end(lines, index);
    }
}

/// The categories of a whole file, in the order in which the walk first
/// meets them, each with the texts of its comments in the order of the file.
pub open spec fn file_categories(lines: Seq<Seq<char>>, config: ConfigView) -> Seq<CategoryView> {
    scan_from(lines, config, 0, Seq::empty())
}

/// `report` is what the collector yields for the file `path` with the given
/// lines under `config`.
pub open spec fn is_report_of(
    report: FileReportView,
    path: Seq<char>,
    lines: Seq<Seq<char>>,
    config: ConfigView,
) -> bool {
    report.path == path && report.categories == file_categories(lines, config)
}

/// Every region holds at least its first line and ends inside the file, so
/// the walk always moves on.
pub proof fn lemma_region_end(lines: Seq<Seq<char>>, index: int)
    requires
        0 <= index < lines.len(),
    ensures
        index < region_end(lines, index) <= lines.len(),
{
    match line_kind(lines[index]) {
        LineKind::BlockStart => {
            lemma_block_stop(lines, index);
        },
        LineKind::LineComment(dialect) => {
            lemma_run_end(lines, index + 1, dialect.marker());
        },
        LineKind::Plain => {},
    }
}

/// Every name in `record_all(categories, names, text)` is a name of
/// `categories` or one of `names`.
pub proof fn lemma_record_all_names(
    categories: Seq<CategoryView>,
    names: Seq<Seq<char>>,
    text: Seq<char>,
)
    ensures
        forall|i: int|
            0 <= i < record_all(categories, names, text).len() ==> names.contains(
                (#[trigger] record_all(categories, names, text)[i]).name,
            ) || exists|j: int|
                0 <= j < categories.len() && (#[trigger] categories[j]).name == record_all(
                    categories,
                    names,
                    text,
                )[i].name,
    decreases names.len(),
{
    let after = record_all(categories, names, text);
    if names.len() > 0 {
        let before = record_all(categories, names.drop_last(), text);
        lemma_record_all_names(categories, names.drop_last(), text);
        lemma_position_from(before, names.last(), 0);
        assert forall|i: int| 0 <= i < after.len() implies names.contains((#[trigger] after[i]).name)
            || exists|j: int|
            0 <= j < categories.len() && (#[trigger] categories[j]).name == after[i].name by {
            if i < before.len() && after[i].name == before[i].name {
                if names.drop_last().contains(before[i].name) {
                    let k = choose|k: int|
                        0 <= k < names.drop_last().len() && names.drop_last()[k] == before[i].name;
                    assert(names[k] == after[i].name);
                }
            } else {
                assert(after[i].name == names.last());
                assert(names[names.len() - 1] == after[i].name);
            }
        }
    } else {
        assert forall|i: int| 0 <= i < after.len() implies names.contains((#[trigger] after[i]).name)
            || exists|j: int|
            0 <= j < categories.len() && (#[trigger] categories[j]).name == after[i].name by {
            assert(categories[i].name == after[i].name);
        }
    }
}

/// The walk keeps a report well formed, and every category that it adds is
/// one that the filters accept.
pub proof fn lemma_scan_from(
    lines: Seq<Seq<char>>,
    config: ConfigView,
    index: int,
    found: Seq<CategoryView>,
)
    requires
        well_formed(found),
        forall|i: int| 0 <= i < found.len() ==> config.accepts((#[trigger] found[i]).name),
    ensures
        well_formed(scan_from(lines, config, index, found)),
        forall|i: int|
            0 <= i < scan_from(lines, config, index, found).len() ==> config.accepts(
                (#[trigger] scan_from(lines, config, index, found)[i]).name,
            ),
    decreases lines.len() - index,
{
    if 0 <= index < lines.len() {
        let capture = region_capture(lines, index, config);
        let next = record_all(found, capture.categories, capture.text);
        lemma_region_end(lines, index);
        lemma_record_all_well_formed(found, capture.categories, capture.text);
        lemma_record_all_names(found, capture.categories, capture.text);
        lemma_region_categories(lines, index, index, config);
        lemma_region_categories(lines, index, region_end(lines, index), config);
        assert forall|i: int| 0 <= i < next.len() implies config.accepts((#[trigger] next[i]).name) by {
            if capture.categories.contains(next[i].name) {
            } else {
                let j = choose|j: int|
                    0 <= j < found.len() && (#[trigger] found[j]).name == next[i].name;
                assert(config.accepts(found[j].name));
            }
        }
        lemma_scan_from(lines, config, region_end(lines, index), next);
    }
}

/// In the categories of a file no name stands twice, no category is without
/// a text, and every name is one that the filters accept: a name on the
/// ignore-list is never recorded, whatever the allow-list holds.
pub proof fn lemma_file_categories(lines: Seq<Seq<char>>, config: ConfigView)
    ensures
        well_formed(file_categories(lines, config)),
        forall|i: int|
            0 <= i < file_categories(lines, config).len() ==> config.accepts(
                (#[trigger] file_categories(lines, config)[i]).name,
            ),
{
    lemma_scan_from(lines, config, 0, Seq::empty());
}

/// Extraction is a function of the lines and the configuration alone: two
/// reports of the same lines under the same configuration hold the same
/// categories, in the same order, with the same texts.
pub proof fn lemma_extraction_is_deterministic(
    first: FileReportView,
    second: FileReportView,
    path: Seq<char>,
    lines: Seq<Seq<char>>,
    config: ConfigView,
)
    requires
        is_report_of(first, path, lines, config),
        is_report_of(second, path, lines, config),
    ensures
        first == second,
        first.categories == second.categories,
        as_map(first.categories) == as_map(second.categories),
{
}

/// The kind of `line`.
pub fn classify_line(line: &Vec<char>) -> (kind: LineKind)
    ensures
        kind == line_kind(line@),
{
    if has_pair(line, '/', '*') {
        LineKind::BlockStart
    } else if has_pair(line, '/', '/') {
        LineKind::LineComment(Dialect::Slashes)
    } else if has_char(line, '#') {
        LineKind::LineComment(Dialect::Hash)
    } else {
        LineKind::Plain
    }
}

/// Extracts the tagged comments of one file.
///
/// `lines` are the lines of the file, without their line ends. The report
/// holds every category that a comment of the file refers to and that the
/// filters of `config` accept, with the texts of those comments.
pub fn collect_file(path: String, lines: &Vec<&str>, config: &Config) -> (report: FileReport)
    ensures
        is_report_of(report@, path@, lines.deep_view(), config@),
        report@.path == path@,
        report@.categories == file_categories(lines.deep_view(), config@),
        well_formed(report@.categories),
        forall|i: int|
            0 <= i < report@.categories.len() ==> config@.accepts(
                (#[trigger] report@.categories[i]).name,
            ),
{
    let ghost all = lines.deep_view();
    let mut report = FileReport::new(path);
    let mut i: usize = 0;
    while i < lines.len()
        invariant
            i <= lines.len(),
            all == lines.deep_view(),
            report@.path == path@,
            file_categories(all, config@) == scan_from(all, config@, i as int, report@.categories),
        decreases lines.len() - i,
    {
        assert(all[i as int] == lines[i as int]@);
        proof {
            lemma_region_end(all, i as int);
        }
        let chars = to_chars(lines[i]);
        match classify_line(&chars) {
            LineKind::BlockStart => {
                let (end, capture) = extract_block(lines, i, config);
                report.record_capture(&capture);
                i = end + 1;
            },
            LineKind::LineComment(dialect) => {
                let (end, capture) = extract_line_run(lines, i, dialect, config);
                report.record_capture(&capture);
                i = end;
            },
            LineKind::Plain => {
                i += 1;
            },
        }
    }
    proof {
        lemma_file_categories(all, config@);
    }
    report
}

/// A file that has been read: its path and its lines, without their line
/// ends.
#[derive(Debug)]
pub struct SourceFile {
    pub path: String,
    pub lines: Vec<String>,
}

/// The lines of a file as string slices.
pub fn as_line_slices(lines: &Vec<String>) -> (slices: Vec<&str>)
    ensures
        slices.deep_view() == lines.deep_view(),
{
    let mut slices: Vec<&str> = Vec::new();
    let mut i: usize = 0;
    while i < lines.len()
        invariant
            i <= lines.len(),
            slices.len() == i,
            forall|k: int| 0 <= k < i ==> slices[k]@ == lines[k]@,
        decreases lines.len() - i,
    {
        slices.push(lines[i].as_str());
        i += 1;
    }
    assert(slices.deep_view() =~= lines.deep_view());
    slices
}

/// Extracts the tagged comments of every file of `files`: one report per
/// file, in the order of the files, also where a file has no category.
/// The result is never `None`.
pub fn parse_file_or_dir(files: &Vec<SourceFile>, config: &Config) -> (reports: Option<
    Vec<FileReport>,
>)
    ensures
        reports is Some,
        reports->0.len() == files.len(),
        forall|k: int|
            0 <= k < files.len() ==> is_report_of(
                (#[trigger] reports->0[k])@,
                files[k].path@,
                files[k].lines.deep_view(),
                config@,
            ),
{
    let mut reports: Vec<FileReport> = Vec::new();
    let mut i: usize = 0;
    while i < files.len()
        invariant
            i <= files.len(),
            reports.len() == i,
            forall|k: int|
                0 <= k < i ==> is_report_of(
                    (#[trigger] reports[k])@,
                    files[k].path@,
                    files[k].lines.deep_view(),
                    config@,
                ),
        decreases files.len() - i,
    {
        let lines = as_line_slices(&files[i].lines);
        let report = collect_file(files[i].path.clone(), &lines, config);
        reports.push(report);
        i += 1;
    }
    Some(reports)
}

} // verus!
