//! The two extractors: one consumes a block comment, the other a run of
//! line comments of one dialect. Both collect the categories of the lines
//! they consume and render those lines as one text.

use vstd::prelude::*;
use crate::config::{Config, ConfigView};
use crate::matcher::{
    add_names, find_categories_in, lemma_line_categories, lemma_with_names, line_categories,
    with_names,
};
use crate::render::{render_lines, render_span};
use crate::report::{record_all, Capture, CaptureView, FileReport};
use crate::text::{has_char, has_pair, has_substring, to_chars};

verus! {

/// The two kinds of line comment. A run of line comments is of one kind.
#[derive(Clone, Copy, Debug, PartialEq, Eq, Structural)]
pub enum Dialect {
    /// Comments that start with `//`.
    Slashes,
    /// Comments that start with `#`.
    Hash,
}

impl Dialect {
    /// The text that marks a line comment of this dialect.
    pub open spec fn marker(self) -> Seq<char> {
        match self {
            Dialect::Slashes => seq!['/', '/'],
            Dialect::Hash => seq!['#'],
        }
    }

    /// Whether the line holds this dialect's marker.
    pub fn marks(self, line: &Vec<char>) -> (found: bool)
        ensures
            found == has_substring(line@, self.marker()),
    {
        match self {
            Dialect::Slashes => has_pair(line, '/', '/'),
            Dialect::Hash => has_char(line, '#'),
        }
    }
}

/// The text that opens a block comment.
pub open spec fn block_open() -> Seq<char> {
    seq!['/', '*']
}

/// The text that closes a block comment.
pub open spec fn block_close() -> Seq<char> {
    seq!['*', '/']
}

/// The categories of the lines with index `first` up to, not including,
/// `end`: those of each line in turn, each name once, in the order in which
/// they are first met.
pub open spec fn region_categories(
    lines: Seq<Seq<char>>,
    first: int,
    end: int,
    config: ConfigView,
) -> Seq<Seq<char>>
    decreases end - first,
{
    if end <= first {
        Seq::empty()
    } else {
        with_names(
            region_categories(lines, first, end - 1, config),
            line_categories(lines[end - 1], config),
        )
    }
}

/// What is captured of the lines with index `first` up to, not including,
/// `end`: their categories and their rendered text.
pub open spec fn capture_of(lines: Seq<Seq<char>>, first: int, end: int, config: ConfigView)
    -> CaptureView {
    CaptureView {
        categories: region_categories(lines, first, end, config),
        text: render_span(lines, first, end),
    }
}

/// Index just past the block comment that starts on line `start`: the
/// block's last line is the first one at or after `start` that holds the
/// closing marker, or the last line of the file. With `start` outside the
/// file the block is empty.
pub open spec fn block_stop(lines: Seq<Seq<char>>, start: int) -> int
    decreases lines.len() - start,
{
    if start < 0 || start >= lines.len() {
        start
    } else if has_substring(lines[start], block_close()) || start == lines.len() - 1 {
        start + 1
    } else {
        block_stop(lines, start + 1)
    }
}

/// Index of the last line of the block comment that starts on line `start`;
/// `start` itself where that is outside the file.
pub open spec fn block_end(lines: Seq<Seq<char>>, start: int) -> int {
    if 0 <= start < lines.len() {
        block_stop(lines, start) - 1
    } else {
        start
    }
}

/// Index just past the run of line comments that starts on line `start`:
/// the first line at or after `start` that does not hold `marker`, or the
/// number of lines.
pub open spec fn run_end(lines: Seq<Seq<char>>, start: int, marker: Seq<char>) -> int
    decreases lines.len() - start,
{
    if start < 0 || start >= lines.len() {
        start
    } else if !has_substring(lines[start], marker) {
        start
    } else {
        run_end(lines, start + 1, marker)
    }
}

/// A block is never empty inside the file and ends with the first line that
/// closes it; without such a line it runs to the end of the file.
pub proof fn lemma_block_stop(lines: Seq<Seq<char>>, start: int)
    requires
        0 <= start < lines.len(),
    ensures
        start < block_stop(lines, start) <= lines.len(),
        forall|j: int|
            start <= j < block_stop(lines, start) - 1 ==> !has_substring(
                #[trigger] lines[j],
                block_close(),
            ),
        block_stop(lines, start) < lines.len() ==> has_substring(
            lines[block_stop(lines, start) - 1],
            block_close(),
        ),
        (forall|j: int| start <= j < lines.len() ==> !has_substring(#[trigger] lines[j], block_close()))
            ==> block_stop(lines, start) == lines.len(),
    decreases lines.len() - start,
{
    if !has_substring(lines[start], block_close()) && start != lines.len() - 1 {
        lemma_block_stop(lines, start + 1);
    }
}

/// A run holds exactly the lines from `start` up to the first one without
/// the marker.
pub proof fn lemma_run_end(lines: Seq<Seq<char>>, start: int, marker: Seq<char>)
    requires
        0 <= start <= lines.len(),
    ensures
        start <= run_end(lines, start, marker) <= lines.len(),
        forall|j: int|
            start <= j < run_end(lines, start, marker) ==> has_substring(#[trigger] lines[j], marker),
        run_end(lines, start, marker) < lines.len() ==> !has_substring(
            lines[run_end(lines, start, marker)],
            marker,
        ),
    decreases lines.len() - start,
{
    if start < lines.len() && has_substring(lines[start], marker) {
        lemma_run_end(lines, start + 1, marker);
    }
}

/// The categories of a region are exactly the categories of its lines, and
/// none is held twice.
pub proof fn lemma_region_categories(
    lines: Seq<Seq<char>>,
    first: int,
    end: int,
    config: ConfigView,
)
    ensures
        region_categories(lines, first, end, config).no_duplicates(),
        forall|name: Seq<char>| #[trigger]
            region_categories(lines, first, end, config).contains(name) <==> exists|j: int|
                first <= j < end && #[trigger] line_categories(lines[j], config).contains(name),
        forall|name: Seq<char>| #[trigger]
            region_categories(lines, first, end, config).contains(name) ==> config.accepts(name),
    decreases end - first,
{
    let all = region_categories(lines, first, end, config);
    if end > first {
        let before = region_categories(lines, first, end - 1, config);
        let last = line_categories(lines[end - 1], config);
        lemma_region_categories(lines, first, end - 1, config);
        lemma_with_names(before, last);
        lemma_line_categories(lines[end - 1], config);
        assert forall|name: Seq<char>| #[trigger]
            all.contains(name) <==> exists|j: int|
                first <= j < end && #[trigger] line_categories(lines[j], config).contains(
                    name,
                ) by {
            if all.contains(name) {
                if before.contains(name) {
                    let j = choose|j: int|
                        first <= j < end - 1 && #[trigger] line_categories(
                            lines[j],
                            config,
                        ).contains(name);
                    assert(first <= j < end && line_categories(lines[j], config).contains(name));
                } else {
                    assert(line_categories(lines[end - 1], config).contains(name));
                }
            }
            if exists|j: int|
                first <= j < end && #[trigger] line_categories(lines[j], config).contains(name) {
                let j = choose|j: int|
                    first <= j < end && #[trigger] line_categories(lines[j], config).contains(
                        name,
                    );
                if j < end - 1 {
                    assert(before.contains(name));
                }
            }
        }
        assert forall|name: Seq<char>| #[trigger] all.contains(name) implies config.accepts(
            name,
        ) by {
            let j = choose|j: int|
                first <= j < end && #[trigger] line_categories(lines[j], config).contains(name);
            lemma_line_categories(lines[j], config);
        }
    } else {
        assert forall|name: Seq<char>| #[trigger]
            all.contains(name) <==> exists|j: int|
                first <= j < end && #[trigger] line_categories(lines[j], config).contains(
                    name,
                ) by {}
    }
}

/// Consumes the block comment that starts on line `start_index`.
///
/// Returns the index of the block's last line and what was captured: the
/// categories of the block's lines and the text of the block. The block
/// ends with the first line that holds `*/`; a block that is never closed
/// runs to the last line of the file.
pub fn extract_block(lines: &Vec<&str>, start_index: usize, config: &Config) -> (found: (
    usize,
    Capture,
))
    ensures
        found.0 == block_end(lines.deep_view(), start_index as int),
        found.1@ == capture_of(
            lines.deep_view(),
            start_index as int,
            block_stop(lines.deep_view(), start_index as int),
            config@,
        ),
        start_index < lines.len() ==> start_index <= found.0 < lines.len(),
        start_index < lines.len() && (forall|j: int|
            start_index <= j < lines.len() ==> !has_substring(
                #[trigger] lines.deep_view()[j],
                block_close(),
            )) ==> found.0 == lines.len() - 1,
        found.1@.categories.no_duplicates(),
{
    let ghost all = lines.deep_view();
    let mut categories: Vec<String> = Vec::new();
    assert(categories.deep_view() =~= Seq::<Seq<char>>::empty());
    if start_index >= lines.len() {
        let text = render_lines(lines, start_index, start_index);
        return (start_index, Capture { categories, text });
    }
    let mut i: usize = start_index;
    loop
        invariant_except_break
            start_index <= i < lines.len(),
            all == lines.deep_view(),
            categories.deep_view() == region_categories(all, start_index as int, i as int, config@),
            block_stop(all, start_index as int) == block_stop(all, i as int),
        ensures
            start_index <= i < lines.len(),
            categories.deep_view() == region_categories(
                all,
                start_index as int,
                i as int + 1,
                config@,
            ),
            block_stop(all, start_index as int) == i + 1,
        decreases lines.len() - i,
    {
        assert(all[i as int] == lines[i as int]@);
        let chars = to_chars(lines[i]);
        let names = find_categories_in(lines[i], &chars, config);
        add_names(&mut categories, &names);
        if has_pair(&chars, '*', '/') || i == lines.len() - 1 {
            break;
        }
        i += 1;
    }
    let text = render_lines(lines, start_index, i + 1);
    proof {
        lemma_block_stop(all, start_index as int);
        lemma_region_categories(all, start_index as int, i as int + 1, config@);
    }
    (i, Capture { categories, text })
}

/// Consumes the run of line comments of one dialect that starts on line
/// `start_index`.
///
/// Returns the index of the first line behind the run, which is the number
/// of lines where the run reaches the end of the file, and what was
/// captured: the categories of the run's lines and the text of the run. The
/// run holds the lines from `start_index` on that hold the dialect's marker,
/// up to the first line that does not.
pub fn extract_line_run(
    lines: &Vec<&str>,
    start_index: usize,
    dialect: Dialect,
    config: &Config,
) -> (found: (usize, Capture))
    ensures
        found.0 == run_end(lines.deep_view(), start_index as int, dialect.marker()),
        found.1@ == capture_of(lines.deep_view(), start_index as int, found.0 as int, config@),
        start_index <= lines.len() ==> start_index <= found.0 <= lines.len(),
        start_index < lines.len() && has_substring(
            lines.deep_view()[start_index as int],
            dialect.marker(),
        ) ==> start_index < found.0,
        found.1@.categories.no_duplicates(),
{
    let ghost all = lines.deep_view();
    let mut categories: Vec<String> = Vec::new();
    assert(categories.deep_view() =~= Seq::<Seq<char>>::empty());
    let mut i: usize = start_index;
    while i < lines.len()
        invariant_except_break
            start_index <= i,
            all == lines.deep_view(),
            categories.deep_view() == region_categories(all, start_index as int, i as int, config@),
            run_end(all, start_index as int, dialect.marker()) == run_end(
                all,
                i as int,
                dialect.marker(),
            ),
        ensures
            start_index <= i,
            categories.deep_view() == region_categories(all, start_index as int, i as int, config@),
            run_end(all, start_index as int, dialect.marker()) == i,
        decreases lines.len() - i,
    {
        assert(all[i as int] == lines[i as int]@);
        let chars = to_chars(lines[i]);
        if !dialect.marks(&chars) {
            break;
        }
        let names = find_categories_in(lines[i], &chars, config);
        add_names(&mut categories, &names);
        i += 1;
    }
    let text = render_lines(lines, start_index, i);
    proof {
        if start_index <= lines.len() {
            lemma_run_end(all, start_index as int, dialect.marker());
        }
        lemma_region_categories(all, start_index as int, i as int, config@);
    }
    (i, Capture { categories, text })
}

/// Consumes the block comment that starts on line `start_index` and records
/// its text in `file_info` under each of its categories. Returns the index
/// of the block's last line.
pub fn parse_comment_block(
    lines: &Vec<&str>,
    start_index: usize,
    file_info: &mut FileReport,
    config: &Config,
) -> (end_index: usize)
    ensures
        end_index == block_end(lines.deep_view(), start_index as int),
        final(file_info)@.path == old(file_info)@.path,
        final(file_info)@.categories == record_all(
            old(file_info)@.categories,
            region_categories(
                lines.deep_view(),
                start_index as int,
                block_stop(lines.deep_view(), start_index as int),
                config@,
            ),
            render_span(
                lines.deep_view(),
                start_index as int,
                block_stop(lines.deep_view(), start_index as int),
            ),
        ),
{
    let (end_index, capture) = extract_block(lines, start_index, config);
    file_info.record_capture(&capture);
    end_index
}

/// Consumes the run of line comments that starts on line `start_index` and
/// records its text in `file_info` under each of its categories. The run is
/// of `//` comments if `is_slash_slash`, of `#` comments otherwise. Returns
/// the index of the first line behind the run.
pub fn parse_comments(
    lines: &Vec<&str>,
    start_index: usize,
    file_info: &mut FileReport,
    is_slash_slash: bool,
    config: &Config,
) -> (end_index: usize)
    ensures
        end_index == run_end(lines.deep_view(), start_index as int, dialect_of(is_slash_slash).marker()),
        final(file_info)@.path == old(file_info)@.path,
        final(file_info)@.categories == record_all(
            old(file_info)@.categories,
            region_categories(lines.deep_view(), start_index as int, end_index as int, config@),
            render_span(lines.deep_view(), start_index as int, end_index as int),
        ),
{
    let dialect = if is_slash_slash {
        Dialect::Slashes
    } else {
        Dialect::Hash
    };
    let (end_index, capture) = extract_line_run(lines, start_index, dialect, config);
    file_info.record_capture(&capture);
    end_index
}

/// The dialect that a flag "is `//`" stands for.
pub open spec fn dialect_of(is_slash_slash: bool) -> Dialect {
    if is_slash_slash {
        Dialect::Slashes
    } else {
        Dialect::Hash
    }
}

} // verus!
