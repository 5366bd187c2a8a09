//! A configuration written down as lines of text.
//!
//! A line that, white space at its ends apart, reads `[Symbols]`,
//! `[Categories]` or `[Ignore]` opens a section. The line after `[Symbols]`
//! holds the marker characters, unless it is blank. The lines after
//! `[Categories]` and `[Ignore]`, up to the next blank line, hold one name
//! each, taken as they stand. What no section sets keeps its default.

use vstd::prelude::*;
use crate::config::{default_view, Config, ConfigView};
use crate::text::{first_match, lemma_first_match_is, to_chars};

verus! {

/// Whether `c` is white space to `char::is_whitespace`, that is, whether
/// Unicode gives it the property `White_Space`.
pub uninterp spec fn is_whitespace(c: char) -> bool;

/// Calls `char::is_whitespace`. Nothing is proved of it: the contract
/// only gives its answer the name `is_whitespace(c)`, and leaves open
/// which characters are white space.
#[verifier::external_body]
fn char_is_whitespace(c: char) -> (white: bool)
    ensures
        white == is_whitespace(c),
{
    c.is_whitespace()
}

/// The predicate "is not white space".
pub open spec fn not_whitespace() -> spec_fn(char) -> bool {
    |c: char| !is_whitespace(c)
}

/// Index of the first character of `line` that is not white space, or
/// `line.len()`.
pub open spec fn trim_start(line: Seq<char>) -> int {
    first_match(line, not_whitespace(), 0)
}

/// Index just past the last character among the first `end` of `line` that
/// is not white space, or 0.
pub open spec fn trim_end(line: Seq<char>, end: int) -> int
    decreases end,
{
    if end <= 0 {
        0
    } else if !is_whitespace(line[end - 1]) {
        end
    } else {
        trim_end(line, end - 1)
    }
}

/// `line` without the white space at its two ends.
pub open spec fn trimmed(line: Seq<char>) -> Seq<char> {
    let start = trim_start(line);
    let end = trim_end(line, line.len() as int);
    if start < end {
        line.subrange(start, end)
    } else {
        Seq::empty()
    }
}

/// `line` holds nothing but white space.
pub open spec fn is_blank(line: Seq<char>) -> bool {
    trimmed(line).len() == 0
}

/// Index of the first blank line at or after `from`, or the number of lines.
pub open spec fn section_end(lines: Seq<Seq<char>>, from: int) -> int
    decreases lines.len() - from,
{
    if from < 0 || from >= lines.len() {
        lines.len() as int
    } else if is_blank(lines[from]) {
        from
    } else {
        section_end(lines, from + 1)
    }
}

/// Index of the line behind the blank line that ends a section at `end`;
/// the number of lines where the section runs to the end.
pub open spec fn behind(lines: Seq<Seq<char>>, end: int) -> int {
    if end < lines.len() {
        end + 1
    } else {
        end
    }
}

/// The configuration that the lines from `index` on make of `config`.
pub open spec fn config_after(lines: Seq<Seq<char>>, index: int, config: ConfigView) -> ConfigView
    decreases lines.len() - index,
    via config_after_terminates
{
    if index < 0 || index >= lines.len() {
        config
    } else if trimmed(lines[index]) == "[Symbols]"@ {
        if index + 1 < lines.len() && !is_blank(lines[index + 1]) {
            config_after(
                lines,
                index + 2,
                ConfigView {
                    symbols: lines[index + 1],
                    category_filter: config.category_filter,
                    ignore_filter: config.ignore_filter,
                },
            )
        } else {
            config_after(lines, index + 1, config)
        }
    } else if trimmed(lines[index]) == "[Categories]"@ {
        let end = section_end(lines, index + 1);
        let names = lines.subrange(index + 1, end);
        config_after(
            lines,
            behind(lines, end),
            ConfigView {
                symbols: config.symbols,
                category_filter: if names.len() > 0 {
                    Some(names)
                } else {
                    config.category_filter
                },
                ignore_filter: config.ignore_filter,
            },
        )
    } else if trimmed(lines[index]) == "[Ignore]"@ {
        let end = section_end(lines, index + 1);
        let names = lines.subrange(index + 1, end);
        config_after(
            lines,
            behind(lines, end),
            ConfigView {
                symbols: config.symbols,
                category_filter: config.category_filter,
                ignore_filter: if names.len() > 0 {
                    Some(names)
                } else {
                    config.ignore_filter
                },
            },
        )
    } else {
        config_after(lines, index + 1, config)
    }
}

#[via_fn]
proof fn config_after_terminates(lines: Seq<Seq<char>>, index: int, config: ConfigView) {
    if 0 <= index < lines.len() {
        lemma_section_end(lines, index + 1);
    }
}

/// The configuration that `lines` describe.
pub open spec fn config_of_lines(lines: Seq<Seq<char>>) -> ConfigView {
    config_after(lines, 0, default_view())
}

/// A section ends at or after its first line and inside the file; no line
/// of it is blank, and the line that ends it is.
pub proof fn lemma_section_end(lines: Seq<Seq<char>>, from: int)
    requires
        0 <= from <= lines.len(),
    ensures
        from <= section_end(lines, from) <= lines.len(),
        forall|k: int| from <= k < section_end(lines, from) ==> !is_blank(#[trigger] lines[k]),
        section_end(lines, from) < lines.len() ==> is_blank(lines[section_end(lines, from)]),
    decreases lines.len() - from,
{
    if from < lines.len() && !is_blank(lines[from]) {
        lemma_section_end(lines, from + 1);
    }
}

/// Where the white space at the two ends of `line` stops: the index of the
/// first character that is none, and the index just past the last one.
pub fn trim_bounds(line: &Vec<char>) -> (bounds: (usize, usize))
    ensures
        bounds.0 == trim_start(line@),
        bounds.1 == trim_end(line@, line.len() as int),
        bounds.0 <= line.len(),
        bounds.1 <= line.len(),
{
    let mut start: usize = 0;
    while start < line.len() && char_is_whitespace(line[start])
        invariant
            start <= line.len(),
            forall|k: int| 0 <= k < start ==> !not_whitespace()(#[trigger] line@[k]),
        decreases line.len() - start,
    {
        start += 1;
    }
    proof {
        lemma_first_match_is(line@, not_whitespace(), 0, start as int);
    }
    let mut end: usize = line.len();
    while end > 0 && char_is_whitespace(line[end - 1])
        invariant
            end <= line.len(),
            trim_end(line@, line.len() as int) == trim_end(line@, end as int),
        decreases end,
    {
        end -= 1;
    }
    (start, end)
}

/// Whether `line`, white space at its ends apart, reads `wanted`.
pub fn trimmed_is(line: &Vec<char>, wanted: &Vec<char>) -> (same: bool)
    ensures
        same == (trimmed(line@) == wanted@),
{
    let (start, end) = trim_bounds(line);
    if start >= end {
        assert(trimmed(line@) =~= Seq::<char>::empty());
        assert(wanted.len() == 0 <==> wanted@ =~= Seq::<char>::empty());
        return wanted.len() == 0;
    }
    if end - start != wanted.len() {
        return false;
    }
    let mut k: usize = 0;
    while k < wanted.len()
        invariant
            start < end <= line.len(),
            end - start == wanted.len(),
            k <= wanted.len(),
            trimmed(line@) == line@.subrange(start as int, end as int),
            forall|j: int| 0 <= j < k ==> line@[start + j] == wanted@[j],
        decreases wanted.len() - k,
    {
        if line[start + k] != wanted[k] {
            assert(trimmed(line@)[k as int] != wanted@[k as int]);
            return false;
        }
        k += 1;
    }
    assert(trimmed(line@) =~= wanted@);
    true
}

/// Whether `line` holds nothing but white space.
pub fn line_is_blank(line: &str) -> (blank: bool)
    ensures
        blank == is_blank(line@),
{
    let chars = to_chars(line);
    let (start, end) = trim_bounds(&chars);
    start >= end
}

/// Reads the names of a section: the lines from `from` up to the next blank
/// line. Returns the index of that blank line, or the number of lines, and
/// the names.
pub fn read_section(lines: &Vec<&str>, from: usize) -> (found: (usize, Vec<String>))
    requires
        from <= lines.len(),
    ensures
        found.0 == section_end(lines.deep_view(), from as int),
        from <= found.0 <= lines.len(),
        found.1.deep_view() == lines.deep_view().subrange(from as int, found.0 as int),
{
    let ghost all = lines.deep_view();
    let mut names: Vec<String> = Vec::new();
    let mut i: usize = from;
    assert(names.deep_view() =~= all.subrange(from as int, i as int));
    while i < lines.len()
        invariant_except_break
            from <= i <= lines.len(),
            all == lines.deep_view(),
            section_end(all, from as int) == section_end(all, i as int),
            names.deep_view() == all.subrange(from as int, i as int),
        ensures
            from <= i <= lines.len(),
            section_end(all, from as int) == i,
            names.deep_view() == all.subrange(from as int, i as int),
        decreases lines.len() - i,
    {
        assert(all[i as int] == lines[i as int]@);
        if line_is_blank(lines[i]) {
            break;
        }
        let ghost before = names.deep_view();
        names.push(lines[i].to_owned());
        assert(names.deep_view() =~= before.push(lines[i as int]@));
        i += 1;
        assert(names.deep_view() =~= all.subrange(from as int, i as int));
    }
    (i, names)
}

/// The configuration that `lines` describe.
pub fn config_from_lines(lines: &Vec<&str>) -> (config: Config)
    ensures
        config@ == config_of_lines(lines.deep_view()),
{
    let ghost all = lines.deep_view();
    let symbols = to_chars("[Symbols]");
    let categories = to_chars("[Categories]");
    let ignore = to_chars("[Ignore]");
    let mut config = Config::default();
    let mut i: usize = 0;
    while i < lines.len()
        invariant
            all == lines.deep_view(),
            symbols@ == "[Symbols]"@,
            categories@ == "[Categories]"@,
            ignore@ == "[Ignore]"@,
            config_of_lines(all) == config_after(all, i as int, config@),
        decreases lines.len() - i,
    {
        assert(all[i as int] == lines[i as int]@);
        let chars = to_chars(lines[i]);
        if trimmed_is(&chars, &symbols) {
            if i + 1 < lines.len() {
                assert(all[i as int + 1] == lines[i as int + 1]@);
                if !line_is_blank(lines[i + 1]) {
                    config.spec_symbols = to_chars(lines[i + 1]);
                    i += 1;
                }
            }
            i += 1;
        } else if trimmed_is(&chars, &categories) {
            let (end, names) = read_section(lines, i + 1);
            if names.len() > 0 {
                config.category_filter = Some(names);
            }
            i = if end < lines.len() {
                end + 1
            } else {
                end
            };
        } else if trimmed_is(&chars, &ignore) {
            let (end, names) = read_section(lines, i + 1);
            if names.len() > 0 {
                config.ignore_filter = Some(names);
            }
            i = if end < lines.len() {
                end + 1
            } else {
                end
            };
        } else {
            i += 1;
        }
    }
    config
}

} // verus!
