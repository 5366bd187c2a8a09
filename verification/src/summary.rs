//! The consolidated report as text: for every file that has a category, the
//! file's path, then each category with the texts recorded under it.
//!
//! ```text
//! <path>
//!
//! <tab><category>
//!
//! <text>
//!
//! <text>
//!
//!
//! ```

use vstd::prelude::*;
use crate::report::{CategoryEntry, CategoryView, FileReport, FileReportView};

verus! {

/// The first `count` texts of a category, each followed by an empty line.
pub open spec fn blocks_text(blocks: Seq<Seq<char>>, count: int) -> Seq<char>
    decreases count,
{
    if count <= 0 {
        Seq::empty()
    } else {
        blocks_text(blocks, count - 1) + blocks[count - 1] + seq!['\n', '\n']
    }
}

/// One category: a tab, the name, an empty line, the texts, and one more
/// line end.
pub open spec fn category_text(category: CategoryView) -> Seq<char> {
    seq!['\t'] + category.name + seq!['\n', '\n'] + blocks_text(
        category.blocks,
        category.blocks.len() as int,
    ) + seq!['\n']
}

/// The first `count` categories of a file, one after the other.
pub open spec fn categories_text(categories: Seq<CategoryView>, count: int) -> Seq<char>
    decreases count,
{
    if count <= 0 {
        Seq::empty()
    } else {
        categories_text(categories, count - 1) + category_text(categories[count - 1])
    }
}

/// One file: nothing where it has no category, else its path, an empty
/// line, and its categories.
pub open spec fn file_text(report: FileReportView) -> Seq<char> {
    if report.categories.len() == 0 {
        Seq::empty()
    } else {
        report.path + seq!['\n', '\n'] + categories_text(
            report.categories,
            report.categories.len() as int,
        )
    }
}

/// The first `count` files, one after the other.
pub open spec fn files_text(reports: Seq<FileReport>, count: int) -> Seq<char>
    decreases count,
{
    if count <= 0 {
        Seq::empty()
    } else {
        files_text(reports, count - 1) + file_text(reports[count - 1]@)
    }
}

/// Appends the text of one category to `out`.
pub fn append_category(out: &mut String, category: &CategoryEntry)
    ensures
        final(out)@ == old(out)@ + category_text(category.deep_view()),
{
    proof {
        reveal_strlit("\t");
        reveal_strlit("\n");
        reveal_strlit("\n\n");
    }
    let ghost head = old(out)@ + seq!['\t'] + category.name@ + seq!['\n', '\n'];
    let ghost blocks = category.blocks.deep_view();
    out.append("\t");
    out.append(category.name.as_str());
    out.append("\n\n");
    assert(out@ =~= head + blocks_text(blocks, 0));
    let mut i: usize = 0;
    while i < category.blocks.len()
        invariant
            i <= category.blocks.len(),
            blocks == category.blocks.deep_view(),
            "\n\n"@ == seq!['\n', '\n'],
            out@ == head + blocks_text(blocks, i as int),
        decreases category.blocks.len() - i,
    {
        assert(blocks[i as int] == category.blocks[i as int]@);
        out.append(category.blocks[i].as_str());
        out.append("\n\n");
        i += 1;
        assert(out@ =~= head + blocks_text(blocks, i as int));
    }
    out.append("\n");
    assert("\n"@ =~= seq!['\n']);
    assert(out@ =~= old(out)@ + category_text(category.deep_view()));
}

/// Appends the text of one file to `out`: nothing, where the file has no
/// category.
pub fn append_file(out: &mut String, report: &FileReport)
    ensures
        final(out)@ == old(out)@ + file_text(report@),
{
    let ghost categories = report@.categories;
    if report.categories.len() == 0 {
        assert(out@ =~= old(out)@ + file_text(report@));
        return ;
    }
    proof {
        reveal_strlit("\n\n");
    }
    let ghost head = old(out)@ + report.path@ + seq!['\n', '\n'];
    out.append(report.path.as_str());
    out.append("\n\n");
    assert(out@ =~= head + categories_text(categories, 0));
    let mut i: usize = 0;
    while i < report.categories.len()
        invariant
            i <= report.categories.len(),
            categories == report@.categories,
            out@ == head + categories_text(categories, i as int),
        decreases report.categories.len() - i,
    {
        assert(categories[i as int] == report.categories[i as int].deep_view());
        append_category(out, &report.categories[i]);
        i += 1;
        assert(out@ =~= head + categories_text(categories, i as int));
    }
    assert(out@ =~= old(out)@ + file_text(report@));
}

/// The text of the consolidated report over `reports`, in their order.
/// Files without a category leave no trace in it.
pub fn report_text(reports: &Vec<FileReport>) -> (text: String)
    ensures
        text@ == files_text(reports@, reports.len() as int),
{
    let mut text = String::new();
    let mut i: usize = 0;
    while i < reports.len()
        invariant
            i <= reports.len(),
            text@ == files_text(reports@, i as int),
        decreases reports.len() - i,
    {
        append_file(&mut text, &reports[i]);
        i += 1;
    }
    text
}

} // verus!
