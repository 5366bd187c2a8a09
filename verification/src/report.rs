//! What an extraction produces: for one file, the categories found in it, in
//! the order in which they were first met, each with the texts of the
//! comments that refer to it.

use vstd::prelude::*;

verus! {

/// One category of a file and the comment texts recorded under it, oldest
/// first.
#[derive(Debug)]
pub struct CategoryEntry {
    pub name: String,
    pub blocks: Vec<String>,
}

/// The mathematical content of a [`CategoryEntry`].
pub struct CategoryView {
    pub name: Seq<char>,
    pub blocks: Seq<Seq<char>>,
}

impl DeepView for CategoryEntry {
    type V = CategoryView;

    open spec fn deep_view(&self) -> CategoryView {
        CategoryView { name: self.name@, blocks: self.blocks.deep_view() }
    }
}

/// One extracted comment: its text, and the categories it goes under.
#[derive(Debug)]
pub struct Capture {
    pub categories: Vec<String>,
    pub text: String,
}

/// The mathematical content of a [`Capture`].
pub struct CaptureView {
    pub categories: Seq<Seq<char>>,
    pub text: Seq<char>,
}

impl View for Capture {
    type V = CaptureView;

    open spec fn view(&self) -> CaptureView {
        CaptureView { categories: self.categories.deep_view(), text: self.text@ }
    }
}

/// The categories of one file.
#[derive(Debug)]
pub struct FileReport {
    pub path: String,
    pub categories: Vec<CategoryEntry>,
}

/// The mathematical content of a [`FileReport`].
pub struct FileReportView {
    pub path: Seq<char>,
    pub categories: Seq<CategoryView>,
}

impl View for FileReport {
    type V = FileReportView;

    open spec fn view(&self) -> FileReportView {
        FileReportView { path: self.path@, categories: self.categories.deep_view() }
    }
}

/// Index of the first entry at or after `from` that is named `name`, or
/// `categories.len()` when there is none.
pub open spec fn position_from(categories: Seq<CategoryView>, name: Seq<char>, from: int) -> int
    decreases categories.len() - from,
{
    if from < 0 || from >= categories.len() {
        categories.len() as int
    } else if categories[from].name == name {
        from
    } else {
        position_from(categories, name, from + 1)
    }
}

/// Index of the entry named `name`, or `categories.len()` when there is
/// none.
pub open spec fn position_of(categories: Seq<CategoryView>, name: Seq<char>) -> int {
    position_from(categories, name, 0)
}

/// Whether some entry is named `name`.
pub open spec fn has_category(categories: Seq<CategoryView>, name: Seq<char>) -> bool {
    position_of(categories, name) < categories.len()
}

/// The texts recorded under `name`; none where there is no such entry.
pub open spec fn blocks_of(categories: Seq<CategoryView>, name: Seq<char>) -> Seq<Seq<char>> {
    if has_category(categories, name) {
        categories[position_of(categories, name)].blocks
    } else {
        Seq::empty()
    }
}

/// `categories` after `text` has been recorded under `name`: appended to
/// the entry of that name, or put into a new entry at the end.
pub open spec fn record(categories: Seq<CategoryView>, name: Seq<char>, text: Seq<char>) -> Seq<
    CategoryView,
> {
    let at = position_of(categories, name);
    if at < categories.len() {
        categories.update(at, CategoryView { name: name, blocks: categories[at].blocks.push(text) })
    } else {
        categories.push(CategoryView { name: name, blocks: seq![text] })
    }
}

/// `categories` after `text` has been recorded under each of `names`, in
/// their order.
pub open spec fn record_all(
    categories: Seq<CategoryView>,
    names: Seq<Seq<char>>,
    text: Seq<char>,
) -> Seq<CategoryView>
    decreases names.len(),
{
    if names.len() == 0 {
        categories
    } else {
        record(record_all(categories, names.drop_last(), text), names.last(), text)
    }
}

/// No two entries have the same name, and no entry is without a text.
pub open spec fn well_formed(categories: Seq<CategoryView>) -> bool {
    &&& forall|i: int, j: int|
        0 <= i < j < categories.len() ==> (#[trigger] categories[i]).name != (
        #[trigger] categories[j]).name
    &&& forall|i: int| 0 <= i < categories.len() ==> (#[trigger] categories[i]).blocks.len() > 0
}

/// The report as a mapping from category name to recorded texts.
pub open spec fn as_map(categories: Seq<CategoryView>) -> Map<Seq<char>, Seq<Seq<char>>> {
    Map::new(
        |name: Seq<char>| has_category(categories, name),
        |name: Seq<char>| blocks_of(categories, name),
    )
}

/// `position_from` returns the least index at or after `from` whose entry
/// has the name.
pub proof fn lemma_position_from(categories: Seq<CategoryView>, name: Seq<char>, from: int)
    requires
        0 <= from <= categories.len(),
    ensures
        from <= position_from(categories, name, from) <= categories.len(),
        position_from(categories, name, from) < categories.len() ==> categories[position_from(
            categories,
            name,
            from,
        )].name == name,
        forall|k: int|
            from <= k < position_from(categories, name, from) ==> (#[trigger] categories[k]).name
                != name,
    decreases categories.len() - from,
{
    if from < categories.len() && categories[from].name != name {
        lemma_position_from(categories, name, from + 1);
    }
}

/// An index whose entry has the name, with no such entry between `from`
/// and it, is the one `position_from` returns.
pub proof fn lemma_position_from_is(
    categories: Seq<CategoryView>,
    name: Seq<char>,
    from: int,
    at: int,
)
    requires
        0 <= from <= at <= categories.len(),
        at < categories.len() ==> categories[at].name == name,
        forall|k: int| from <= k < at ==> (#[trigger] categories[k]).name != name,
    ensures
        position_from(categories, name, from) == at,
    decreases at - from,
{
    if from < at {
        assert(categories[from].name != name);
        lemma_position_from_is(categories, name, from + 1, at);
    }
}

/// Recording a text under a name appends it to the texts of that name and
/// leaves every other name as it was; the names of the entries that were
/// there stay in place.
pub proof fn lemma_record(
    categories: Seq<CategoryView>,
    name: Seq<char>,
    text: Seq<char>,
    other: Seq<char>,
)
    ensures
        has_category(record(categories, name, text), name),
        blocks_of(record(categories, name, text), name) == blocks_of(categories, name).push(text),
        other != name ==> has_category(record(categories, name, text), other) == has_category(
            categories,
            other,
        ),
        other != name ==> blocks_of(record(categories, name, text), other) == blocks_of(
            categories,
            other,
        ),
        other != name ==> position_of(record(categories, name, text), other) == (if has_category(
            categories,
            other,
        ) {
            position_of(categories, other)
        } else {
            record(categories, name, text).len() as int
        }),
{
    let after = record(categories, name, text);
    let at = position_of(categories, name);
    lemma_position_from(categories, name, 0);
    lemma_position_from_is(after, name, 0, at);
    if at == categories.len() {
        assert(blocks_of(categories, name).push(text) =~= seq![text]);
    }
    if other != name {
        let at_other = position_of(categories, other);
        lemma_position_from(categories, other, 0);
        if at_other < categories.len() {
            lemma_position_from_is(after, other, 0, at_other);
        } else {
            lemma_position_from_is(after, other, 0, after.len() as int);
        }
    }
}

/// Recording keeps a report well formed.
pub proof fn lemma_record_well_formed(
    categories: Seq<CategoryView>,
    name: Seq<char>,
    text: Seq<char>,
)
    requires
        well_formed(categories),
    ensures
        well_formed(record(categories, name, text)),
{
    lemma_position_from(categories, name, 0);
}

/// Recording under several names keeps a report well formed.
pub proof fn lemma_record_all_well_formed(
    categories: Seq<CategoryView>,
    names: Seq<Seq<char>>,
    text: Seq<char>,
)
    requires
        well_formed(categories),
    ensures
        well_formed(record_all(categories, names, text)),
    decreases names.len(),
{
    if names.len() > 0 {
        lemma_record_all_well_formed(categories, names.drop_last(), text);
        lemma_record_well_formed(
            record_all(categories, names.drop_last(), text),
            names.last(),
            text,
        );
    }
}

/// Seen as a mapping, recording a text under a name replaces the texts of
/// that name by the old ones followed by the new one.
pub proof fn lemma_record_as_map(categories: Seq<CategoryView>, name: Seq<char>, text: Seq<char>)
    ensures
        as_map(record(categories, name, text)) == as_map(categories).insert(
            name,
            blocks_of(categories, name).push(text),
        ),
{
    let after = as_map(record(categories, name, text));
    let expected = as_map(categories).insert(name, blocks_of(categories, name).push(text));
    assert forall|other: Seq<char>| #[trigger]
        after.dom().contains(other) == expected.dom().contains(other) && (after.dom().contains(
            other,
        ) ==> after[other] == expected[other]) by {
        lemma_record(categories, name, text, other);
    }
    assert(after =~= expected);
}

impl FileReport {
    /// A report for the file `path`, with no category yet.
    pub fn new(path: String) -> (report: FileReport)
        ensures
            report@.path == path@,
            report@.categories == Seq::<CategoryView>::empty(),
            well_formed(report@.categories),
    {
        let report = FileReport { path, categories: Vec::new() };
        assert(report@.categories =~= Seq::<CategoryView>::empty());
        report
    }

    /// Whether no category has been recorded.
    pub fn is_empty(&self) -> (empty: bool)
        ensures
            empty == (self@.categories.len() == 0),
    {
        self.categories.len() == 0
    }

    /// Index of the entry named `name`, if there is one.
    pub fn position(&self, name: &String) -> (at: Option<usize>)
        ensures
            at is Some <==> has_category(self@.categories, name@),
            at matches Some(i) ==> i == position_of(self@.categories, name@) && i
                < self.categories.len(),
    {
        let mut i: usize = 0;
        while i < self.categories.len()
            invariant
                i <= self.categories.len(),
                forall|k: int| 0 <= k < i ==> (#[trigger] self@.categories[k]).name != name@,
            decreases self.categories.len() - i,
        {
            if self.categories[i].name == *name {
                proof {
                    lemma_position_from_is(self@.categories, name@, 0, i as int);
                }
                return Some(i);
            }
            i += 1;
        }
        proof {
            lemma_position_from_is(self@.categories, name@, 0, i as int);
        }
        None
    }

    /// The texts recorded under `name`, if there are any.
    pub fn get(&self, name: &String) -> (blocks: Option<&Vec<String>>)
        ensures
            blocks is Some <==> has_category(self@.categories, name@),
            blocks matches Some(list) ==> list.deep_view() == blocks_of(self@.categories, name@),
    {
        match self.position(name) {
            Some(i) => Some(&self.categories[i].blocks),
            None => None,
        }
    }

    /// Records `text` under the category `name`: behind the texts that the
    /// category already has, or as the first text of a new category, which
    /// comes behind the categories that are already there.
    pub fn record(&mut self, name: &String, text: &String)
        ensures
            final(self)@.path == old(self)@.path,
            final(self)@.categories == record(old(self)@.categories, name@, text@),
            well_formed(old(self)@.categories) ==> well_formed(final(self)@.categories),
    {
        let ghost before = self@.categories;
        match self.position(name) {
            Some(i) => {
                let ghost old_blocks = self.categories[i as int].blocks.deep_view();
                proof {
                    lemma_position_from(before, name@, 0);
                }
                self.categories[i].blocks.push(text.clone());
                assert(self.categories[i as int].blocks.deep_view() =~= old_blocks.push(text@));
                assert forall|k: int| 0 <= k < before.len() implies #[trigger] self@.categories[k]
                    == record(before, name@, text@)[k] by {
                    if k != i {
                        assert(self.categories[k] == old(self).categories[k]);
                    }
                }
                assert(self@.categories =~= record(before, name@, text@));
            },
            None => {
                let mut blocks: Vec<String> = Vec::new();
                blocks.push(text.clone());
                assert(blocks.deep_view() =~= seq![text@]);
                self.categories.push(CategoryEntry { name: name.clone(), blocks });
                assert(self@.categories =~= record(before, name@, text@));
            },
        }
        proof {
            if well_formed(before) {
                lemma_record_well_formed(before, name@, text@);
            }
        }
    }

    /// Records the text of `capture` under each of its categories, in their
    /// order: one copy of the text per category.
    pub fn record_capture(&mut self, capture: &Capture)
        ensures
            final(self)@.path == old(self)@.path,
            final(self)@.categories == record_all(
                old(self)@.categories,
                capture@.categories,
                capture@.text,
            ),
            well_formed(old(self)@.categories) ==> well_formed(final(self)@.categories),
    {
        let ghost before = self@.categories;
        let ghost names = capture@.categories;
        let mut k: usize = 0;
        while k < capture.categories.len()
            invariant
                k <= capture.categories.len(),
                names == capture@.categories,
                self@.path == old(self)@.path,
                self@.categories == record_all(before, names.take(k as int), capture@.text),
            decreases capture.categories.len() - k,
        {
            assert(names.take(k as int + 1).drop_last() =~= names.take(k as int));
            assert(names.take(k as int + 1).last() == capture.categories[k as int]@);
            self.record(&capture.categories[k], &capture.text);
            k += 1;
        }
        proof {
            assert(names.take(k as int) =~= names);
            if well_formed(before) {
                lemma_record_all_well_formed(before, names, capture@.text);
            }
        }
    }
}

} // verus!
