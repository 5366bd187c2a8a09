//! The category matcher: which category names a line of text refers to.
//!
//! A tag is a marker character followed by the characters up to the next
//! space or colon (or the end of the line). Only the first occurrence of a
//! marker on a line starts a tag; every configured marker is looked for
//! independently. The tag's name is the tag without its marker.

use vstd::prelude::*;
use crate::config::{contains_name, Config, ConfigView};
use crate::text::{first_match, lemma_first_match, lemma_first_match_is, to_chars};

verus! {

/// The predicate "is the character `marker`".
pub open spec fn is_marker(marker: char) -> spec_fn(char) -> bool {
    |c: char| c == marker
}

/// The predicate "ends a tag introduced by `marker`": a space or a colon,
/// unless that character is the marker itself.
pub open spec fn ends_tag(marker: char) -> spec_fn(char) -> bool {
    |c: char| c != marker && (c == ' ' || c == ':')
}

/// Index of the first occurrence of `marker` in `line`; `line.len()` if it
/// does not occur.
pub open spec fn tag_start(line: Seq<char>, marker: char) -> int {
    first_match(line, is_marker(marker), 0)
}

/// Index just past the tag that starts at `tag_start`: the first space or
/// colon behind the marker, or `line.len()`.
pub open spec fn tag_end(line: Seq<char>, marker: char) -> int {
    first_match(line, ends_tag(marker), tag_start(line, marker) + 1)
}

/// The name of the tag that `marker` introduces on `line`: what stands
/// between the first occurrence of the marker and the end of the tag.
pub open spec fn tag_name(line: Seq<char>, marker: char) -> Seq<char>
    recommends
        line.contains(marker),
{
    line.subrange(tag_start(line, marker) + 1, tag_end(line, marker))
}

/// `found`, with `name` added at the end unless it is already there.
pub open spec fn with_name(found: Seq<Seq<char>>, name: Seq<char>) -> Seq<Seq<char>> {
    if found.contains(name) {
        found
    } else {
        found.push(name)
    }
}

/// `found`, followed by those of `names` that it does not hold yet, in
/// their order, each once.
pub open spec fn with_names(found: Seq<Seq<char>>, names: Seq<Seq<char>>) -> Seq<Seq<char>>
    decreases names.len(),
{
    if names.len() == 0 {
        found
    } else {
        with_name(with_names(found, names.drop_last()), names.last())
    }
}

/// The names that the first `count` markers of `config` yield on `line`, in
/// the order of the markers, each name once.
pub open spec fn categories_of_markers(line: Seq<char>, config: ConfigView, count: int) -> Seq<
    Seq<char>,
>
    decreases count,
{
    if count <= 0 {
        Seq::empty()
    } else {
        let before = categories_of_markers(line, config, count - 1);
        let marker = config.symbols[count - 1];
        if line.contains(marker) && config.accepts(tag_name(line, marker)) {
            with_name(before, tag_name(line, marker))
        } else {
            before
        }
    }
}

/// The category names that `line` refers to under `config`.
pub open spec fn line_categories(line: Seq<char>, config: ConfigView) -> Seq<Seq<char>> {
    categories_of_markers(line, config, config.symbols.len() as int)
}

/// `name` is the name of a tag on `line` that one of the first `count`
/// markers introduces and that the filters accept.
pub open spec fn is_category_of_markers(
    line: Seq<char>,
    config: ConfigView,
    count: int,
    name: Seq<char>,
) -> bool {
    exists|k: int|
        0 <= k < count && k < config.symbols.len() && line.contains(#[trigger] config.symbols[k])
            && tag_name(line, config.symbols[k]) == name && config.accepts(name)
}

/// `name` is the name of an accepted tag on `line`.
pub open spec fn is_category_of(line: Seq<char>, config: ConfigView, name: Seq<char>) -> bool {
    is_category_of_markers(line, config, config.symbols.len() as int, name)
}

/// Where the marker occurs, the tag lies inside the line, starts at the
/// first occurrence of the marker, and runs up to the first space or colon
/// behind it.
pub proof fn lemma_tag_bounds(line: Seq<char>, marker: char)
    ensures
        0 <= tag_start(line, marker) <= line.len(),
        line.contains(marker) <==> tag_start(line, marker) < line.len(),
        line.contains(marker) ==> line[tag_start(line, marker)] == marker,
        line.contains(marker) ==> tag_start(line, marker) < tag_end(line, marker) <= line.len(),
        line.contains(marker) ==> tag_name(line, marker).len() == tag_end(line, marker)
            - tag_start(line, marker) - 1,
        forall|k: int|
            0 <= k < tag_name(line, marker).len() && line.contains(marker) ==> !ends_tag(marker)(
                #[trigger] tag_name(line, marker)[k],
            ),
{
    let start = tag_start(line, marker);
    lemma_first_match(line, is_marker(marker), 0);
    if line.contains(marker) {
        let at = choose|i: int| 0 <= i < line.len() && line[i] == marker;
        if start > at {
            assert(!is_marker(marker)(line[at]));
        }
        lemma_first_match(line, ends_tag(marker), start + 1);
        let end = tag_end(line, marker);
        assert forall|k: int| 0 <= k < tag_name(line, marker).len() implies !ends_tag(marker)(
            #[trigger] tag_name(line, marker)[k],
        ) by {
            assert(tag_name(line, marker)[k] == line[start + 1 + k]);
        }
    } else {
        if start < line.len() {
            assert(line[start] == marker);
        }
    }
}

/// What `categories_of_markers` holds: exactly the accepted tag names of the
/// first `count` markers, none of them twice.
pub proof fn lemma_categories_of_markers(line: Seq<char>, config: ConfigView, count: int)
    requires
        0 <= count <= config.symbols.len(),
    ensures
        categories_of_markers(line, config, count).no_duplicates(),
        forall|name: Seq<char>| #[trigger]
            categories_of_markers(line, config, count).contains(name) <==> is_category_of_markers(
                line,
                config,
                count,
                name,
            ),
    decreases count,
{
    let now = categories_of_markers(line, config, count);
    if count > 0 {
        let before = categories_of_markers(line, config, count - 1);
        let marker = config.symbols[count - 1];
        let tag = tag_name(line, marker);
        let adds = line.contains(marker) && config.accepts(tag);
        lemma_categories_of_markers(line, config, count - 1);
        assert forall|name: Seq<char>| #[trigger]
            now.contains(name) <==> is_category_of_markers(line, config, count, name) by {
            if now.contains(name) {
                if before.contains(name) {
                    assert(is_category_of_markers(line, config, count - 1, name));
                    let k = choose|k: int|
                        0 <= k < count - 1 && k < config.symbols.len() && line.contains(
                            #[trigger] config.symbols[k],
                        ) && tag_name(line, config.symbols[k]) == name && config.accepts(name);
                    assert(line.contains(config.symbols[k]));
                } else {
                    let i = choose|i: int| 0 <= i < now.len() && now[i] == name;
                    assert(now == before.push(tag));
                    assert(i == before.len());
                    assert(name == tag);
                    assert(line.contains(config.symbols[count - 1]));
                }
            }
            if is_category_of_markers(line, config, count, name) {
                let k = choose|k: int|
                    0 <= k < count && k < config.symbols.len() && line.contains(
                        #[trigger] config.symbols[k],
                    ) && tag_name(line, config.symbols[k]) == name && config.accepts(name);
                if k < count - 1 {
                    assert(is_category_of_markers(line, config, count - 1, name));
                    assert(before.contains(name));
                    let i = choose|i: int| 0 <= i < before.len() && before[i] == name;
                    if now != before {
                        assert(now[i] == name);
                    }
                } else {
                    assert(name == tag && adds);
                    if before.contains(tag) {
                    } else {
                        assert(now[before.len() as int] == tag);
                    }
                }
            }
        }
    } else {
        assert forall|name: Seq<char>| #[trigger]
            now.contains(name) <==> is_category_of_markers(line, config, count, name) by {}
    }
}

/// What `line_categories` holds:
/// - exactly the names of the accepted tags of the line, each once;
/// - nothing, where no configured marker occurs on the line;
/// - with both filters absent, the name of the tag of every configured
///   marker that occurs on the line.
pub proof fn lemma_line_categories(line: Seq<char>, config: ConfigView)
    ensures
        line_categories(line, config).no_duplicates(),
        forall|name: Seq<char>| #[trigger]
            line_categories(line, config).contains(name) <==> is_category_of(line, config, name),
        forall|name: Seq<char>| #[trigger]
            line_categories(line, config).contains(name) ==> config.accepts(name),
        (forall|k: int| 0 <= k < config.symbols.len() ==> !line.contains(#[trigger] config.symbols[k]))
            ==> line_categories(line, config) == Seq::<Seq<char>>::empty(),
        config.category_filter is None && config.ignore_filter is None ==> forall|k: int|
            0 <= k < config.symbols.len() && line.contains(#[trigger] config.symbols[k])
                ==> line_categories(line, config).contains(tag_name(line, config.symbols[k])),
{
    let all = line_categories(line, config);
    lemma_categories_of_markers(line, config, config.symbols.len() as int);
    if forall|k: int| 0 <= k < config.symbols.len() ==> !line.contains(#[trigger] config.symbols[k]) {
        if all.len() > 0 {
            assert(all.contains(all[0]));
            assert(is_category_of(line, config, all[0]));
        }
        assert(all =~= Seq::<Seq<char>>::empty());
    }
    if config.category_filter is None && config.ignore_filter is None {
        assert forall|k: int|
            0 <= k < config.symbols.len() && line.contains(
                #[trigger] config.symbols[k],
            ) implies all.contains(tag_name(line, config.symbols[k])) by {
            assert(is_category_of(line, config, tag_name(line, config.symbols[k])));
        }
    }
}

/// `with_names` is a union that keeps the order of discovery: the result
/// starts with `found`, holds exactly the names of `found` and of `names`,
/// and holds none twice if `found` held none twice.
pub proof fn lemma_with_names(found: Seq<Seq<char>>, names: Seq<Seq<char>>)
    ensures
        found.is_prefix_of(with_names(found, names)),
        forall|name: Seq<char>| #[trigger]
            with_names(found, names).contains(name) <==> found.contains(name) || names.contains(
                name,
            ),
        found.no_duplicates() ==> with_names(found, names).no_duplicates(),
    decreases names.len(),
{
    let all = with_names(found, names);
    if names.len() > 0 {
        let before = with_names(found, names.drop_last());
        let last = names.last();
        lemma_with_names(found, names.drop_last());
        assert forall|name: Seq<char>| #[trigger]
            all.contains(name) <==> found.contains(name) || names.contains(name) by {
            if all.contains(name) {
                if before.contains(name) {
                    if names.drop_last().contains(name) {
                        let i = choose|i: int|
                            0 <= i < names.drop_last().len() && names.drop_last()[i] == name;
                        assert(names[i] == name);
                    }
                } else {
                    let i = choose|i: int| 0 <= i < all.len() && all[i] == name;
                    assert(all == before.push(last));
                    assert(i == before.len());
                    assert(names[names.len() - 1] == name);
                }
            }
            if found.contains(name) || names.contains(name) {
                if name == last {
                    if !before.contains(last) {
                        assert(all[before.len() as int] == last);
                    }
                } else {
                    if names.contains(name) {
                        let i = choose|i: int| 0 <= i < names.len() && names[i] == name;
                        assert(names.drop_last()[i] == name);
                    }
                    assert(before.contains(name));
                    let j = choose|j: int| 0 <= j < before.len() && before[j] == name;
                    assert(all[j] == name);
                }
            }
        }
    } else {
        assert forall|name: Seq<char>| #[trigger]
            all.contains(name) <==> found.contains(name) || names.contains(name) by {}
    }
}

/// Finds the tag that `marker` introduces on `line`: the index of the first
/// occurrence of the marker and the index just past the tag, or `None`
/// where the marker does not occur.
pub fn locate_tag(line: &Vec<char>, marker: char) -> (found: Option<(usize, usize)>)
    ensures
        found is Some <==> line@.contains(marker),
        found matches Some((start, end)) ==> start == tag_start(line@, marker) && end == tag_end(
            line@,
            marker,
        ) && start < end <= line.len(),
{
    let mut start: usize = 0;
    while start < line.len() && line[start] != marker
        invariant
            start <= line.len(),
            forall|k: int| 0 <= k < start ==> !is_marker(marker)(#[trigger] line@[k]),
        decreases line.len() - start,
    {
        start += 1;
    }
    proof {
        lemma_first_match_is(line@, is_marker(marker), 0, start as int);
        lemma_tag_bounds(line@, marker);
    }
    if start == line.len() {
        return None;
    }
    let mut end: usize = start + 1;
    while end < line.len() && (line[end] == marker || (line[end] != ' ' && line[end] != ':'))
        invariant
            start < end <= line.len(),
            forall|k: int| start < k < end ==> !ends_tag(marker)(#[trigger] line@[k]),
        decreases line.len() - end,
    {
        end += 1;
    }
    proof {
        lemma_first_match_is(line@, ends_tag(marker), start as int + 1, end as int);
    }
    Some((start, end))
}

/// The category names that `line` refers to under `config`.
///
/// Every configured marker is looked for on the line; the tag behind its
/// first occurrence, marker taken off, is recorded when the filters accept
/// it and it has not been recorded for this line before.
pub fn find_categories(line: &str, config: &Config) -> (names: Vec<String>)
    ensures
        names.deep_view() == line_categories(line@, config@),
        names.deep_view().no_duplicates(),
        forall|name: Seq<char>| #[trigger]
            names.deep_view().contains(name) <==> is_category_of(line@, config@, name),
        forall|name: Seq<char>| #[trigger]
            names.deep_view().contains(name) ==> config@.accepts(name),
        (forall|k: int|
            0 <= k < config.spec_symbols.len() ==> !line@.contains(
                #[trigger] config.spec_symbols[k],
            )) ==> names.len() == 0,
        config.category_filter is None && config.ignore_filter is None ==> forall|k: int|
            0 <= k < config.spec_symbols.len() && line@.contains(#[trigger] config.spec_symbols[k])
                ==> names.deep_view().contains(tag_name(line@, config.spec_symbols[k])),
{
    let chars = to_chars(line);
    let names = find_categories_in(line, &chars, config);
    proof {
        lemma_line_categories(line@, config@);
        assert(names.deep_view().len() == names.len());
    }
    names
}

/// [`find_categories`] for a caller that already holds the characters of
/// the line.
pub fn find_categories_in(line: &str, chars: &Vec<char>, config: &Config) -> (names: Vec<String>)
    requires
        chars@ == line@,
    ensures
        names.deep_view() == line_categories(line@, config@),
{
    let mut names: Vec<String> = Vec::new();
    let mut k: usize = 0;
    assert(names.deep_view() =~= Seq::<Seq<char>>::empty());
    while k < config.spec_symbols.len()
        invariant
            k <= config.spec_symbols.len(),
            chars@ == line@,
            names.deep_view() == categories_of_markers(line@, config@, k as int),
        decreases config.spec_symbols.len() - k,
    {
        let marker = config.spec_symbols[k];
        if let Some((start, end)) = locate_tag(chars, marker) {
            proof {
                lemma_tag_bounds(line@, marker);
            }
            let name = line.substring_char(start + 1, end).to_owned();
            if !contains_name(&names, &name) && config.accepts(&name) {
                let ghost before = names.deep_view();
                names.push(name);
                assert(names.deep_view() =~= before.push(name@));
            }
        }
        k += 1;
    }
    names
}

/// Adds to `found` those of `names` that it does not hold yet, in their
/// order.
pub fn add_names(found: &mut Vec<String>, names: &Vec<String>)
    ensures
        final(found).deep_view() == with_names(old(found).deep_view(), names.deep_view()),
{
    let ghost before = found.deep_view();
    let ghost all = names.deep_view();
    let mut k: usize = 0;
    while k < names.len()
        invariant
            k <= names.len(),
            all == names.deep_view(),
            found.deep_view() == with_names(before, all.take(k as int)),
        decreases names.len() - k,
    {
        assert(all.take(k as int + 1).drop_last() =~= all.take(k as int));
        assert(all.take(k as int + 1).last() == names[k as int]@);
        if !contains_name(found, &names[k]) {
            let ghost so_far = found.deep_view();
            found.push(names[k].clone());
            assert(found.deep_view() =~= so_far.push(names[k as int]@));
        }
        k += 1;
    }
    assert(all.take(k as int) =~= all);
}

} // verus!
