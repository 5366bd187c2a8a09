//! The resolved configuration of an extraction: which characters introduce a
//! tag, and which category names are let through.

use vstd::prelude::*;

verus! {

/// What to look for and what to keep.
///
/// `category_filter`, when present, lists the only names that may be
/// recorded. `ignore_filter`, when present, lists names that are never
/// recorded; it wins over `category_filter`.
#[derive(Debug)]
pub struct Config {
    pub spec_symbols: Vec<char>,
    pub category_filter: Option<Vec<String>>,
    pub ignore_filter: Option<Vec<String>>,
}

/// The mathematical content of a [`Config`]: the marker characters in the
/// order in which they are tried, and the names that each filter lists.
pub struct ConfigView {
    pub symbols: Seq<char>,
    pub category_filter: Option<Seq<Seq<char>>>,
    pub ignore_filter: Option<Seq<Seq<char>>>,
}

/// The names held by an optional list of names.
pub open spec fn name_list(names: Option<Vec<String>>) -> Option<Seq<Seq<char>>> {
    match names {
        Some(list) => Some(list.deep_view()),
        None => None,
    }
}

impl ConfigView {
    /// The filter policy: a name passes when the allow-list is absent or
    /// holds it, and the ignore-list is absent or does not hold it.
    pub open spec fn accepts(self, name: Seq<char>) -> bool {
        &&& self.category_filter matches Some(allowed) ==> allowed.contains(name)
        &&& self.ignore_filter matches Some(ignored) ==> !ignored.contains(name)
    }
}

/// The content of the default configuration: the single marker `@` and
/// no filters.
pub open spec fn default_view() -> ConfigView {
    ConfigView { symbols: seq!['@'], category_filter: None, ignore_filter: None }
}

impl View for Config {
    type V = ConfigView;

    open spec fn view(&self) -> ConfigView {
        ConfigView {
            symbols: self.spec_symbols@,
            category_filter: name_list(self.category_filter),
            ignore_filter: name_list(self.ignore_filter),
        }
    }
}

/// A tag token without its leading marker character.
pub open spec fn without_marker(token: Seq<char>) -> Seq<char> {
    if token.len() == 0 {
        token
    } else {
        token.subrange(1, token.len() as int)
    }
}

/// Whether `name` is one of `names`.
pub fn contains_name(names: &Vec<String>, name: &String) -> (found: bool)
    ensures
        found == names.deep_view().contains(name@),
{
    let mut i: usize = 0;
    while i < names.len()
        invariant
            i <= names.len(),
            forall|k: int| 0 <= k < i ==> names.deep_view()[k] != name@,
        decreases names.len() - i,
    {
        if names[i] == *name {
            assert(names.deep_view()[i as int] == name@);
            return true;
        }
        i += 1;
    }
    false
}

impl Config {
    /// The configuration used when nothing else is given: the single marker
    /// `@` and no filters.
    pub fn default() -> (config: Config)
        ensures
            config@ == default_view(),
            config.spec_symbols@ == seq!['@'],
            config.category_filter is None,
            config.ignore_filter is None,
            forall|name: Seq<char>| config@.accepts(name),
    {
        let config = Config { spec_symbols: vec!['@'], category_filter: None, ignore_filter: None };
        assert(config@.symbols =~= seq!['@']);
        config
    }

    /// Applies the filter policy to a category name.
    pub fn accepts(&self, name: &String) -> (accepted: bool)
        ensures
            accepted == self@.accepts(name@),
    {
        let allowed = match &self.category_filter {
            Some(list) => contains_name(list, name),
            None => true,
        };
        let ignored = match &self.ignore_filter {
            Some(list) => contains_name(list, name),
            None => false,
        };
        allowed && !ignored
    }
}

/// Applies the filter policy to a tag token: `s` is the tag as it stands in
/// the text, marker included, and the marker is taken off before the name is
/// compared with the filters.
pub fn check_word_against_config(config: &Config, s: &String) -> (accepted: bool)
    ensures
        accepted == config@.accepts(without_marker(s@)),
{
    let token = s.as_str();
    let len = token.unicode_len();
    if len == 0 {
        config.accepts(s)
    } else {
        let name = token.substring_char(1, len).to_owned();
        config.accepts(&name)
    }
}

} // verus!
