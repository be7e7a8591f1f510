//! The options that steer cross-referencing and rendering.

use vstd::prelude::*;

use crate::qc_issue::string_views;

verus! {

/// How a dialogue line is written when it is attached to an issue.
#[derive(Clone, Copy, Debug, PartialEq, Eq, Structural)]
pub enum ReferenceFormat {
    /// The whole line of the script, style and speaker included.
    Full,
    /// The spoken text alone.
    Text,
}

/// The checklist marker that opens the line of every issue.
#[derive(Clone, Copy, Debug, PartialEq, Eq, Structural)]
pub enum Marker {
    /// `* [ ]`
    Star,
    /// `- [ ]`
    Dash,
}

/// The options on dialogue references.
#[derive(Debug)]
pub struct ReferenceConfig {
    /// Whether references are wanted at all.
    pub include_references: bool,
    /// The categories whose issues get references.
    pub reference_categories: Vec<String>,
    /// Whether every candidate is attached without asking.
    pub skip_reference_picker: bool,
    /// How a reference is written.
    pub reference_format: ReferenceFormat,
}

/// The options of one run.
#[derive(Debug)]
pub struct Config {
    /// The options on dialogue references.
    pub reference_options: ReferenceConfig,
    /// The categories to fold into one group, if any.
    pub merge_categories: Option<Vec<String>>,
    /// The marker of the checklist lines.
    pub marker: Marker,
}

/// What the options hold, as plain values.
pub struct ConfigView {
    pub include_references: bool,
    pub reference_categories: Seq<Seq<char>>,
    pub skip_reference_picker: bool,
    pub reference_format: ReferenceFormat,
    pub merge_categories: Option<Seq<Seq<char>>>,
    pub marker: Marker,
}

impl ConfigView {
    /// Whether issues of `category` are eligible for references: the
    /// category is among the configured ones, letter for letter.
    pub open spec fn is_eligible(self, category: Seq<char>) -> bool {
        self.reference_categories.contains(category)
    }

    /// Whether references are asked for on issues of `category`:
    /// references are wanted, and the category is eligible.
    pub open spec fn quotes(self, category: Seq<char>) -> bool {
        self.include_references && self.is_eligible(category)
    }

    /// These options for a run with or without a dialogue track: without
    /// one, references are off.
    pub open spec fn with_track(self, has_track: bool) -> ConfigView {
        ConfigView { include_references: self.include_references && has_track, ..self }
    }
}

/// The character sequences of a list of strings that may be absent.
pub open spec fn optional_views(list: Option<Vec<String>>) -> Option<Seq<Seq<char>>> {
    match list {
        Some(l) => Some(string_views(l@)),
        None => None,
    }
}

impl View for Config {
    type V = ConfigView;

    open spec fn view(&self) -> ConfigView {
        ConfigView {
            include_references: self.reference_options.include_references,
            reference_categories: string_views(self.reference_options.reference_categories@),
            skip_reference_picker: self.reference_options.skip_reference_picker,
            reference_format: self.reference_options.reference_format,
            merge_categories: optional_views(self.merge_categories),
            marker: self.marker,
        }
    }
}

/// The categories that get references unless others are named.
pub open spec fn default_categories() -> Seq<Seq<char>> {
    seq!["Linebreak"@, "Translation"@, "Spelling"@, "Punctuation"@, "Phrasing"@, "Note"@]
}

/// Whether `list` holds a string that reads `s`.
pub fn holds(list: &Vec<String>, s: &String) -> (r: bool)
    ensures
        r == string_views(list@).contains(s@),
{
    let mut i: usize = 0;
    while i < list.len()
        invariant
            i <= list.len(),
            forall|j: int| 0 <= j < i ==> string_views(list@)[j] != s@,
        decreases list.len() - i,
    {
        if list[i] == *s {
            assert(string_views(list@)[i as int] == s@);
            return true;
        }
        i += 1;
    }
    false
}

/// A copy of a list of strings.
pub fn clone_strings(list: &Vec<String>) -> (r: Vec<String>)
    ensures
        string_views(r@) == string_views(list@),
{
    let mut out: Vec<String> = Vec::new();
    let mut i: usize = 0;
    while i < list.len()
        invariant
            i <= list.len(),
            out.len() == i,
            forall|j: int| 0 <= j < i ==> out[j]@ == list[j]@,
        decreases list.len() - i,
    {
        out.push(list[i].clone());
        i += 1;
    }
    assert(string_views(out@) =~= string_views(list@));
    out
}

impl ReferenceConfig {
    /// The options that are in force unless others are given: no
    /// references, the usual categories, the picker on, whole lines.
    pub fn new() -> (r: ReferenceConfig)
        ensures
            !r.include_references,
            string_views(r.reference_categories@) == default_categories(),
            !r.skip_reference_picker,
            r.reference_format == ReferenceFormat::Full,
    {
        let mut categories: Vec<String> = Vec::new();
        categories.push("Linebreak".to_owned());
        categories.push("Translation".to_owned());
        categories.push("Spelling".to_owned());
        categories.push("Punctuation".to_owned());
        categories.push("Phrasing".to_owned());
        categories.push("Note".to_owned());
        assert(string_views(categories@) =~= default_categories());
        ReferenceConfig {
            include_references: false,
            reference_categories: categories,
            skip_reference_picker: false,
            reference_format: ReferenceFormat::Full,
        }
    }
}

impl Default for ReferenceConfig {
    fn default() -> (r: ReferenceConfig)
        ensures
            !r.include_references,
            string_views(r.reference_categories@) == default_categories(),
            !r.skip_reference_picker,
            r.reference_format == ReferenceFormat::Full,
    {
        ReferenceConfig::new()
    }
}

impl Config {
    /// The options that are in force unless others are given: the default
    /// reference options, no folding, and the star marker.
    pub fn new() -> (r: Config)
        ensures
            r@ == (ConfigView {
                include_references: false,
                reference_categories: default_categories(),
                skip_reference_picker: false,
                reference_format: ReferenceFormat::Full,
                merge_categories: None,
                marker: Marker::Star,
            }),
    {
        Config {
            reference_options: ReferenceConfig::new(),
            merge_categories: None,
            marker: Marker::Star,
        }
    }

    /// Whether issues of `category` are eligible for references.
    pub fn eligible(&self, category: &String) -> (r: bool)
        ensures
            r == self@.is_eligible(category@),
    {
        holds(&self.reference_options.reference_categories, category)
    }

    /// Whether references are asked for on issues of `category`.
    pub fn shows_references(&self, category: &String) -> (r: bool)
        ensures
            r == self@.quotes(category@),
    {
        self.reference_options.include_references && self.eligible(category)
    }

    /// These options for a run with or without a dialogue track: without
    /// one, references are off.
    pub fn with_track(self, has_track: bool) -> (r: Config)
        ensures
            r@ == self@.with_track(has_track),
    {
        let wanted = self.reference_options.include_references && has_track;
        Config {
            reference_options: ReferenceConfig {
                include_references: wanted,
                reference_categories: self.reference_options.reference_categories,
                skip_reference_picker: self.reference_options.skip_reference_picker,
                reference_format: self.reference_options.reference_format,
            },
            merge_categories: self.merge_categories,
            marker: self.marker,
        }
    }
}

impl Default for Config {
    fn default() -> (r: Config)
        ensures
            r@ == (ConfigView {
                include_references: false,
                reference_categories: default_categories(),
                skip_reference_picker: false,
                reference_format: ReferenceFormat::Full,
                merge_categories: None,
                marker: Marker::Star,
            }),
    {
        Config::new()
    }
}

impl Clone for Config {
    fn clone(&self) -> (r: Config)
        ensures
            r@ == self@,
    {
        let merge = match &self.merge_categories {
            Some(list) => Some(clone_strings(list)),
            None => None,
        };
        Config {
            reference_options: ReferenceConfig {
                include_references: self.reference_options.include_references,
                reference_categories: clone_strings(&self.reference_options.reference_categories),
                skip_reference_picker: self.reference_options.skip_reference_picker,
                reference_format: self.reference_options.reference_format,
            },
            merge_categories: merge,
            marker: self.marker,
        }
    }
}

} // verus!
