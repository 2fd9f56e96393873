//! Conversion options and their resolution.
use vstd::prelude::*;
use crate::consts::not_supported_keywords;
use crate::text::{contains_str, owned, strings_view};

verus! {

/// Caller-facing options. Every field is optional; unset fields take the
/// defaults described on [`ResolvedOptions`].
#[derive(Clone, Debug)]
pub struct Options {
    /// Rewrite `format: "date"` to `format: "date-time"`. Default false.
    pub date_to_date_time: Option<bool>,
    /// Accepted for compatibility and ignored: conversion takes its input by
    /// value and never changes the caller's data. Default true.
    pub clone_schema: Option<bool>,
    /// Move `x-patternProperties` to `patternProperties` and run the handler.
    /// Default false.
    pub support_pattern_properties: Option<bool>,
    /// Keywords to keep that would otherwise be stripped. Default empty.
    pub keep_not_supported: Option<Vec<String>>,
    /// Reject `type` values outside the draft-04 type set. Default true.
    pub strict_mode: Option<bool>,
    /// Drop object properties marked `readOnly: true`. Default false.
    pub remove_read_only: Option<bool>,
    /// Drop object properties marked `writeOnly: true`. Default false.
    pub remove_write_only: Option<bool>,
    /// Dotted paths whose values hold named sub-schemas to convert, for
    /// example `"definitions"` or `"schema.definitions"`. Default empty.
    pub definition_keywords: Option<Vec<String>>,
}

/// The mathematical value of [`Options`].
pub struct OptionsView {
    pub date_to_date_time: Option<bool>,
    pub clone_schema: Option<bool>,
    pub support_pattern_properties: Option<bool>,
    pub keep_not_supported: Option<Seq<Seq<char>>>,
    pub strict_mode: Option<bool>,
    pub remove_read_only: Option<bool>,
    pub remove_write_only: Option<bool>,
    pub definition_keywords: Option<Seq<Seq<char>>>,
}

/// The strings of an optional list.
pub open spec fn opt_strings(v: Option<Vec<String>>) -> Option<Seq<Seq<char>>> {
    match v {
        Some(l) => Some(strings_view(l@)),
        None => None,
    }
}

impl View for Options {
    type V = OptionsView;

    open spec fn view(&self) -> OptionsView {
        OptionsView {
            date_to_date_time: self.date_to_date_time,
            clone_schema: self.clone_schema,
            support_pattern_properties: self.support_pattern_properties,
            keep_not_supported: opt_strings(self.keep_not_supported),
            strict_mode: self.strict_mode,
            remove_read_only: self.remove_read_only,
            remove_write_only: self.remove_write_only,
            definition_keywords: opt_strings(self.definition_keywords),
        }
    }
}

/// Options with nothing set.
pub open spec fn empty_options() -> OptionsView {
    OptionsView {
        date_to_date_time: None,
        clone_schema: None,
        support_pattern_properties: None,
        keep_not_supported: None,
        strict_mode: None,
        remove_read_only: None,
        remove_write_only: None,
        definition_keywords: None,
    }
}

impl Default for Options {
    fn default() -> (r: Self)
        ensures
            r@ == empty_options(),
    {
        Options {
            date_to_date_time: None,
            clone_schema: None,
            support_pattern_properties: None,
            keep_not_supported: None,
            strict_mode: None,
            remove_read_only: None,
            remove_write_only: None,
            definition_keywords: None,
        }
    }
}

impl Options {
    /// Options with nothing set; every setting takes its default.
    pub fn new() -> (r: Self)
        ensures
            r@ == empty_options(),
    {
        Options::default()
    }

    /// Set `date_to_date_time`.
    pub fn date_to_date_time(self, value: bool) -> (r: Self)
        ensures
            r@ == (OptionsView { date_to_date_time: Some(value), ..self@ }),
    {
        let mut s = self;
        s.date_to_date_time = Some(value);
        s
    }

    /// Set `clone_schema`, which has no effect on the result.
    pub fn clone_schema(self, value: bool) -> (r: Self)
        ensures
            r@ == (OptionsView { clone_schema: Some(value), ..self@ }),
    {
        let mut s = self;
        s.clone_schema = Some(value);
        s
    }

    /// Set `support_pattern_properties`.
    pub fn support_pattern_properties(self, value: bool) -> (r: Self)
        ensures
            r@ == (OptionsView { support_pattern_properties: Some(value), ..self@ }),
    {
        let mut s = self;
        s.support_pattern_properties = Some(value);
        s
    }

    /// Set `keep_not_supported`.
    pub fn keep_not_supported(self, value: Vec<String>) -> (r: Self)
        ensures
            r@ == (OptionsView { keep_not_supported: Some(strings_view(value@)), ..self@ }),
    {
        let mut s = self;
        s.keep_not_supported = Some(value);
        s
    }

    /// Set `strict_mode`.
    pub fn strict_mode(self, value: bool) -> (r: Self)
        ensures
            r@ == (OptionsView { strict_mode: Some(value), ..self@ }),
    {
        let mut s = self;
        s.strict_mode = Some(value);
        s
    }

    /// Set `remove_read_only`.
    pub fn remove_read_only(self, value: bool) -> (r: Self)
        ensures
            r@ == (OptionsView { remove_read_only: Some(value), ..self@ }),
    {
        let mut s = self;
        s.remove_read_only = Some(value);
        s
    }

    /// Set `remove_write_only`.
    pub fn remove_write_only(self, value: bool) -> (r: Self)
        ensures
            r@ == (OptionsView { remove_write_only: Some(value), ..self@ }),
    {
        let mut s = self;
        s.remove_write_only = Some(value);
        s
    }

    /// Set `definition_keywords`.
    pub fn definition_keywords(self, value: Vec<String>) -> (r: Self)
        ensures
            r@ == (OptionsView { definition_keywords: Some(strings_view(value@)), ..self@ }),
    {
        let mut s = self;
        s.definition_keywords = Some(value);
        s
    }
}

/// How a field that holds a closure is shown: set or unset.
pub fn closure_field(set: bool) -> (r: &'static str)
    ensures
        r@ == (if set {
            "Some(<closure>)"@
        } else {
            "None"@
        }),
{
    if set {
        "Some(<closure>)"
    } else {
        "None"
    }
}

/// The settings a conversion runs with.
pub struct Config {
    pub date_to_date_time: bool,
    pub support_pattern_properties: bool,
    pub strict_mode: bool,
    pub definition_keywords: Seq<Seq<char>>,
    /// Property flags that drop a property, `readOnly` before `writeOnly`.
    pub remove_props: Seq<Seq<char>>,
    /// Keywords stripped after transform, in table order, minus those kept.
    pub not_supported: Seq<Seq<char>>,
}

/// The listed strings, or none.
pub open spec fn strings_or_empty(v: Option<Seq<Seq<char>>>) -> Seq<Seq<char>> {
    match v {
        Some(l) => l,
        None => Seq::empty(),
    }
}

/// The property flags that drop a property.
pub open spec fn removal_flags(o: OptionsView) -> Seq<Seq<char>> {
    (if o.remove_read_only == Some(true) {
        seq!["readOnly"@]
    } else {
        Seq::empty()
    }) + (if o.remove_write_only == Some(true) {
        seq!["writeOnly"@]
    } else {
        Seq::empty()
    })
}

/// The keywords stripped after transform: the table minus the kept ones.
pub open spec fn stripped_keywords(keep: Seq<Seq<char>>) -> Seq<Seq<char>> {
    not_supported_keywords().filter(|k: Seq<char>| !keep.contains(k))
}

/// Options with the defaults applied.
pub open spec fn resolve(o: OptionsView) -> Config {
    Config {
        date_to_date_time: o.date_to_date_time == Some(true),
        support_pattern_properties: o.support_pattern_properties == Some(true),
        strict_mode: o.strict_mode != Some(false),
        definition_keywords: strings_or_empty(o.definition_keywords),
        remove_props: removal_flags(o),
        not_supported: stripped_keywords(strings_or_empty(o.keep_not_supported)),
    }
}

/// Options with defaults applied and internal fields derived. A hook reads
/// the settings through the accessors.
///
/// Defaults: `date_to_date_time` false, `support_pattern_properties` false,
/// `strict_mode` true, `definition_keywords` empty.
#[derive(Clone, Debug)]
pub struct ResolvedOptions {
    date_to_date_time: bool,
    support_pattern_properties: bool,
    strict_mode: bool,
    definition_keywords: Vec<String>,
    /// How the `patternProperties` handler shows in the debug text.
    pattern_properties_handler: &'static str,
    /// How the before hook shows in the debug text.
    before_transform: &'static str,
    /// How the after hook shows in the debug text.
    after_transform: &'static str,
    remove_props: Vec<String>,
    not_supported: Vec<String>,
}

impl View for ResolvedOptions {
    type V = Config;

    closed spec fn view(&self) -> Config {
        Config {
            date_to_date_time: self.date_to_date_time,
            support_pattern_properties: self.support_pattern_properties,
            strict_mode: self.strict_mode,
            definition_keywords: strings_view(self.definition_keywords@),
            remove_props: strings_view(self.remove_props@),
            not_supported: strings_view(self.not_supported@),
        }
    }
}

/// A copy of a list of strings.
fn copy_strings(v: &Vec<String>) -> (r: Vec<String>)
    ensures
        strings_view(r@) == strings_view(v@),
{
    let mut out: Vec<String> = Vec::new();
    let mut i: usize = 0;
    while i < v.len()
        invariant
            i <= v.len(),
            out@.len() == i,
            forall|k: int| 0 <= k < i ==> #[trigger] out@[k]@ == v@[k]@,
        decreases v.len() - i,
    {
        let s = owned(v[i].as_str());
        out.push(s);
        i += 1;
    }
    proof {
        assert(strings_view(out@) =~= strings_view(v@));
    }
    out
}

/// The keywords stripped after transform, given the kept ones.
fn stripped_keywords_exec(keep: &Vec<String>) -> (r: Vec<String>)
    ensures
        strings_view(r@) == stripped_keywords(strings_view(keep@)),
{
    let ghost keep_v = strings_view(keep@);
    let ghost pred = |k: Seq<char>| !keep_v.contains(k);
    let ghost table = not_supported_keywords();
    let mut out: Vec<String> = Vec::new();
    let mut i: usize = 0;
    proof {
        reveal(Seq::filter);
        assert(table.subrange(0, 0).filter(pred) =~= Seq::empty());
        assert(strings_view(out@) =~= Seq::empty());
    }
    while i < 8
        invariant
            i <= 8,
            table == not_supported_keywords(),
            table.len() == 8,
            keep_v == strings_view(keep@),
            pred == (|k: Seq<char>| !keep_v.contains(k)),
            strings_view(out@) == table.subrange(0, i as int).filter(pred),
        decreases 8 - i,
    {
        let kw = crate::consts::not_supported_keyword(i);
        let kept = contains_str(keep, kw);
        proof {
            reveal(Seq::filter);
            assert(table.subrange(0, i + 1).drop_last() =~= table.subrange(0, i as int));
            assert(table.subrange(0, i + 1).last() == kw@);
        }
        if !kept {
            out.push(owned(kw));
            proof {
                assert(strings_view(out@) =~= table.subrange(0, i + 1).filter(pred));
            }
        } else {
            proof {
                assert(strings_view(out@) =~= table.subrange(0, i + 1).filter(pred));
            }
        }
        i += 1;
    }
    proof {
        assert(table.subrange(0, 8) =~= table);
    }
    out
}

/// Apply defaults and derive the internal fields.
///
/// `date_to_date_time`, `support_pattern_properties`, `remove_read_only` and
/// `remove_write_only` default to false; `strict_mode` defaults to true.
pub fn resolve_options(options: &Options) -> (r: ResolvedOptions)
    ensures
        r@ == resolve(options@),
{
    let date_to_date_time = match options.date_to_date_time {
        Some(b) => b,
        None => false,
    };
    let support_pattern_properties = match options.support_pattern_properties {
        Some(b) => b,
        None => false,
    };
    let strict_mode = match options.strict_mode {
        Some(b) => b,
        None => true,
    };
    let definition_keywords = match &options.definition_keywords {
        Some(v) => copy_strings(v),
        None => Vec::new(),
    };
    let mut remove_props: Vec<String> = Vec::new();
    let read_only = match options.remove_read_only {
        Some(b) => b,
        None => false,
    };
    let write_only = match options.remove_write_only {
        Some(b) => b,
        None => false,
    };
    if read_only {
        remove_props.push(owned("readOnly"));
    }
    if write_only {
        remove_props.push(owned("writeOnly"));
    }
    let empty: Vec<String> = Vec::new();
    let not_supported = match &options.keep_not_supported {
        Some(v) => stripped_keywords_exec(v),
        None => stripped_keywords_exec(&empty),
    };
    let r = ResolvedOptions {
        date_to_date_time,
        support_pattern_properties,
        strict_mode,
        definition_keywords,
        pattern_properties_handler: closure_field(false),
        before_transform: closure_field(false),
        after_transform: closure_field(false),
        remove_props,
        not_supported,
    };
    proof {
        assert(strings_view(empty@) =~= Seq::empty());
        assert(strings_view(r.remove_props@) =~= removal_flags(options@));
        assert(strings_view(r.definition_keywords@) =~= strings_or_empty(
            options@.definition_keywords,
        ));
    }
    r
}

impl ResolvedOptions {
    /// These settings, with the hooks a caller supplied shown as set in the
    /// debug text: the `patternProperties` handler, the before hook and the
    /// after hook. The settings themselves do not change.
    pub fn with_supplied_hooks(self, pattern: bool, before: bool, after: bool) -> (r: ResolvedOptions)
        ensures
            r@ == self@,
    {
        ResolvedOptions {
            pattern_properties_handler: closure_field(pattern),
            before_transform: closure_field(before),
            after_transform: closure_field(after),
            ..self
        }
    }

    /// Whether `format: "date"` is rewritten to `format: "date-time"`.
    pub fn date_to_date_time(&self) -> (r: bool)
        ensures
            r == self@.date_to_date_time,
    {
        self.date_to_date_time
    }

    /// Whether `x-patternProperties` is moved to `patternProperties`.
    pub fn support_pattern_properties(&self) -> (r: bool)
        ensures
            r == self@.support_pattern_properties,
    {
        self.support_pattern_properties
    }

    /// Whether an invalid `type` is rejected.
    pub fn strict_mode(&self) -> (r: bool)
        ensures
            r == self@.strict_mode,
    {
        self.strict_mode
    }

    /// The dotted paths whose values hold named sub-schemas to convert.
    pub fn definition_keywords(&self) -> (r: &[String])
        ensures
            strings_view(r@) == self@.definition_keywords,
    {
        self.definition_keywords.as_slice()
    }

    /// The property flags that drop a property.
    pub fn remove_props(&self) -> (r: &Vec<String>)
        ensures
            strings_view(r@) == self@.remove_props,
    {
        &self.remove_props
    }

    /// The keywords stripped after transform.
    pub fn not_supported(&self) -> (r: &Vec<String>)
        ensures
            strings_view(r@) == self@.not_supported,
    {
        &self.not_supported
    }
}

} // verus!
