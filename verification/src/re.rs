//! Thin trusted layer over the `regex` crate.
//!
//! A `CompiledRegex` pairs a compiled `regex::Regex` with the pattern text it
//! was built from; its constructor is the only place the pair is formed, so
//! every contract below can speak of the pattern alone.  What the engine
//! computes for a given pattern and haystack is deterministic, so each
//! operation's result is given a name (an uninterpreted spec function) that
//! the rest of the library reasons with.

use vstd::prelude::*;

verus! {

#[verifier::external_type_specification]
#[verifier::external_body]
pub struct ExRegex(regex::Regex);

/// Whether `regex::Regex::new` accepts this pattern.
pub uninterp spec fn regex_valid(pat: Seq<char>) -> bool;

/// What `regex::Regex::is_match` returns for this pattern and haystack.
pub uninterp spec fn regex_is_match(pat: Seq<char>, hay: Seq<char>) -> bool;

/// What `regex::Regex::replace_all` returns: every non-overlapping match of
/// the pattern replaced by the replacement (with `$`-group expansion).
pub uninterp spec fn regex_replace_all(pat: Seq<char>, hay: Seq<char>, rep: Seq<char>) -> Seq<
    char,
>;

/// What `regex::Regex::replace` returns: the leftmost match of the pattern
/// replaced by the replacement (with `$`-group expansion).
pub uninterp spec fn regex_replace_first(pat: Seq<char>, hay: Seq<char>, rep: Seq<char>) -> Seq<
    char,
>;

/// What walking `regex::Regex::captures_iter` yields: for each successive
/// non-overlapping match, the text of capture group 1 (empty where the group
/// did not participate in the match, and likewise where the pattern has no
/// group 1 at all).
pub uninterp spec fn regex_captures_group1(pat: Seq<char>, hay: Seq<char>) -> Seq<Seq<char>>;

/// A compiled regular expression together with the pattern it came from.
pub struct CompiledRegex {
    pattern: String,
    re: regex::Regex,
}

impl CompiledRegex {
    /// The pattern this value was compiled from.
    pub closed spec fn pattern_view(&self) -> Seq<char> {
        self.pattern@
    }

    /// Relies on `regex::Regex::new`: it accepts exactly the patterns the
    /// crate documents as valid, and the compiled value matches per that
    /// pattern.
    #[verifier::external_body]
    pub fn compile(pat: &str) -> (r: Option<CompiledRegex>)
        ensures
            r is Some <==> regex_valid(pat@),
            r matches Some(c) ==> c.pattern_view() == pat@,
    {
        match regex::Regex::new(pat) {
            Ok(re) => Some(CompiledRegex { pattern: pat.to_string(), re }),
            Err(_) => None,
        }
    }

    /// Relies on `regex::Regex::is_match`.
    #[verifier::external_body]
    pub fn is_match(&self, hay: &str) -> (r: bool)
        ensures
            r == regex_is_match(self.pattern_view(), hay@),
    {
        self.re.is_match(hay)
    }

    /// Relies on `regex::Regex::replace_all`.
    #[verifier::external_body]
    pub fn replace_all(&self, hay: &str, rep: &str) -> (r: String)
        ensures
            r@ == regex_replace_all(self.pattern_view(), hay@, rep@),
    {
        self.re.replace_all(hay, rep).to_string()
    }

    /// Relies on `regex::Regex::replace` (first match only).
    #[verifier::external_body]
    pub fn replace_first(&self, hay: &str, rep: &str) -> (r: String)
        ensures
            r@ == regex_replace_first(self.pattern_view(), hay@, rep@),
    {
        self.re.replace(hay, rep).to_string()
    }

    /// Relies on `regex::Regex::captures_iter`: one entry per successive
    /// match, each mapped to the text of its capture group 1 (empty when
    /// the group is absent from the pattern or did not participate).
    #[verifier::external_body]
    pub fn captures_group1(&self, hay: &str) -> (r: Vec<String>)
        ensures
            r.deep_view() == regex_captures_group1(self.pattern_view(), hay@),
    {
        self.re
            .captures_iter(hay)
            .map(|c| c.get(1).map(|m| m.as_str().to_string()).unwrap_or_default())
            .collect()
    }
}

} // verus!
