//! The boundary to the `regex` crate: compiled patterns and the captures
//! they produce. Everything the rest of the library knows about a pattern is
//! said here, over the pattern's source text.

use vstd::prelude::*;

verus! {

/// Whether the `regex` crate accepts `src` as a pattern: the result of
/// `RegexBuilder::build`, which depends on the source text alone.
pub uninterp spec fn regex_compiles(src: Seq<char>) -> bool;

/// What `Regex::captures_len` returns for the pattern compiled from `src`:
/// the number of capture groups, counting the implicit group for the whole
/// match, so a pattern with exactly one explicit group has count 2.
pub uninterp spec fn regex_group_count(src: Seq<char>) -> nat;

/// What the first capture group yields when the pattern compiled from `src`
/// (with `^`/`$` bound to line boundaries) is run against `text`: the text of
/// group 1 of the leftmost match, or nothing when there is no match or group
/// 1 takes no part in it. A pure function of the two texts.
pub uninterp spec fn regex_capture(src: Seq<char>, text: Seq<char>) -> Option<Seq<char>>;

/// What scanning `text` with the pattern compiled from `src` (with `^`/`$`
/// bound to line boundaries) yields over every non-overlapping match, in
/// left-to-right order: the text of group 1 of each match in which that group
/// takes part. A pure function of the two texts.
pub uninterp spec fn regex_capture_all(src: Seq<char>, text: Seq<char>) -> Seq<Seq<char>>;

#[verifier::external_type_specification]
#[verifier::external_body]
pub struct ExRegex(regex::Regex);

/// A pattern source must compile and hold exactly one explicit capture group
/// (the group count of 2 includes the implicit whole-match group).
pub open spec fn pattern_valid(src: Seq<char>) -> bool {
    regex_compiles(src) && regex_group_count(src) == 2
}

/// A compiled pattern. The view is the source text it was compiled from;
/// `^` and `$` bind to line boundaries in addition to the ends of the text.
pub struct Pattern {
    src: String,
    re: regex::Regex,
}

impl View for Pattern {
    type V = Seq<char>;

    closed spec fn view(&self) -> Seq<char> {
        self.src@
    }
}

impl DeepView for Pattern {
    type V = Seq<char>;

    open spec fn deep_view(&self) -> Seq<char> {
        self@
    }
}

impl Pattern {
    /// Relies on `RegexBuilder::new(src).multi_line(true).build()`: it returns
    /// `Ok` exactly when `src` is a valid pattern, and the regex held here is
    /// the one compiled from `src`, so the capture functions below are
    /// determined by this struct's view.
    #[verifier::external_body]
    fn build(src: &str) -> (r: Option<Pattern>)
        ensures
            r is Some <==> regex_compiles(src@),
            r matches Some(p) ==> p@ == src@,
    {
        match regex::RegexBuilder::new(src).multi_line(true).build() {
            Ok(re) => Some(Pattern { src: src.to_owned(), re }),
            Err(_) => None,
        }
    }

    /// Relies on `Regex::captures_len`: the number of capture groups in the
    /// compiled pattern, the implicit whole-match group included.
    #[verifier::external_body]
    fn group_count(&self) -> (n: usize)
        ensures
            n as nat == regex_group_count(self@),
    {
        self.re.captures_len()
    }

    /// Compiles `src`, accepting it only with exactly one capture group.
    pub fn compile(src: &str) -> (r: Option<Pattern>)
        ensures
            r is Some <==> pattern_valid(src@),
            r matches Some(p) ==> p@ == src@,
    {
        match Self::build(src) {
            Some(p) => {
                if p.group_count() == 2 {
                    Some(p)
                } else {
                    None
                }
            },
            None => None,
        }
    }

    /// Relies on `Regex::captures` and `Captures::get`: the leftmost match's
    /// group 1, or nothing when the pattern does not match or the group takes
    /// no part in the match.
    #[verifier::external_body]
    pub(crate) fn capture(&self, text: &str) -> (r: Option<String>)
        ensures
            r is Some <==> regex_capture(self@, text@) is Some,
            r matches Some(s) ==> regex_capture(self@, text@) == Some(s@),
    {
        match self.re.captures(text) {
            Some(caps) => match caps.get(1) {
                Some(m) => Some(m.as_str().to_owned()),
                None => None,
            },
            None => None,
        }
    }

    /// Relies on `Regex::captures_iter` and `Captures::get`: group 1 of every
    /// non-overlapping match, in order of occurrence.
    #[verifier::external_body]
    pub(crate) fn capture_all(&self, text: &str) -> (r: Vec<String>)
        ensures
            r.deep_view() == regex_capture_all(self@, text@),
    {
        let mut out: Vec<String> = Vec::new();
        for caps in self.re.captures_iter(text) {
            match caps.get(1) {
                Some(m) => out.push(m.as_str().to_owned()),
                None => (),
            }
        }
        out
    }
}

} // verus!
