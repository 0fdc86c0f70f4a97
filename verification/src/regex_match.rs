//! The one point where the library hands text to the `regex` crate.
//!
//! A regular expression search is far too large to restate here, so its
//! outcome has a name: `regex_captures(pattern, text)`. Everything the
//! library does with a match is verified against that name.

use vstd::prelude::*;

verus! {

/// A name for what compiling `pattern` with `regex::Regex::new` and calling
/// `Regex::captures` on `text` yields: `None` when the pattern does not
/// compile or does not match; otherwise, for every named group of the
/// pattern in group order, the group's name and the text it captured in the
/// leftmost-first match (`None` where the group took no part).
pub uninterp spec fn regex_captures(pattern: Seq<char>, text: Seq<char>) -> Option<
    Seq<(Seq<char>, Option<Seq<char>>)>,
>;

/// A name for whether `regex::Regex::new` accepts `pattern`.
pub uninterp spec fn regex_compiles(pattern: Seq<char>) -> bool;

/// Calls `regex::Regex::new(pattern)` and reports whether it succeeded;
/// which patterns compile is left to the name `regex_compiles`.
#[verifier::external_body]
pub(crate) fn pattern_compiles(pattern: &str) -> (r: bool)
    ensures
        r == regex_compiles(pattern@),
{
    regex::Regex::new(pattern).is_ok()
}

/// The named groups of one match, in group order.
pub struct Captures {
    pub groups: Vec<(String, Option<String>)>,
}

pub open spec fn opt_view(o: Option<String>) -> Option<Seq<char>> {
    match o {
        Some(s) => Some(s@),
        None => None,
    }
}

impl View for Captures {
    type V = Seq<(Seq<char>, Option<Seq<char>>)>;

    open spec fn view(&self) -> Seq<(Seq<char>, Option<Seq<char>>)> {
        self.groups@.map_values(|g: (String, Option<String>)| (g.0@, opt_view(g.1)))
    }
}

pub open spec fn captures_view(c: Option<Captures>) -> Option<Seq<(Seq<char>, Option<Seq<char>>)>> {
    match c {
        Some(c) => Some(c@),
        None => None,
    }
}

/// Text captured by the first group called `name`, if it took part.
pub open spec fn group(c: Seq<(Seq<char>, Option<Seq<char>>)>, name: Seq<char>) -> Option<
    Seq<char>,
>
    decreases c.len(),
{
    if c.len() == 0 {
        None
    } else if c[0].0 == name {
        c[0].1
    } else {
        group(c.skip(1), name)
    }
}

/// Calls `regex::Regex::new(pattern)` and `Regex::captures(text)`, and lists
/// the named groups of the match. Nothing about regular expressions is
/// stated: the result is the name `regex_captures` applied to the two
/// arguments.
#[verifier::external_body]
pub(crate) fn captures(pattern: &str, text: &str) -> (r: Option<Captures>)
    ensures
        captures_view(r) == regex_captures(pattern@, text@),
{
    let re = match regex::Regex::new(pattern) {
        Ok(re) => re,
        Err(_) => return None,
    };
    let caps = re.captures(text)?;
    let mut groups = Vec::new();
    for name in re.capture_names().flatten() {
        let found = match caps.name(name) {
            Some(m) => Some(m.as_str().to_string()),
            None => None,
        };
        groups.push((name.to_string(), found));
    }
    Some(Captures { groups })
}

impl Captures {
    /// The text of the first group called `name`, if it took part.
    pub fn get(&self, name: &str) -> (r: Option<String>)
        ensures
            opt_view(r) == group(self@, name@),
    {
        let mut i: usize = 0;
        let n = self.groups.len();
        assert(self@.skip(0) =~= self@);
        while i < n
            invariant
                n == self.groups@.len(),
                i <= n,
                group(self@.skip(i as int), name@) == group(self@, name@),
            decreases n - i,
        {
            let ghost rest = self@.skip(i as int);
            assert(rest[0] == self@[i as int]);
            assert(rest.skip(1) =~= self@.skip(i + 1));
            if str_eq_string(&self.groups[i].0, name) {
                return match &self.groups[i].1 {
                    Some(t) => Some(t.clone()),
                    None => None,
                };
            }
            i = i + 1;
        }
        assert(self@.skip(i as int).len() == 0);
        None
    }
}

fn str_eq_string(a: &String, b: &str) -> (r: bool)
    ensures
        r == (a@ == b@),
{
    crate::text::str_eq(a.as_str(), b)
}

} // verus!
