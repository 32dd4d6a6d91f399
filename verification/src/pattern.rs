//! Regular-expression matching, done by the `regex` crate.
use regex::Regex;
use vstd::prelude::*;

verus! {

/// What the `regex` crate finds when the pattern `pattern` is compiled with
/// `Regex::new` and searched for in `haystack` with `Regex::find`: the byte
/// offset at which the first (leftmost-first) match starts and the text it
/// covers, or `None` when the pattern does not compile or nothing matches.
pub uninterp spec fn regex_first_match(pattern: Seq<char>, haystack: Seq<char>) -> Option<(int, Seq<char>)>;

/// Compiles `pattern` with `regex::Regex::new` and searches `haystack` with
/// `Regex::find`, giving the start offset and the text of the match.
/// The contract claims that the result is `regex_first_match` of the two
/// strings, and that a match that starts at offset 0 covers a prefix of the
/// haystack (the regex crate documents that `Match::as_str` is the haystack
/// between the match's start and end offsets).
#[verifier::external_body]
pub(crate) fn first_match(pattern: &str, haystack: &str) -> (r: Option<(usize, String)>)
    ensures
        match r {
            Some((start, text)) => {
                &&& regex_first_match(pattern@, haystack@) == Some((start as int, text@))
                &&& start == 0 ==> text@.len() <= haystack@.len() && haystack@.take(text@.len() as int) == text@
            },
            None => regex_first_match(pattern@, haystack@) is None,
        },
{
    match Regex::new(pattern) {
        Ok(re) => match re.find(haystack) {
            Some(m) => Some((m.start(), m.as_str().to_string())),
            None => None,
        },
        Err(_) => None,
    }
}

} // verus!

verus! {

/// What the `regex` crate yields when the pattern `pattern` is compiled
/// with `Regex::new` and `Regex::find_iter` walks `haystack`: the texts of
/// the successive non-overlapping matches, or none when the pattern does
/// not compile.
pub uninterp spec fn regex_all_matches(pattern: Seq<char>, haystack: Seq<char>) -> Seq<Seq<char>>;

/// Compiles `pattern` with `regex::Regex::new` and collects the texts of
/// the matches that `Regex::find_iter` yields in `haystack`. The contract
/// claims only that the result is `regex_all_matches` of the two strings.
#[verifier::external_body]
pub(crate) fn all_matches(pattern: &str, haystack: &str) -> (r: Vec<String>)
    ensures
        r@.map_values(|s: String| s@) == regex_all_matches(pattern@, haystack@),
{
    match Regex::new(pattern) {
        Ok(re) => re.find_iter(haystack).map(|m| m.as_str().to_string()).collect(),
        Err(_) => Vec::new(),
    }
}

} // verus!

verus! {

/// One match of a search with capture groups: the byte span of the whole
/// match and, for each group asked for by name, its byte span and text when
/// it took part in the match.
pub type CaptureView = (int, int, Seq<Option<(int, int, Seq<char>)>>);

/// The captures of one match as mathematical values.
pub open spec fn capture_view(c: (usize, usize, Vec<Option<(usize, usize, String)>>)) -> CaptureView {
    (c.0 as int, c.1 as int, c.2@.map_values(|g: Option<(usize, usize, String)>| match g {
        Some(t) => Some((t.0 as int, t.1 as int, t.2@)),
        None => None,
    }))
}

/// The captures of a list of matches as mathematical values.
pub open spec fn captures_view(v: Seq<(usize, usize, Vec<Option<(usize, usize, String)>>)>) -> Seq<CaptureView> {
    v.map_values(|c: (usize, usize, Vec<Option<(usize, usize, String)>>)| capture_view(c))
}

/// The views of a list of names.
pub open spec fn names_view(v: Seq<String>) -> Seq<Seq<char>> {
    v.map_values(|s: String| s@)
}

/// What the `regex` crate yields when `pattern` is compiled with
/// `Regex::new` and `Regex::captures_iter` walks `haystack`: for each
/// successive match, its span and the groups named `names`; `None` when the
/// pattern does not compile.
pub uninterp spec fn regex_named_captures(pattern: Seq<char>, names: Seq<Seq<char>>, haystack: Seq<char>) -> Option<Seq<CaptureView>>;

/// Compiles `pattern` with `regex::Regex::new` and collects, for each match
/// that `Regex::captures_iter` yields in `haystack`, the span of the match
/// (group 0) and the span and text of each group named in `names` that took
/// part. The contract claims that the result is `regex_named_captures` of
/// the arguments, and what the crate documents of the spans: matches come
/// in order without overlapping, lie within the haystack's bytes, and hold
/// the spans of their groups.
#[verifier::external_body]
pub(crate) fn named_captures(pattern: &str, names: &Vec<String>, haystack: &str)
    -> (r: Option<Vec<(usize, usize, Vec<Option<(usize, usize, String)>>)>>)
    ensures
        match r {
            Some(v) => {
                &&& regex_named_captures(pattern@, names_view(names@), haystack@) == Some(captures_view(v@))
                &&& forall|k: int| 0 <= k < v@.len() ==> (#[trigger] v@[k]).0 <= v@[k].1 <= vstd::utf8::encode_utf8(haystack@).len()
                &&& forall|k: int| 0 < k < v@.len() ==> v@[k - 1].1 <= (#[trigger] v@[k]).0
                &&& forall|k: int| 0 <= k < v@.len() ==> (#[trigger] v@[k]).2@.len() == names@.len()
                &&& forall|k: int, j: int| 0 <= k < v@.len() && 0 <= j < v@[k].2@.len() && (#[trigger] v@[k].2@[j]) is Some
                    ==> v@[k].0 <= v@[k].2@[j].unwrap().0 <= v@[k].2@[j].unwrap().1 <= v@[k].1
            },
            None => regex_named_captures(pattern@, names_view(names@), haystack@) is None,
        },
{
    let re = match Regex::new(pattern) { Ok(re) => re, Err(_) => return None };
    Some(re.captures_iter(haystack).map(|c| {
        let m = c.get(0).unwrap();
        let groups = names.iter().map(|n| c.name(n).map(|g| (g.start(), g.end(), g.as_str().to_string()))).collect();
        (m.start(), m.end(), groups)
    }).collect())
}

/// What `{:?}` prints for the string `s`: the string in double quotes with
/// quotes, backslashes and non-printable characters escaped.
pub uninterp spec fn debug_quoted(s: Seq<char>) -> Seq<char>;

/// Formats `s` with `{:?}`. The contract claims only that the result is
/// `debug_quoted(s)`.
#[verifier::external_body]
pub(crate) fn debug_quote(s: &str) -> (r: String)
    ensures
        r@ == debug_quoted(s@),
{
    format!("{:?}", s)
}

} // verus!

verus! {

/// Whether the `regex` crate finds a match of `pattern`, compiled with
/// `Regex::new`, anywhere in `haystack` (`Regex::is_match`); false when the
/// pattern does not compile.
pub uninterp spec fn regex_is_match(pattern: Seq<char>, haystack: Seq<char>) -> bool;

/// Compiles `pattern` with `regex::Regex::new` and tests `haystack` with
/// `Regex::is_match`. The contract claims only that the result is
/// `regex_is_match` of the two strings.
#[verifier::external_body]
pub(crate) fn is_match(pattern: &str, haystack: &str) -> (r: bool)
    ensures
        r == regex_is_match(pattern@, haystack@),
{
    match Regex::new(pattern) {
        Ok(re) => re.is_match(haystack),
        Err(_) => false,
    }
}

} // verus!
