//! Matching a regular expression against a text (the `regex` crate): each
//! match as the texts of its groups.
use vstd::prelude::*;
use regex::Regex;

verus! {

/// What `Regex::new(pattern)` and then `captures_iter(text)` give: `None`
/// for a pattern that does not compile; otherwise the matches in order,
/// each as its groups (group 0 is the whole match; a group that does not
/// take part in the match has no text).
pub uninterp spec fn regex_captures(pattern: Seq<char>, text: Seq<char>) -> Option<Seq<Seq<Option<Seq<char>>>>>;

/// The texts of the groups of one match.
pub open spec fn groups_view(g: Seq<Option<String>>) -> Seq<Option<Seq<char>>> {
    Seq::new(
        g.len(),
        |i: int|
            match g[i] {
                Some(s) => Some(s@),
                None => None,
            },
    )
}

/// The groups of all matches.
pub open spec fn captures_view(c: Seq<Vec<Option<String>>>) -> Seq<Seq<Option<Seq<char>>>> {
    Seq::new(c.len(), |i: int| groups_view(c[i]@))
}

/// `Regex::new(pattern)`, then `captures_iter(text)` with each match turned
/// into the texts of its groups (`Captures::iter`). As regex documents,
/// group 0 of every match takes part in it; what the matches are is left
/// to the name.
#[verifier::external_body]
pub(crate) fn all_captures(pattern: &str, text: &str) -> (r: Option<Vec<Vec<Option<String>>>>)
    ensures
        match r {
            None => regex_captures(pattern@, text@) is None,
            Some(c) => regex_captures(pattern@, text@) == Some(captures_view(c@)),
        },
        r matches Some(c) ==> forall|i: int| 0 <= i < c@.len() ==> (#[trigger] c@[i])@.len() > 0 && c@[i]@[0] is Some,
{
    let re = Regex::new(pattern).ok()?;
    let mut out: Vec<Vec<Option<String>>> = Vec::new();
    for caps in re.captures_iter(text) {
        let mut groups: Vec<Option<String>> = Vec::new();
        for m in caps.iter() {
            groups.push(match m {
                Some(m) => Some(m.as_str().to_string()),
                None => None,
            });
        }
        out.push(groups);
    }
    Some(out)
}

} // verus!
