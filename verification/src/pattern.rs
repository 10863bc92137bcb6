//! Matching of texts against patterns.

use vstd::prelude::*;

verus! {

/// What matching a text against a pattern came to.
#[derive(Debug)]
pub enum Captured {
    /// The pattern is no regular expression.
    BadPattern,
    /// The text does not match the pattern.
    NoMatch,
    /// The text matches; the groups of the pattern, from the first on,
    /// hold these parts of it, and a group that took no part in the match
    /// holds none.
    Groups(Vec<Option<String>>),
}

/// What matching a text against a pattern came to, by what its texts say.
pub ghost enum CapturedView {
    BadPattern,
    NoMatch,
    Groups(Seq<Option<Seq<char>>>),
}

/// What a group holds, by what its text says.
pub open spec fn group_view(g: Option<String>) -> Option<Seq<char>> {
    match g {
        Some(t) => Some(t@),
        None => None,
    }
}

/// What the groups hold, in order.
pub open spec fn group_views(groups: Seq<Option<String>>) -> Seq<Option<Seq<char>>> {
    groups.map_values(|g: Option<String>| group_view(g))
}

/// The text of a group: what it holds, and the empty text where it holds
/// none.
pub open spec fn group_text(g: Option<Seq<char>>) -> Seq<char> {
    match g {
        Some(t) => t,
        None => Seq::empty(),
    }
}

/// The text of a group, see [`group_text`].
pub fn text_of(g: &Option<String>) -> (r: &str)
    ensures
        r@ == group_text(group_view(*g)),
{
    match g {
        Some(t) => t.as_str(),
        None => {
            proof {
                reveal_strlit("");
            }
            assert(""@ =~= Seq::<char>::empty());
            ""
        },
    }
}

impl View for Captured {
    type V = CapturedView;

    open spec fn view(&self) -> CapturedView {
        match *self {
            Captured::BadPattern => CapturedView::BadPattern,
            Captured::NoMatch => CapturedView::NoMatch,
            Captured::Groups(g) => CapturedView::Groups(group_views(g@)),
        }
    }
}

/// What the first match of a pattern in a text captures, as the `regex`
/// crate finds it. The rules of regular expressions are not restated
/// here.
pub uninterp spec fn regex_capture(pattern: Seq<char>, text: Seq<char>) -> CapturedView;

/// What the first match of a pattern in a text captures, by
/// `regex::Regex::new` and `Regex::captures`: the groups but the one of
/// the whole match, each with the text that it took, if it took part.
/// The result is a function of the pattern and the text alone and is
/// named [`regex_capture`].
#[verifier::external_body]
pub(crate) fn capture(pattern: &str, text: &str) -> (r: Captured)
    ensures
        r@ == regex_capture(pattern@, text@),
{
    match regex::Regex::new(pattern) {
        Err(_) => Captured::BadPattern,
        Ok(re) => match re.captures(text) {
            None => Captured::NoMatch,
            Some(caps) => Captured::Groups(
                caps.iter().skip(1).map(|m| m.map(|m| m.as_str().to_string())).collect(),
            ),
        },
    }
}

} // verus!
