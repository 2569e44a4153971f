//! Pattern matching on text. The matching itself is done by the `regex`
//! crate; this module names what that crate returns and states, over those
//! names, what each call into it gives back. Nothing here is proved about
//! the matching: the three functions at the end of the module are believed.

use vstd::prelude::*;
use vstd::string::*;

verus! {

/// Whether `Regex::new` accepts `pattern`.
pub uninterp spec fn pattern_compiles(pattern: Seq<char>) -> bool;

/// What `Regex::captures_iter` yields for `pattern` in `haystack`: the
/// successive non-overlapping matches, from left to right. Each match is
/// given as the character offset where it starts, the character offset where
/// it ends, and the text of each capture group, group 0 being the whole
/// match; a group that took no part in the match is `None`.
pub uninterp spec fn pattern_matches(pattern: Seq<char>, haystack: Seq<char>) -> Seq<
    (int, int, Seq<Option<Seq<char>>>),
>;

/// The capture groups of each match, in order.
pub open spec fn match_groups(ms: Seq<(int, int, Seq<Option<Seq<char>>>)>) -> Seq<Seq<Option<Seq<char>>>> {
    Seq::new(ms.len(), |i: int| ms[i].2)
}

/// The views of the groups of one match.
pub open spec fn group_views(groups: Seq<Option<String>>) -> Seq<Option<Seq<char>>> {
    Seq::new(
        groups.len(),
        |j: int|
            match groups[j] {
                Some(s) => Some(s@),
                None => None,
            },
    )
}

/// The views of the groups of a list of matches.
pub open spec fn capture_views(v: Seq<Vec<Option<String>>>) -> Seq<Seq<Option<Seq<char>>>> {
    Seq::new(v.len(), |i: int| group_views(v[i]@))
}

/// The text of group `i`, or the empty text where the match has no such
/// group or the group took no part in it.
pub open spec fn group_text(groups: Seq<Option<Seq<char>>>, i: int) -> Seq<char> {
    if 0 <= i < groups.len() && groups[i] is Some {
        groups[i]->Some_0
    } else {
        Seq::empty()
    }
}

/// The message that says that `pattern` was rejected.
pub open spec fn rejected_message(pattern: Seq<char>) -> Seq<char> {
    "pattern rejected: "@ + pattern
}

/// The message that says that `pattern` was rejected.
pub fn rejection(pattern: &str) -> (m: String)
    ensures
        m@ == rejected_message(pattern@),
{
    let mut m = String::from_str("pattern rejected: ");
    m.append(pattern);
    m
}

/// What a match is replaced with.
#[derive(Debug, Clone, Copy, PartialEq, Eq, Structural)]
pub enum Rewrite {
    /// `const { <group 1> } = __webpack_require__('<group 2>');`
    NamedImport,
    /// `const <group 1> = __webpack_require__('<group 2>');`
    DefaultImport,
    /// `exports.<group 1> = <group 1>;`, a line break, `function <group 1>`:
    /// the assignment stands before the declaration, which stays whole with
    /// the parameters and the body that follow the match.
    ExportFunction,
    /// `"<group 1>":`
    QuoteKey,
    /// Nothing: the match is removed.
    Remove,
}

impl Rewrite {
    /// The replacement text for a match with the given groups.
    pub open spec fn text_for(self, groups: Seq<Option<Seq<char>>>) -> Seq<char> {
        let g1 = group_text(groups, 1);
        let g2 = group_text(groups, 2);
        match self {
            Rewrite::NamedImport => "const { "@ + g1 + " } = __webpack_require__('"@ + g2 + "');"@,
            Rewrite::DefaultImport => "const "@ + g1 + " = __webpack_require__('"@ + g2 + "');"@,
            Rewrite::ExportFunction => "exports."@ + g1 + " = "@ + g1 + ";\nfunction "@ + g1,
            Rewrite::QuoteKey => "\""@ + g1 + "\":"@,
            Rewrite::Remove => Seq::empty(),
        }
    }

    /// The replacement text for a match with the given groups.
    pub fn render(self, groups: &Vec<Option<String>>) -> (out: String)
        ensures
            out@ == self.text_for(group_views(groups@)),
    {
        let g1 = group_or_empty(groups, 1);
        let g2 = group_or_empty(groups, 2);
        let mut out = String::new();
        match self {
            Rewrite::NamedImport => {
                out.append("const { ");
                out.append(g1);
                out.append(" } = __webpack_require__('");
                out.append(g2);
                out.append("');");
            },
            Rewrite::DefaultImport => {
                out.append("const ");
                out.append(g1);
                out.append(" = __webpack_require__('");
                out.append(g2);
                out.append("');");
            },
            Rewrite::ExportFunction => {
                out.append("exports.");
                out.append(g1);
                out.append(" = ");
                out.append(g1);
                out.append(";\nfunction ");
                out.append(g1);
            },
            Rewrite::QuoteKey => {
                out.append("\"");
                out.append(g1);
                out.append("\":");
            },
            Rewrite::Remove => {},
        }
        assert(out@ =~= self.text_for(group_views(groups@)));
        out
    }
}

/// The text of group `i`, or the empty text where there is none.
fn group_or_empty(groups: &Vec<Option<String>>, i: usize) -> (s: &str)
    ensures
        s@ == group_text(group_views(groups@), i as int),
{
    if i < groups.len() {
        match &groups[i] {
            Some(t) => t.as_str(),
            None => {
                proof {
                    reveal_strlit("");
                }
                assert(""@ =~= Seq::<char>::empty());
                ""
            },
        }
    } else {
        proof {
            reveal_strlit("");
        }
        assert(""@ =~= Seq::<char>::empty());
        ""
    }
}

/// `text` from offset `from` on, with each match replaced by what `rewrite`
/// makes of its groups and everything between the matches kept.
pub open spec fn spliced(
    text: Seq<char>,
    ms: Seq<(int, int, Seq<Option<Seq<char>>>)>,
    from: int,
    rewrite: Rewrite,
) -> Seq<char>
    decreases ms.len(),
{
    if ms.len() == 0 {
        text.subrange(from, text.len() as int)
    } else {
        text.subrange(from, ms[0].0) + rewrite.text_for(ms[0].2) + spliced(
            text,
            ms.drop_first(),
            ms[0].1,
            rewrite,
        )
    }
}

/// `text` with every match of `pattern` replaced by what `rewrite` makes of it.
pub open spec fn rewritten(pattern: Seq<char>, text: Seq<char>, rewrite: Rewrite) -> Seq<char> {
    spliced(text, pattern_matches(pattern, text), 0, rewrite)
}

/// `text` with the first match of `pattern`, if there is one, replaced by
/// what `rewrite` makes of it.
pub open spec fn rewritten_once(pattern: Seq<char>, text: Seq<char>, rewrite: Rewrite) -> Seq<char> {
    spliced(text, pattern_matches(pattern, text).take(1), 0, rewrite)
}

/// Calls `Regex::new` and `Regex::captures_iter`, and copies out the text of
/// each group of each match. Claims that the call gives `None` exactly for
/// the patterns that `Regex::new` rejects, and otherwise the groups of the
/// matches that [`pattern_matches`] names, in the same order.
#[verifier::external_body]
pub(crate) fn capture_groups(pattern: &str, text: &str) -> (out: Option<Vec<Vec<Option<String>>>>)
    ensures
        out is Some <==> pattern_compiles(pattern@),
        out matches Some(v) ==> capture_views(v@) == match_groups(pattern_matches(pattern@, text@)),
{
    match regex::Regex::new(pattern) {
        Ok(re) => Some(
            re.captures_iter(text).map(
                |caps| caps.iter().map(|g| g.map(|m| m.as_str().to_string())).collect(),
            ).collect(),
        ),
        Err(_) => None,
    }
}

/// Calls `Regex::new` and `Regex::replace_all`, with a replacer that hands
/// the groups of each match to [`Rewrite::render`]. Claims that the call gives
/// `None` exactly for the patterns that `Regex::new` rejects, and otherwise
/// the text in which each match that [`pattern_matches`] names is replaced by
/// the rendered text, with the stretches between the matches unchanged.
#[verifier::external_body]
pub(crate) fn replace_matches(pattern: &str, text: &str, rewrite: Rewrite) -> (out: Option<String>)
    ensures
        out is Some <==> pattern_compiles(pattern@),
        out matches Some(s) ==> s@ == rewritten(pattern@, text@, rewrite),
{
    match regex::Regex::new(pattern) {
        Ok(re) => Some(
            re.replace_all(
                text,
                |caps: &regex::Captures| rewrite.render(&caps.iter().map(|g| g.map(|m| m.as_str().to_string())).collect()),
            ).into_owned(),
        ),
        Err(_) => None,
    }
}

/// Calls `Regex::new` and `Regex::replace`, with a replacer that hands the
/// groups of the match to [`Rewrite::render`]. Claims that the call gives
/// `None` exactly for the patterns that `Regex::new` rejects, and otherwise
/// the text in which only the first match that [`pattern_matches`] names is
/// replaced by the rendered text; a text without a match comes back as it is.
#[verifier::external_body]
pub(crate) fn replace_first_match(pattern: &str, text: &str, rewrite: Rewrite) -> (out: Option<String>)
    ensures
        out is Some <==> pattern_compiles(pattern@),
        out matches Some(s) ==> s@ == rewritten_once(pattern@, text@, rewrite),
{
    match regex::Regex::new(pattern) {
        Ok(re) => Some(
            re.replace(
                text,
                |caps: &regex::Captures| rewrite.render(&caps.iter().map(|g| g.map(|m| m.as_str().to_string())).collect()),
            ).into_owned(),
        ),
        Err(_) => None,
    }
}

} // verus!
