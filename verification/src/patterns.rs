//! Regular expressions, through the `regex` crate.

use crate::text::{contains_spec, replace_all_spec};
use vstd::prelude::*;

verus! {

/// What `regex` gives for the capture group `group` of the leftmost match
/// of `pattern` in `text`: `None` when `pattern` does not compile,
/// `Some(None)` when nothing matches or the group takes no part.
pub uninterp spec fn regex_group_of(pattern: Seq<char>, text: Seq<char>, group: int) -> Option<Option<Seq<char>>>;

/// What `regex` makes of `text` when it replaces every match of `pattern`
/// by `replacement` (with `$name` expanded): `None` when `pattern` does not
/// compile.
pub uninterp spec fn regex_replaced(pattern: Seq<char>, text: Seq<char>, replacement: Seq<char>) -> Option<Seq<char>>;

/// A character that stands for itself in a pattern, outside any class.
pub open spec fn is_literal_char(c: char) -> bool {
    ||| 'a' <= c <= 'z'
    ||| 'A' <= c <= 'Z'
    ||| '0' <= c <= '9'
    ||| c == '<'
    ||| c == '>'
    ||| c == '/'
    ||| c == '='
    ||| c == '"'
    ||| c == '_'
    ||| c == ' '
}

/// A non-empty pattern made of characters that stand for themselves: it
/// matches exactly its own occurrences.
pub open spec fn is_literal_pattern(p: Seq<char>) -> bool {
    p.len() > 0 && forall|i: int| 0 <= i < p.len() ==> is_literal_char(#[trigger] p[i])
}

/// `regex::Regex::new(pattern)`, then `Regex::captures(text)` and
/// `Captures::get(group)`: the text of that group in the leftmost match.
/// The two calls stand together because a compiled `Regex` is opaque: only
/// the pair is a function of plain values. What `regex` matches is not
/// stated here.
#[verifier::external_body]
pub(crate) fn regex_group(pattern: &str, text: &str, group: usize) -> (r: Option<Option<String>>)
    ensures
        r.deep_view() == regex_group_of(pattern@, text@, group as int),
{
    let re = regex::Regex::new(pattern).ok()?;
    let caps = match re.captures(text) {
        Some(c) => c,
        None => return Some(None),
    };
    match caps.get(group) {
        Some(m) => Some(Some(m.as_str().to_string())),
        None => Some(None),
    }
}

/// A pattern `l1(?P<name>[^q]+)l2`: the literal `l1`, then a group `name`
/// of one or more characters other than the literal `q`, then the literal
/// `l2`, which starts with `q`.
pub open spec fn single_capture_pattern(p: Seq<char>, l1: Seq<char>, name: Seq<char>, q: char, l2: Seq<char>) -> bool {
    &&& p == l1 + "(?P<"@ + name + ">[^"@ + seq![q] + "]+)"@ + l2
    &&& is_literal_pattern(l1)
    &&& is_literal_pattern(l2)
    &&& is_literal_char(q)
    &&& l2[0] == q
    &&& name.len() > 0
    &&& forall|i: int| 0 <= i < name.len() ==> is_name_char(#[trigger] name[i])
}

/// A character of a capture group's name.
pub open spec fn is_name_char(c: char) -> bool {
    ||| 'a' <= c <= 'z'
    ||| 'A' <= c <= 'Z'
    ||| '0' <= c <= '9'
    ||| c == '_'
}

/// A replacement `r1${name}r2`, whose plain parts hold no `$`.
pub open spec fn named_replacement(rep: Seq<char>, name: Seq<char>, r1: Seq<char>, r2: Seq<char>) -> bool {
    &&& rep == r1 + "${"@ + name + "}"@ + r2
    &&& !r1.contains('$')
    &&& !r2.contains('$')
}

/// A text that starts with one match `l1 t l2` and goes on with `rest`.
pub open spec fn one_match_then(l1: Seq<char>, t: Seq<char>, l2: Seq<char>, rest: Seq<char>) -> Seq<char> {
    l1 + t + l2 + rest
}

/// `regex::Regex::new(pattern)`, then `Regex::replace_all(text, replacement)`.
/// Its result is named as a whole; the one fact stated of it is the one the
/// `regex` documentation gives for a pattern of plain characters and a
/// replacement without `$`: every leftmost non-overlapping occurrence of the
/// pattern is replaced by the replacement as it is. A second fact, from the
/// same documentation (leftmost-first matching, greedy repetition, `${name}`
/// expanded to the group's text): for a pattern `l1(?P<name>[^q]+)l2` and a
/// text `l1 t l2 rest`, where `t` is not empty and holds no `q` and `rest`
/// holds no `l1`, the only match is `l1 t l2`, its group is `t`, and the
/// result is the expanded replacement followed by `rest`.
#[verifier::external_body]
pub(crate) fn regex_replace_all(pattern: &str, text: &str, replacement: &str) -> (r: Option<String>)
    ensures
        r.deep_view() == regex_replaced(pattern@, text@, replacement@),
        is_literal_pattern(pattern@) && !replacement@.contains('$') ==> r.deep_view() == Some(
            replace_all_spec(text@, pattern@, replacement@),
        ),
        forall|l1: Seq<char>, name: Seq<char>, q: char, l2: Seq<char>, r1: Seq<char>, r2: Seq<char>, t: Seq<char>, rest: Seq<char>|
            #![trigger single_capture_pattern(pattern@, l1, name, q, l2), named_replacement(replacement@, name, r1, r2), one_match_then(l1, t, l2, rest)]
            single_capture_pattern(pattern@, l1, name, q, l2) && named_replacement(replacement@, name, r1, r2)
                && text@ == one_match_then(l1, t, l2, rest) && t.len() > 0 && !t.contains(q)
                && !contains_spec(rest, l1) ==> r.deep_view() == Some(r1 + t + r2 + rest),
{
    let re = regex::Regex::new(pattern).ok()?;
    Some(re.replace_all(text, replacement).into_owned())
}

} // verus!
