//! Matching file names against the user's regular expression.
use vstd::prelude::*;
use crate::error::RenameError;
use crate::template::captures_view;

verus! {

#[verifier::external_type_specification]
#[verifier::external_body]
pub struct ExRegex(regex::Regex);

#[verifier::external_type_specification]
#[verifier::external_body]
pub struct ExRegexError(regex::Error);

/// Whether the regex crate compiles `pattern` (its syntax, within its default
/// size limit).
pub uninterp spec fn regex_accepts(pattern: Seq<char>) -> bool;

/// The captures of the leftmost-first match of `pattern` in `subject`, as the
/// regex crate finds them: `None` where there is no match; else entry `n` is
/// the text of group `n` (0 is the whole match), `None` for a group that took
/// no part in the match.
pub uninterp spec fn captures_of(pattern: Seq<char>, subject: Seq<char>) -> Option<
    Seq<Option<Seq<char>>>,
>;

/// Relies on `regex::Regex::new`: it returns `Ok` exactly on the patterns that
/// it compiles.
pub assume_specification[ regex::Regex::new ](re: &str) -> (r: Result<regex::Regex, regex::Error>)
    ensures
        r is Ok <==> regex_accepts(re@),
;

/// The pattern that is compiled: the user's text as it is in floating mode,
/// else wrapped so that a match must span the whole subject.
pub open spec fn anchored(pattern: Seq<char>, floating: bool) -> Seq<char> {
    if floating {
        pattern
    } else {
        "^(?:"@ + pattern + ")$"@
    }
}

pub open spec fn opt_captures_view(r: Option<Vec<Option<String>>>) -> Option<Seq<Option<Seq<char>>>> {
    match r {
        Some(v) => Some(captures_view(v@)),
        None => None,
    }
}

/// A compiled match pattern, together with the text it was compiled from.
pub struct Matcher {
    regex: regex::Regex,
    source: String,
}

impl Matcher {
    /// The text that the regular expression was compiled from.
    pub closed spec fn source(&self) -> Seq<char> {
        self.source@
    }

    /// Compiles `pattern`, anchored at both ends unless `floating`.
    pub fn new(pattern: &str, floating: bool) -> (r: Result<Matcher, RenameError>)
        ensures
            r is Ok <==> regex_accepts(anchored(pattern@, floating)),
            r matches Ok(m) ==> m.source() == anchored(pattern@, floating),
            r matches Err(e) ==> e is InvalidPattern,
    {
        let source = if floating {
            String::from_str(pattern)
        } else {
            let mut s = String::from_str("^(?:");
            s.append(pattern);
            s.append(")$");
            s
        };
        match regex::Regex::new(source.as_str()) {
            Ok(regex) => Ok(Matcher { regex, source }),
            Err(e) => Err(RenameError::InvalidPattern { message: e.to_string() }),
        }
    }

    /// The captures of `subject`, group by group, or `None` where it does not match.
    pub fn captures(&self, subject: &str) -> (r: Option<Vec<Option<String>>>)
        ensures
            opt_captures_view(r) == captures_of(self.source(), subject@),
    {
        regex_captures(self, subject)
    }
}

/// Relies on `regex::Regex::captures` and `regex::Captures::iter`: one entry
/// per group of the pattern, the whole match first, `None` for a group that
/// took no part in the match. The regex held by `m` is the one compiled from
/// `m.source()`: both fields are private and only `Matcher::new` sets them.
#[verifier::external_body]
fn regex_captures(m: &Matcher, subject: &str) -> (r: Option<Vec<Option<String>>>)
    ensures
        opt_captures_view(r) == captures_of(m.source(), subject@),
{
    m.regex.captures(subject).map(
        |c| c.iter().map(|g| g.map(|x| x.as_str().to_string())).collect(),
    )
}

} // verus!
