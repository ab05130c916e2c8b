use vstd::prelude::*;

verus! {

#[verifier::external_type_specification]
#[verifier::external_body]
pub struct ExRegex(regex::Regex);

/// Whether `regex::Regex::new` accepts a pattern.
pub uninterp spec fn regex_valid(pattern: Seq<char>) -> bool;

/// Whether the regex compiled from `pattern` matches somewhere in `haystack`.
pub uninterp spec fn regex_match(pattern: Seq<char>, haystack: Seq<char>) -> bool;

/// A compiled regular expression together with the text it was compiled from.
pub struct LinePattern {
    source: String,
    regex: regex::Regex,
}

impl LinePattern {
    pub closed spec fn source(&self) -> Seq<char> {
        self.source@
    }

    /// Relies on `regex::Regex::new`: it fails exactly on the patterns it
    /// rejects (bad syntax, or over the default size limit), which depends on
    /// the pattern alone.
    #[verifier::external_body]
    pub(crate) fn compile(source: String) -> (r: Option<LinePattern>)
        ensures
            r is Some <==> regex_valid(source@),
            r matches Some(p) ==> p.source() == source@,
    {
        match regex::Regex::new(&source) {
            Ok(regex) => Some(LinePattern { source, regex }),
            Err(_) => None,
        }
    }

    /// Relies on `regex::Regex::is_match`: whether the pattern matches
    /// anywhere in `line`.
    #[verifier::external_body]
    pub(crate) fn is_match(&self, line: &str) -> (r: bool)
        ensures
            r == regex_match(self.source(), line@),
    {
        self.regex.is_match(line)
    }
}

} // verus!
