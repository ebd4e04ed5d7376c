use vstd::prelude::*;

verus! {

/// Whether `regex::Regex::new` accepts the pattern text `p`.
pub uninterp spec fn regex_compiles(p: Seq<char>) -> bool;

/// Whether the regex compiled from `p` matches somewhere in `hay`.
pub uninterp spec fn regex_finds(p: Seq<char>, hay: Seq<char>) -> bool;

#[verifier::external_type_specification]
#[verifier::external_body]
pub struct ExRegex(regex::Regex);

#[verifier::external_type_specification]
#[verifier::external_body]
pub struct ExRegexError(regex::Error);

/// Relies on `regex::Regex::new`: it succeeds or fails on the pattern text
/// alone (syntax, and the default size limit).
#[verifier::external_body]
fn compile(p: &str) -> (r: Result<regex::Regex, regex::Error>)
    ensures
        r is Ok <==> regex_compiles(p@),
{
    regex::Regex::new(p)
}

/// Why a query could not be used.
#[derive(Debug)]
pub enum PatternError {
    /// The query is not a valid regular expression; holds its text.
    Invalid(String),
}

/// A user query, compiled once: a regular expression that selects IOC names.
pub struct Pattern {
    text: String,
    compiled: regex::Regex,
}

impl View for Pattern {
    type V = Seq<char>;

    closed spec fn view(&self) -> Seq<char> {
        self.text@
    }
}

impl Pattern {
    /// Compiles `text`, or reports it as invalid.
    pub fn new(text: &str) -> (r: Result<Pattern, PatternError>)
        ensures
            r is Ok <==> regex_compiles(text@),
            r matches Ok(p) ==> p@ == text@,
            r matches Err(PatternError::Invalid(t)) ==> t@ == text@,
    {
        match compile(text) {
            Ok(compiled) => Ok(Pattern { text: String::from_str(text), compiled }),
            Err(_) => Err(PatternError::Invalid(String::from_str(text))),
        }
    }

    /// The text the pattern was compiled from.
    pub fn as_str(&self) -> (r: &str)
        ensures
            r@ == self@,
    {
        self.text.as_str()
    }

    /// Relies on `regex::Regex::is_match`: true iff the regex matches
    /// somewhere in `hay`. `compiled` is built from `text` by `new`, the only
    /// constructor.
    #[verifier::external_body]
    pub(crate) fn finds(&self, hay: &str) -> (r: bool)
        ensures
            r == regex_finds(self@, hay@),
    {
        self.compiled.is_match(hay)
    }
}

} // verus!
