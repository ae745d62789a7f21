//! The URL value model: a validated, normalized URL string.

use vstd::prelude::*;

use crate::bytes::ascii_chars;
use crate::error::WeblocError;

verus! {

/// What `url::Url::parse` returns for a given string: `Some` holding the
/// normalized serialization when the string is a well-formed absolute URL,
/// `None` otherwise. The result depends on the input characters alone.
pub uninterp spec fn url_parse(s: Seq<char>) -> Option<Seq<char>>;

/// A canonical URL serialization: parsing accepts it and returns it
/// unchanged, and it is ASCII.
pub open spec fn canonical_url(s: Seq<char>) -> bool {
    url_parse(s) == Some(s) && ascii_chars(s)
}

/// Relies on `url::Url::parse` and `url::Url::as_str` (url 2.5): on success
/// the result is the normalized serialization of an absolute URL. The
/// crate's own invariant (`Url::check_invariants`) includes that re-parsing
/// a serialization succeeds and returns the same serialization; and the
/// serialization is ASCII, since the parser percent-encodes every non-ASCII
/// code point (`percent_encoding::AsciiSet::should_percent_encode`) and
/// encodes host names to ASCII through IDNA.
#[verifier::external_body]
fn parse_url_raw(s: &str) -> (r: Option<String>)
    ensures
        r is Some <==> url_parse(s@) is Some,
        r is Some ==> Some(r->0@) == url_parse(s@),
        r is Some ==> canonical_url(r->0@),
{
    match url::Url::parse(s) {
        Ok(u) => Some(String::from(u.as_str())),
        Err(_) => None,
    }
}

/// A validated URL, stored as the canonical serialization that
/// `url::Url::parse` produced. Every value of this type is canonical:
/// re-parsing its text yields the same text.
pub struct Url {
    text: String,
}

impl View for Url {
    type V = Seq<char>;

    closed spec fn view(&self) -> Seq<char> {
        self.text@
    }
}

impl Url {
    /// Every `Url` value holds a canonical serialization.
    #[verifier::type_invariant]
    pub closed spec fn wf(self) -> bool {
        canonical_url(self.text@)
    }

    /// Makes the type invariant available to callers: the text of any
    /// well-formed `Url` is a canonical URL serialization.
    pub proof fn lemma_wf_canonical(u: Url)
        requires
            u.wf(),
        ensures
            canonical_url(u@),
    {
    }

    /// Validates and normalizes a string into a URL value; rejects exactly
    /// what the URL grammar refuses (empty input, missing scheme, malformed
    /// syntax).
    pub fn parse(s: &str) -> (r: Result<Url, WeblocError>)
        ensures
            r is Ok <==> url_parse(s@) is Some,
            r is Ok ==> Some(r->Ok_0@) == url_parse(s@),
            r is Err ==> r->Err_0 == WeblocError::InvalidUrl,
    {
        match parse_url_raw(s) {
            Option::Some(text) => Ok(Url { text }),
            Option::None => Err(WeblocError::InvalidUrl),
        }
    }

    /// The canonical textual form.
    pub fn as_str(&self) -> (r: &str)
        ensures
            r@ == self@,
    {
        self.text.as_str()
    }

    /// Renders the URL back to its canonical textual form. Round-trips
    /// losslessly: parsing the result gives an equal URL value.
    pub fn to_text(&self) -> (r: String)
        ensures
            r@ == self@,
    {
        self.text.clone()
    }
}

} // verus!
