use vstd::prelude::*;
use vstd::string::{StrSliceExecFns, StringExecFns};

verus! {

/// The parts of a parsed URI that the library reads, and its text form.
#[derive(Debug, Clone)]
pub struct UriSummary {
    /// The scheme, if any.
    pub scheme: Option<String>,
    /// The authority, if any.
    pub authority: Option<String>,
    /// The query, if any.
    pub query: Option<String>,
    /// The URI as it displays.
    pub text: String,
}

/// A `UriSummary` as mathematical values.
pub struct UriSummaryView {
    pub scheme: Option<Seq<char>>,
    pub authority: Option<Seq<char>>,
    pub query: Option<Seq<char>>,
    pub text: Seq<char>,
}

pub open spec fn optional_text(value: Option<String>) -> Option<Seq<char>> {
    match value {
        Some(text) => Some(text@),
        None => None,
    }
}

impl View for UriSummary {
    type V = UriSummaryView;

    open spec fn view(&self) -> UriSummaryView {
        UriSummaryView {
            scheme: optional_text(self.scheme),
            authority: optional_text(self.authority),
            query: optional_text(self.query),
            text: self.text@,
        }
    }
}

/// A parse result as mathematical values.
pub open spec fn uri_view(parsed: Option<UriSummary>) -> Option<UriSummaryView> {
    match parsed {
        Some(uri) => Some(uri@),
        None => None,
    }
}

/// What the `http` crate's `Uri` parser makes of `text`: `None` when it
/// refuses the text, otherwise the URI's parts and display form.
pub uninterp spec fn parsed_uri(text: Seq<char>) -> Option<UriSummaryView>;

/// Parses `text` with `http::Uri`'s `FromStr` and reads back its scheme,
/// authority, query and `Display` form.
///
/// Trusted: the result is a function of `text` alone, named `parsed_uri`;
/// nothing more of the parser is stated.
#[verifier::external_body]
pub(crate) fn parse_uri(text: &str) -> (parsed: Option<UriSummary>)
    ensures
        match parsed {
            Some(summary) => parsed_uri(text@) == Some(summary@),
            None => parsed_uri(text@) is None,
        },
{
    let uri = text.parse::<http::Uri>().ok()?;
    Some(UriSummary {
        scheme: uri.scheme_str().map(str::to_owned),
        authority: uri.authority().map(|authority| authority.as_str().to_owned()),
        query: uri.query().map(str::to_owned),
        text: uri.to_string(),
    })
}

/// `text` without its trailing slashes.
pub open spec fn without_trailing_slashes(text: Seq<char>) -> Seq<char>
    decreases text.len(),
{
    if text.len() > 0 && text.last() == '/' {
        without_trailing_slashes(text.drop_last())
    } else {
        text
    }
}

/// Removes every trailing `/` of `text`.
pub fn trim_trailing_slashes(text: &str) -> (trimmed: String)
    ensures
        trimmed@ == without_trailing_slashes(text@),
{
    let mut end = text.unicode_len();
    assert(text@.subrange(0, end as int) =~= text@);
    while end > 0 && text.get_char(end - 1) == '/'
        invariant
            end <= text@.len(),
            without_trailing_slashes(text@) == without_trailing_slashes(text@.subrange(0, end as int)),
        decreases end,
    {
        assert(text@.subrange(0, end as int).drop_last() =~= text@.subrange(0, end - 1));
        end = end - 1;
    }
    String::from_str(text.substring_char(0, end))
}

/// Why an origin cannot be used.
#[derive(Debug, Clone, Copy, PartialEq, Eq, Structural)]
pub enum OriginError {
    /// The origin must be an absolute URI without a query.
    NotAbsolute,
    /// The text is not a URI.
    InvalidUri,
    /// The URI has no scheme.
    MissingScheme,
    /// The URI has no authority.
    MissingAuthority,
}

/// Whether a parsed URI can serve as an origin: it has a scheme and an
/// authority and no query.
pub open spec fn usable_origin(uri: UriSummaryView) -> bool {
    uri.scheme is Some && uri.authority is Some && uri.query is None
}

/// The prefix that relative request paths are appended to, from a parsed
/// origin: its text without trailing slashes, when it has a scheme and an
/// authority and no query.
pub fn prefix_of_uri(uri: &UriSummary) -> (prefix: Result<String, OriginError>)
    ensures
        prefix is Ok <==> usable_origin(uri@),
        prefix matches Ok(text) ==> text@ == without_trailing_slashes(uri@.text),
{
    if uri.scheme.is_none() || uri.authority.is_none() || uri.query.is_some() {
        return Err(OriginError::NotAbsolute);
    }
    Ok(trim_trailing_slashes(uri.text.as_str()))
}

/// The prefix that relative request paths are appended to: the origin's text
/// without trailing slashes. The origin must be an absolute URI without a
/// query; any path prefix in it is kept.
pub fn origin_prefix(origin: &str) -> (prefix: Result<String, OriginError>)
    ensures
        prefix is Ok <==> (parsed_uri(origin@) matches Some(uri) && usable_origin(uri)),
        prefix matches Ok(text) ==> text@ == without_trailing_slashes(
            parsed_uri(origin@)->Some_0.text,
        ),
{
    match parse_uri(origin) {
        Some(uri) => prefix_of_uri(&uri),
        None => Err(OriginError::NotAbsolute),
    }
}

/// The scheme and authority that requests to a worker go to, from its parsed
/// URI, or which of the two is missing (the scheme is looked at first).
pub open spec fn worker_origin_parts(uri: UriSummaryView) -> Result<(Seq<char>, Seq<char>), OriginError> {
    match uri.scheme {
        None => Err(OriginError::MissingScheme),
        Some(scheme) => match uri.authority {
            None => Err(OriginError::MissingAuthority),
            Some(authority) => Ok((scheme, authority)),
        },
    }
}

/// A pair of strings, or an error, as mathematical values.
pub open spec fn parts_view(parts: Result<(String, String), OriginError>) -> Result<
    (Seq<char>, Seq<char>),
    OriginError,
> {
    match parts {
        Ok((first, second)) => Ok((first@, second@)),
        Err(error) => Err(error),
    }
}

/// The scheme and authority that requests to a worker go to, from its
/// parsed URI.
pub fn worker_origin(uri: &UriSummary) -> (parts: Result<(String, String), OriginError>)
    ensures
        parts_view(parts) == worker_origin_parts(uri@),
{
    match &uri.scheme {
        None => Err(OriginError::MissingScheme),
        Some(scheme) => match &uri.authority {
            None => Err(OriginError::MissingAuthority),
            Some(authority) => Ok((String::from_str(scheme.as_str()), String::from_str(authority.as_str()))),
        },
    }
}

/// The scheme and authority that requests to a worker go to, from the text
/// of its URI: `InvalidUri` when the text does not parse.
pub fn worker_origin_of(worker: &str) -> (parts: Result<(String, String), OriginError>)
    ensures
        parts_view(parts) == match parsed_uri(worker@) {
            Some(uri) => worker_origin_parts(uri),
            None => Err(OriginError::InvalidUri),
        },
{
    match parse_uri(worker) {
        Some(uri) => worker_origin(&uri),
        None => Err(OriginError::InvalidUri),
    }
}

/// The target of a request to a worker: `scheme://authority` followed by the
/// request's path and query, or by `/` when it has none.
pub fn worker_target(scheme: &str, authority: &str, path_and_query: Option<&str>) -> (target: String)
    ensures
        target@ == scheme@ + "://"@ + authority@ + match path_and_query {
            Some(tail) => tail@,
            None => "/"@,
        },
{
    let mut target = String::from_str(scheme);
    target.append("://");
    target.append(authority);
    match path_and_query {
        Some(tail) => target.append(tail),
        None => target.append("/"),
    }
    target
}

/// The target of a request under an origin prefix: the prefix followed by the
/// request's path and query, or by `/` when it has none.
pub fn rewrite_target(prefix: &str, path_and_query: Option<&str>) -> (target: String)
    ensures
        target@ == prefix@ + match path_and_query {
            Some(tail) => tail@,
            None => "/"@,
        },
{
    let mut target = String::from_str(prefix);
    match path_and_query {
        Some(tail) => target.append(tail),
        None => target.append("/"),
    }
    target
}


/// Law: trimming keeps the origin's text up to its last non-slash character:
/// the trimmed text is a prefix of the original, only slashes were removed,
/// and it does not end in a slash.
pub proof fn lemma_trimming_keeps_prefix(text: Seq<char>)
    ensures
        without_trailing_slashes(text).len() <= text.len(),
        without_trailing_slashes(text) == text.subrange(0, without_trailing_slashes(text).len() as int),
        forall|i: int|
            without_trailing_slashes(text).len() <= i < text.len() ==> #[trigger] text[i] == '/',
        without_trailing_slashes(text).len() == 0 || without_trailing_slashes(text).last() != '/',
    decreases text.len(),
{
    if text.len() > 0 && text.last() == '/' {
        lemma_trimming_keeps_prefix(text.drop_last());
        let trimmed = without_trailing_slashes(text.drop_last());
        assert(text.drop_last().subrange(0, trimmed.len() as int) =~= text.subrange(0, trimmed.len() as int));
        assert forall|i: int| trimmed.len() <= i < text.len() implies #[trigger] text[i] == '/' by {
            if i < text.len() - 1 {
                assert(text.drop_last()[i] == text[i]);
            }
        }
    } else {
        assert(text.subrange(0, text.len() as int) =~= text);
    }
}

} // verus!
