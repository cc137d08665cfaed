//! The connector's configuration: where the OData API lives and the schema derived from it.

use crate::ndc;
use vstd::prelude::*;

verus! {

/// The location of the OData API, split into the parts of its URL.
#[derive(Debug)]
pub struct Endpoint {
    pub protocol: String,
    pub authority: String,
    pub path: String,
}

/// A validated configuration: a parsed endpoint and the target schema.
#[derive(Debug)]
pub struct Configuration {
    pub api_endpoint: Endpoint,
    pub schema: ndc::Schema,
}

/// A configuration as it is stored: the endpoint URL as text and the target schema.
#[derive(Debug)]
pub struct RawConfiguration {
    pub api_endpoint: String,
    pub schema: ndc::Schema,
}

/// The parts of a URI reference that the endpoint needs, each when present.
#[derive(Debug)]
pub struct UriParts {
    pub scheme: Option<String>,
    pub authority: Option<String>,
    pub path: Option<String>,
}

/// The model of an optional string.
pub open spec fn opt_view(s: Option<String>) -> Option<Seq<char>> {
    match s {
        Some(s) => Some(s@),
        None => None,
    }
}

/// The scheme, authority and path that http's URI parser reads from a text, or `None` where it
/// rejects the text.
pub uninterp spec fn uri_parts(s: Seq<char>) -> Option<
    (Option<Seq<char>>, Option<Seq<char>>, Option<Seq<char>>),
>;

/// The text of the URI that http's URI builder makes from a scheme, an authority and a path, or
/// `None` where it rejects them.
pub uninterp spec fn built_uri(scheme: Seq<char>, authority: Seq<char>, path: Seq<char>) -> Option<
    Seq<char>,
>;

/// Relies on http's `Uri` parser (`FromStr`) and on its accessors `scheme_str`, `authority` and
/// `path_and_query().path()`: what they give depends on the text alone.
#[verifier::external_body]
fn split_uri(input: &str) -> (r: Result<UriParts, String>)
    ensures
        match r {
            Ok(p) => uri_parts(input@) == Some(
                (opt_view(p.scheme), opt_view(p.authority), opt_view(p.path)),
            ),
            Err(_) => uri_parts(input@) is None,
        },
{
    let uri = input.parse::<http::Uri>().map_err(|e| e.to_string())?;
    Ok(UriParts {
        scheme: uri.scheme_str().map(|s| s.to_string()),
        authority: uri.authority().map(|a| a.as_str().to_string()),
        path: uri.path_and_query().map(|p| p.path().to_string()),
    })
}

/// Relies on http's `Uri::builder` with `scheme`, `authority` and `path_and_query`, then `build`
/// and the URI's `Display`: the text depends on the three parts alone.
#[verifier::external_body]
fn build_uri(scheme: &str, authority: &str, path: &str) -> (r: Option<String>)
    ensures
        match r {
            Some(t) => built_uri(scheme@, authority@, path@) == Some(t@),
            None => built_uri(scheme@, authority@, path@) is None,
        },
{
    http::Uri::builder()
        .scheme(scheme)
        .authority(authority)
        .path_and_query(path)
        .build()
        .ok()
        .map(|u| u.to_string())
}

/// The endpoint for the parts of a URI: scheme and authority are required, the path defaults to
/// empty.
pub open spec fn endpoint_parts(
    parts: (Option<Seq<char>>, Option<Seq<char>>, Option<Seq<char>>),
) -> Option<(Seq<char>, Seq<char>, Seq<char>)> {
    match parts {
        (Some(s), Some(a), p) => Some(
            (
                s,
                a,
                match p {
                    Some(p) => p,
                    None => Seq::empty(),
                },
            ),
        ),
        _ => None,
    }
}

impl Endpoint {
    /// The endpoint for the parts of a parsed URI; a URI without scheme or authority is refused.
    pub fn from_parts(parts: UriParts) -> (r: Result<Endpoint, String>)
        ensures
            match endpoint_parts((opt_view(parts.scheme), opt_view(parts.authority), opt_view(parts.path))) {
                Some(e) => r matches Ok(x) && (x.protocol@, x.authority@, x.path@) == e,
                None => r is Err,
            },
    {
        let protocol = match parts.scheme {
            Some(s) => s,
            None => {
                return Err(String::from_str("API endpoint URL is missing a protocol"));
            },
        };
        let authority = match parts.authority {
            Some(a) => a,
            None => {
                return Err(String::from_str("API endpoint URL is missing an authority"));
            },
        };
        let path = match parts.path {
            Some(p) => p,
            None => String::new(),
        };
        Ok(Endpoint { protocol, authority, path })
    }

    /// Parses the URL of the API into its parts.
    pub fn parse(input: &str) -> (r: Result<Endpoint, String>)
        ensures
            match uri_parts(input@) {
                Some(parts) => match endpoint_parts(parts) {
                    Some(e) => r matches Ok(x) && (x.protocol@, x.authority@, x.path@) == e,
                    None => r is Err,
                },
                None => r is Err,
            },
    {
        let parts = split_uri(input)?;
        Endpoint::from_parts(parts)
    }

    /// The URL of the endpoint, as http's URI builder writes it; `None` where the parts do not
    /// form a URI.
    pub fn to_string(&self) -> (r: Option<String>)
        ensures
            match r {
                Some(t) => built_uri(self.protocol@, self.authority@, self.path@) == Some(t@),
                None => built_uri(self.protocol@, self.authority@, self.path@) is None,
            },
    {
        build_uri(self.protocol.as_str(), self.authority.as_str(), self.path.as_str())
    }
}

/// Validates a stored configuration: the endpoint URL must parse.
pub fn validate_raw_configuration(configuration: RawConfiguration) -> (r: Result<
    Configuration,
    String,
>)
    ensures
        match uri_parts(configuration.api_endpoint@) {
            Some(parts) => match endpoint_parts(parts) {
                Some(e) => r matches Ok(c) && (
                c.api_endpoint.protocol@,
                c.api_endpoint.authority@,
                c.api_endpoint.path@,
            ) == e && c.schema == configuration.schema,
                None => r is Err,
            },
            None => r is Err,
        },
{
    let api_endpoint = Endpoint::parse(configuration.api_endpoint.as_str())?;
    Ok(Configuration { api_endpoint, schema: configuration.schema })
}

impl Clone for Endpoint {
    fn clone(&self) -> (r: Self)
        ensures
            r == *self,
    {
        Endpoint {
            protocol: self.protocol.clone(),
            authority: self.authority.clone(),
            path: self.path.clone(),
        }
    }
}

} // verus!
