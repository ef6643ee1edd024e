//! Request URLs as text: a bucket URL parsed and serialized by the HTTP
//! client's URL parser, with form-urlencoded query pairs appended.

use vstd::prelude::*;

verus! {

/// What `reqwest::Url::parse` makes of `text`: the serialization of the
/// parsed URL, or the rendered parse error.
pub uninterp spec fn url_parse(text: Seq<char>) -> Result<Seq<char>, Seq<char>>;

/// The serialization of the URL that `text` parses to, after `pairs` were
/// appended, in order and form-urlencoded, to its query.
pub uninterp spec fn url_with_query_pairs(text: Seq<char>, pairs: Seq<(Seq<char>, Seq<char>)>) -> Seq<char>;

/// Name/value pairs as character sequences.
pub open spec fn pairs_view(pairs: Seq<(String, String)>) -> Seq<(Seq<char>, Seq<char>)> {
    pairs.map_values(|p: (String, String)| (p.0@, p.1@))
}

/// `reqwest::Url::parse` (the `url` crate's WHATWG parser), giving the
/// parsed URL's `as_str` text or the error's `Display`. Claimed: the result
/// is what [`url_parse`] names for `text`.
#[verifier::external_body]
pub(crate) fn parse_url(text: &str) -> (r: Result<String, String>)
    ensures
        match r {
            Ok(t) => url_parse(text@) == Ok::<Seq<char>, Seq<char>>(t@),
            Err(m) => url_parse(text@) == Err::<Seq<char>, Seq<char>>(m@),
        },
{
    reqwest::Url::parse(text).map(|u| u.as_str().to_string()).map_err(|e| e.to_string())
}

/// `reqwest::Url::parse` of `text`, then `query_pairs_mut().extend_pairs`
/// with `pairs`, giving the URL's `as_str` text. Claimed: it fails exactly
/// when the parse fails, with the same message as [`parse_url`], and
/// otherwise gives what [`url_with_query_pairs`] names.
#[verifier::external_body]
pub(crate) fn parse_url_with_query(text: &str, pairs: &Vec<(String, String)>) -> (r: Result<String, String>)
    ensures
        match r {
            Ok(t) => url_parse(text@) is Ok && t@ == url_with_query_pairs(text@, pairs_view(pairs@)),
            Err(m) => url_parse(text@) == Err::<Seq<char>, Seq<char>>(m@),
        },
{
    let mut url = reqwest::Url::parse(text).map_err(|e| e.to_string())?;
    url.query_pairs_mut().extend_pairs(pairs.iter());
    Ok(url.as_str().to_string())
}

/// The `ListObjectsV2` query: `list-type=2`, `prefix` and, when given,
/// `continuation-token`, in that order.
pub open spec fn list_query(prefix: Seq<char>, continuation_token: Option<Seq<char>>) -> Seq<(Seq<char>, Seq<char>)> {
    let base = seq![("list-type"@, "2"@), ("prefix"@, prefix)];
    match continuation_token {
        Some(t) => base.push(("continuation-token"@, t)),
        None => base,
    }
}

/// An optional string slice as an optional character sequence.
pub open spec fn opt_str_view(o: Option<&str>) -> Option<Seq<char>> {
    match o {
        Some(s) => Some(s@),
        None => None,
    }
}

/// What [`list_objects_url`] gives: the listing URL's text, or the parse
/// error of `bucket_url`.
pub open spec fn list_objects_url_of(bucket_url: Seq<char>, prefix: Seq<char>, continuation_token: Option<Seq<char>>) -> Result<Seq<char>, Seq<char>> {
    match url_parse(bucket_url) {
        Ok(_) => Ok(url_with_query_pairs(bucket_url, list_query(prefix, continuation_token))),
        Err(m) => Err(m),
    }
}

/// The text of `bucket_url` with the `ListObjectsV2` query appended:
/// `list-type=2`, `prefix` and, when given, `continuation-token`. Fails
/// exactly when `bucket_url` does not parse, with the parser's message.
pub fn list_objects_url(bucket_url: &str, prefix: &str, continuation_token: Option<&str>) -> (r: Result<
    String,
    String,
>)
    ensures
        match r {
            Ok(t) => list_objects_url_of(bucket_url@, prefix@, opt_str_view(continuation_token)) == Ok::<
                Seq<char>,
                Seq<char>,
            >(t@),
            Err(m) => list_objects_url_of(bucket_url@, prefix@, opt_str_view(continuation_token)) == Err::<
                Seq<char>,
                Seq<char>,
            >(m@),
        },
{
    let mut pairs: Vec<(String, String)> = Vec::new();
    pairs.push((String::from_str("list-type"), String::from_str("2")));
    pairs.push((String::from_str("prefix"), String::from_str(prefix)));
    if let Some(token) = continuation_token {
        pairs.push((String::from_str("continuation-token"), String::from_str(token)));
    }
    assert(pairs_view(pairs@) =~= list_query(prefix@, opt_str_view(continuation_token)));
    parse_url_with_query(bucket_url, &pairs)
}

} // verus!
