//! S3 `ListObjectsV2` XML responses: each `<Contents><Key>` value and the
//! pagination fields `<IsTruncated>` / `<NextContinuationToken>`.
//!
//! The body is untrusted. quick-xml's pull parser tokenizes it; the tokens
//! are then read here with open-element depth tracked, so a truncated or
//! malformed document (an unmatched closing tag, elements left open at the
//! end, text outside any element) is rejected rather than read as a short
//! listing.

use vstd::prelude::*;
use quick_xml::events::Event::{Empty, End, Eof, Start, Text};
use quick_xml::Reader;
use crate::alerts_model::opt_string_view;
use crate::hrrr_error::HrrrError;
use crate::net::FetchError;
use crate::alerts_time::{debug_str, str_debug};
use crate::text::{
    decimal, eq_ignore_ascii_case, eq_ignore_ascii_case_spec, push_decimal, str_eq, strings_view, trim_ws,
    trimmed_range, chars_of,
};

verus! {

/// One event of the XML pull parser, as plain values.
#[derive(Debug, Clone, PartialEq, Eq)]
pub enum XmlToken {
    /// An opening tag, by qualified name.
    Start(String),
    /// A self-closing tag.
    Empty(String),
    /// A closing tag.
    End(String),
    /// Character data, still escaped.
    Text(String),
    /// Anything else: declarations, comments, CDATA, entity references.
    Other,
}

pub ghost enum XmlTokenView {
    Start(Seq<char>),
    Empty(Seq<char>),
    End(Seq<char>),
    Text(Seq<char>),
    Other,
}

impl View for XmlToken {
    type V = XmlTokenView;

    open spec fn view(&self) -> XmlTokenView {
        match self {
            XmlToken::Start(n) => XmlTokenView::Start(n@),
            XmlToken::Empty(n) => XmlTokenView::Empty(n@),
            XmlToken::End(n) => XmlTokenView::End(n@),
            XmlToken::Text(t) => XmlTokenView::Text(t@),
            XmlToken::Other => XmlTokenView::Other,
        }
    }
}

pub open spec fn tokens_view(tokens: Seq<XmlToken>) -> Seq<XmlTokenView> {
    tokens.map_values(|t: XmlToken| t@)
}

/// The tokens quick-xml's reader (text trimming on) yields for `xml` before
/// its end or its first error, with that error's message.
pub uninterp spec fn xml_token_stream(xml: Seq<u8>) -> (Seq<XmlTokenView>, Option<Seq<char>>);

/// quick-xml's `escape::unescape` of `raw`: the unescaped text, or the
/// error's message.
pub uninterp spec fn xml_unescape(raw: Seq<char>) -> Result<Seq<char>, Seq<char>>;

/// Runs quick-xml's `Reader` (with `trim_text(true)`) over `xml` until its
/// end or first error. Trusted: the tokens and the error message are taken
/// to be [`xml_token_stream`] of the bytes; nothing about the tokenizer
/// itself is stated.
#[verifier::external_body]
fn read_xml_tokens(xml: &[u8]) -> (r: (Vec<XmlToken>, Option<String>))
    ensures
        (tokens_view(r.0@), opt_string_view(r.1)) == xml_token_stream(xml@),
{
    let mut reader = Reader::from_reader(xml);
    reader.config_mut().trim_text(true);
    let mut tokens = Vec::new();
    loop {
        tokens.push(match reader.read_event() {
            Ok(Eof) => return (tokens, None),
            Ok(Start(e)) => XmlToken::Start(e.name().as_ref().into()),
            Ok(Empty(e)) => XmlToken::Empty(e.name().as_ref().into()),
            Ok(End(e)) => XmlToken::End(e.name().as_ref().into()),
            Ok(Text(e)) => XmlToken::Text((*e).into()),
            Ok(_) => XmlToken::Other,
            Err(e) => return (tokens, Some(e.to_string())),
        });
    }
}

/// quick-xml's `escape::unescape`. Trusted: the result is taken to be
/// [`xml_unescape`] of the text.
#[verifier::external_body]
fn unescape_text(raw: &str) -> (r: Result<String, String>)
    ensures
        match r {
            Ok(s) => xml_unescape(raw@) == Ok::<Seq<char>, Seq<char>>(s@),
            Err(m) => xml_unescape(raw@) == Err::<Seq<char>, Seq<char>>(m@),
        },
{
    match quick_xml::escape::unescape(raw) {
        Ok(s) => Ok(s.into_owned()),
        Err(e) => Err(e.to_string()),
    }
}

/// One page of a (possibly paginated) `ListObjectsV2` response.
#[derive(Debug, Clone, PartialEq, Eq)]
pub struct ListObjectsPage {
    /// Every `<Contents><Key>` value, in document order.
    pub keys: Vec<String>,
    pub is_truncated: bool,
    pub next_continuation_token: Option<String>,
}

pub ghost struct PageView {
    pub keys: Seq<Seq<char>>,
    pub is_truncated: bool,
    pub next_continuation_token: Option<Seq<char>>,
}

impl View for ListObjectsPage {
    type V = PageView;

    open spec fn view(&self) -> PageView {
        PageView {
            keys: strings_view(self.keys@),
            is_truncated: self.is_truncated,
            next_continuation_token: opt_string_view(self.next_continuation_token),
        }
    }
}

/// Errors from listing a site's objects.
#[derive(Debug, Clone, PartialEq, Eq)]
pub enum DiscoveryError {
    InvalidBucketUrl { url: String, message: String },
    /// The request failed after `attempts` attempts (the message says why).
    Request { attempts: u32, message: String },
    HttpStatus { status: u16, url: String, attempts: u32 },
    MalformedXml(String),
    TooManyPages,
    Cancelled,
}

/// The reading state after some tokens.
pub ghost struct ListState {
    pub page: PageView,
    pub in_contents: bool,
    /// The innermost open tag, empty after a closing tag.
    pub current_tag: Seq<char>,
    /// Open elements.
    pub depth: int,
}

pub open spec fn initial_list_state() -> ListState {
    ListState {
        page: PageView { keys: Seq::empty(), is_truncated: false, next_continuation_token: None },
        in_contents: false,
        current_tag: Seq::empty(),
        depth: 0,
    }
}

/// Read one token; an error is the message of the malformed-XML error.
pub open spec fn list_step(st: ListState, t: XmlTokenView) -> Result<ListState, Seq<char>> {
    match t {
        XmlTokenView::Start(name) => Ok(
            ListState {
                depth: st.depth + 1,
                in_contents: st.in_contents || name == "Contents"@,
                current_tag: name,
                ..st
            },
        ),
        XmlTokenView::Empty(name) => Ok(ListState { current_tag: name, ..st }),
        XmlTokenView::End(name) => if st.depth - 1 < 0 {
            Err("unmatched closing tag </"@ + name + "> with no corresponding open tag"@)
        } else {
            Ok(
                ListState {
                    depth: st.depth - 1,
                    in_contents: if name == "Contents"@ { false } else { st.in_contents },
                    current_tag: Seq::empty(),
                    ..st
                },
            )
        },
        XmlTokenView::Text(raw) => match xml_unescape(raw) {
            Err(m) => Err(m),
            Ok(decoded) => if st.depth == 0 && trim_ws(decoded).len() > 0 {
                Err("unexpected top-level text content: "@ + str_debug(decoded))
            } else if st.current_tag == "Key"@ && st.in_contents {
                Ok(ListState { page: PageView { keys: st.page.keys.push(decoded), ..st.page }, ..st })
            } else if st.current_tag == "IsTruncated"@ {
                Ok(
                    ListState {
                        page: PageView { is_truncated: eq_ignore_ascii_case_spec(decoded, "true"@), ..st.page },
                        ..st
                    },
                )
            } else if st.current_tag == "NextContinuationToken"@ {
                Ok(ListState { page: PageView { next_continuation_token: Some(decoded), ..st.page }, ..st })
            } else {
                Ok(st)
            },
        },
        XmlTokenView::Other => Ok(st),
    }
}

/// Read tokens in order, stopping at the first error.
pub open spec fn list_run(tokens: Seq<XmlTokenView>) -> Result<ListState, Seq<char>>
    decreases tokens.len(),
{
    if tokens.len() == 0 {
        Ok(initial_list_state())
    } else {
        match list_run(tokens.drop_last()) {
            Err(m) => Err(m),
            Ok(st) => list_step(st, tokens.last()),
        }
    }
}

/// The page of a token stream that ended at `read_error` (or at the end of
/// the document); an error is the malformed-XML message.
pub open spec fn list_outcome(tokens: Seq<XmlTokenView>, read_error: Option<Seq<char>>) -> Result<PageView, Seq<char>> {
    match list_run(tokens) {
        Err(m) => Err(m),
        Ok(st) => match read_error {
            Some(m) => Err(m),
            None => if st.depth != 0 {
                Err("document ended with "@ + decimal(st.depth as nat)
                    + " element(s) still open (truncated or malformed input)"@)
            } else {
                Ok(st.page)
            },
        },
    }
}

proof fn lemma_list_run_stop(tokens: Seq<XmlTokenView>, k: int)
    requires
        0 <= k <= tokens.len(),
        list_run(tokens.take(k)) is Err,
    ensures
        list_run(tokens) == list_run(tokens.take(k)),
    decreases tokens.len() - k,
{
    if k < tokens.len() {
        assert(tokens.take(k + 1).drop_last() =~= tokens.take(k));
        lemma_list_run_stop(tokens, k + 1);
    } else {
        assert(tokens.take(k) =~= tokens);
    }
}

fn malformed(prefix: &str, middle: &str, suffix: &str) -> (e: DiscoveryError)
    ensures
        e matches DiscoveryError::MalformedXml(m) && m@ == prefix@ + middle@ + suffix@,
{
    let mut m = String::from_str(prefix);
    m.append(middle);
    m.append(suffix);
    DiscoveryError::MalformedXml(m)
}

/// Read the tokens of a `ListObjectsV2` response that ended at `read_error`
/// (or at the end of the document).
pub fn list_page_from_tokens(tokens: &Vec<XmlToken>, read_error: Option<String>) -> (r: Result<ListObjectsPage, DiscoveryError>)
    ensures
        match r {
            Ok(p) => list_outcome(tokens_view(tokens@), opt_string_view(read_error)) == Ok::<PageView, Seq<char>>(p@),
            Err(e) => e matches DiscoveryError::MalformedXml(m) && list_outcome(
                tokens_view(tokens@),
                opt_string_view(read_error),
            ) == Err::<PageView, Seq<char>>(m@),
        },
{
    let ghost tv = tokens_view(tokens@);
    let mut page = ListObjectsPage { keys: Vec::new(), is_truncated: false, next_continuation_token: None };
    let mut in_contents = false;
    let mut current_tag = String::new();
    let mut depth: usize = 0;
    let n = tokens.len();
    let mut i: usize = 0;
    assert(tv.take(0) =~= Seq::<XmlTokenView>::empty());
    assert(page@.keys =~= Seq::<Seq<char>>::empty());
    while i < n
        invariant
            n == tokens@.len(),
            tv == tokens_view(tokens@),
            i <= n,
            depth <= i,
            list_run(tv.take(i as int)) == Ok::<ListState, Seq<char>>(
                ListState { page: page@, in_contents, current_tag: current_tag@, depth: depth as int },
            ),
        decreases n - i,
    {
        assert(tv.take(i as int + 1).drop_last() =~= tv.take(i as int));
        assert(tv.take(i as int + 1).last() == tokens@[i as int]@);
        match &tokens[i] {
            XmlToken::Start(name) => {
                depth = depth + 1;
                if str_eq(name.as_str(), "Contents") {
                    in_contents = true;
                }
                current_tag = name.clone();
            },
            XmlToken::Empty(name) => {
                current_tag = name.clone();
            },
            XmlToken::End(name) => {
                if depth == 0 {
                    proof {
                        lemma_list_run_stop(tv, i as int + 1);
                        reveal_strlit("unmatched closing tag </");
                        reveal_strlit("> with no corresponding open tag");
                    }
                    return Err(
                        malformed("unmatched closing tag </", name.as_str(), "> with no corresponding open tag"),
                    );
                }
                depth = depth - 1;
                if str_eq(name.as_str(), "Contents") {
                    in_contents = false;
                }
                current_tag = String::new();
            },
            XmlToken::Text(raw) => {
                let decoded = match unescape_text(raw.as_str()) {
                    Ok(d) => d,
                    Err(m) => {
                        proof {
                            lemma_list_run_stop(tv, i as int + 1);
                        }
                        return Err(DiscoveryError::MalformedXml(m));
                    },
                };
                if depth == 0 {
                    let chars = chars_of(decoded.as_str());
                    let (a, b) = trimmed_range(chars.as_slice(), 0, chars.len());
                    assert(chars@.subrange(0, chars@.len() as int) =~= decoded@);
                    if a < b {
                        proof {
                            lemma_list_run_stop(tv, i as int + 1);
                            reveal_strlit("unexpected top-level text content: ");
                            reveal_strlit("");
                            assert(chars@.subrange(a as int, b as int).len() > 0);
                        }
                        let quoted = debug_str(decoded.as_str());
                        let e = malformed("unexpected top-level text content: ", quoted.as_str(), "");
                        assert("unexpected top-level text content: "@ + quoted@ + ""@ =~= "unexpected top-level text content: "@
                            + str_debug(decoded@));
                        return Err(e);
                    }
                }
                if str_eq(current_tag.as_str(), "Key") && in_contents {
                    let ghost k0 = page@.keys;
                    let ghost dv = decoded@;
                    page.keys.push(decoded);
                    assert(page@.keys =~= k0.push(dv));
                } else if str_eq(current_tag.as_str(), "IsTruncated") {
                    page.is_truncated = eq_ignore_ascii_case(decoded.as_str(), "true");
                } else if str_eq(current_tag.as_str(), "NextContinuationToken") {
                    page.next_continuation_token = Some(decoded);
                }
            },
            XmlToken::Other => {},
        }
        i = i + 1;
    }
    assert(tv.take(n as int) =~= tv);
    match read_error {
        Some(m) => {
            return Err(DiscoveryError::MalformedXml(m));
        },
        None => {},
    }
    if depth != 0 {
        let mut m = String::from_str("document ended with ");
        push_decimal(&mut m, depth as u64);
        m.append(" element(s) still open (truncated or malformed input)");
        proof {
            reveal_strlit("document ended with ");
            reveal_strlit(" element(s) still open (truncated or malformed input)");
        }
        return Err(DiscoveryError::MalformedXml(m));
    }
    Ok(page)
}

/// Parse one `ListObjectsV2` response body.
pub fn parse_list_objects_v2(xml: &[u8]) -> (r: Result<ListObjectsPage, DiscoveryError>)
    ensures
        match r {
            Ok(p) => list_outcome(xml_token_stream(xml@).0, xml_token_stream(xml@).1) == Ok::<PageView, Seq<char>>(p@),
            Err(e) => e matches DiscoveryError::MalformedXml(m) && list_outcome(
                xml_token_stream(xml@).0,
                xml_token_stream(xml@).1,
            ) == Err::<PageView, Seq<char>>(m@),
        },
{
    let (tokens, read_error) = read_xml_tokens(xml);
    list_page_from_tokens(&tokens, read_error)
}


/// Parse one `ListObjectsV2` response of the HRRR bucket fetched from `url`;
/// a malformed listing is reported against that URL.
pub fn parse_hrrr_listing(url: &str, xml: &[u8]) -> (r: Result<ListObjectsPage, HrrrError>)
    ensures
        match r {
            Ok(p) => list_outcome(xml_token_stream(xml@).0, xml_token_stream(xml@).1) == Ok::<PageView, Seq<char>>(p@),
            Err(e) => e matches HrrrError::MalformedListing { url: u, message: m } && u@ == url@ && list_outcome(
                xml_token_stream(xml@).0,
                xml_token_stream(xml@).1,
            ) == Err::<PageView, Seq<char>>(m@),
        },
{
    match parse_list_objects_v2(xml) {
        Ok(page) => Ok(page),
        Err(DiscoveryError::MalformedXml(message)) => Err(HrrrError::MalformedListing { url: String::from_str(url), message }),
        Err(_) => Err(HrrrError::MalformedListing { url: String::from_str(url), message: String::new() }),
    }
}

/// A listing is accepted only when the tokenizer reached the end of the
/// document without error and every opened element was closed.
pub proof fn lemma_accepted_listing_is_balanced(tokens: Seq<XmlTokenView>, read_error: Option<Seq<char>>)
    ensures
        list_outcome(tokens, read_error) is Ok ==> (read_error is None && (list_run(tokens) matches Ok(st) && st.depth == 0)),
{
}


impl DiscoveryError {
    /// The discovery error a fetch failure becomes.
    pub fn from_fetch(e: FetchError) -> (d: DiscoveryError)
        ensures
            match e {
                FetchError::Cancelled => d == DiscoveryError::Cancelled,
                FetchError::Request { attempts, message } => d == (DiscoveryError::Request { attempts, message }),
                FetchError::Status { status, url, attempts } => d == (DiscoveryError::HttpStatus { status, url, attempts }),
            },
    {
        match e {
            FetchError::Cancelled => DiscoveryError::Cancelled,
            FetchError::Request { attempts, message } => DiscoveryError::Request { attempts, message },
            FetchError::Status { status, url, attempts } => DiscoveryError::HttpStatus { status, url, attempts },
        }
    }
}

} // verus!
