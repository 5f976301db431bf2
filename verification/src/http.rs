//! What the delivery task needs to know of HTTP: where to push, which
//! headers can be sent, and which responses count as delivered.

use vstd::prelude::*;
use vstd::utf8::encode_utf8;

verus! {

/// The path of Loki's push endpoint, relative to the server's URL.
pub const PUSH_PATH: &'static str = "loki/api/v1/push";

/// Name of the header that says what the body is.
pub const CONTENT_TYPE_NAME: &'static str = "content-type";

/// What the body is: a Snappy block.
pub const CONTENT_TYPE_VALUE: &'static str = "application/x-snappy";

/// With fewer names than this in it, a header map takes one more. The map
/// refuses to grow beyond 32 768 slots; it asks for that only when three
/// quarters of its slots are taken or, after many collisions, a fifth of
/// them, which of 32 768 slots are 6 554.
pub const HEADER_LIMIT: usize = 6554;

/// The value of a header, as `http` keeps it and `reqwest` hands it on.
#[verifier::external_type_specification]
#[verifier::external_body]
pub struct ExHeaderValue(reqwest::header::HeaderValue);

/// The headers of a request, as `http` keeps them and `reqwest` hands
/// them on.
#[verifier::external_type_specification]
#[verifier::external_body]
#[verifier::reject_recursive_types(T)]
pub struct ExHeaderMap<T>(reqwest::header::HeaderMap<T>);

/// Names of headers with the bytes of their values, as mathematical values.
pub type Headers = Seq<(Seq<char>, Seq<u8>)>;

/// What `headers` holds: each name in it, in lower case, with the bytes of
/// the value kept first for that name, in the order in which the names
/// came in.
pub uninterp spec fn header_entries(headers: reqwest::header::HeaderMap) -> Seq<(Seq<char>, Seq<u8>)>;

/// Whether `entries` hold the name `name`.
pub open spec fn has_header(entries: Headers, name: Seq<char>) -> bool {
    exists|i: int| 0 <= i < entries.len() && (#[trigger] entries[i]).0 == name
}

/// The entries after `name` was set to `value`: in the place of the entry
/// with that name, or after all of them where there is none.
pub open spec fn with_header(entries: Headers, name: Seq<char>, value: Seq<u8>) -> Headers
    decreases entries.len(),
{
    if entries.len() == 0 {
        seq![(name, value)]
    } else if entries[0].0 == name {
        seq![(name, value)] + entries.drop_first()
    } else {
        seq![entries[0]] + with_header(entries.drop_first(), name, value)
    }
}

/// No headers.
pub open spec fn no_headers() -> Headers {
    Seq::empty()
}

/// The name under which `http` keeps the header called `name`: the name in
/// lower case, or nothing where `name` is no name that a header can have.
pub uninterp spec fn header_name_of(name: Seq<char>) -> Option<Seq<char>>;

/// The URL that `url` makes of `reference` taken relative to `base`, or
/// nothing where `base` is no absolute URL or the two do not make one.
pub uninterp spec fn url_joined(base: Seq<char>, reference: Seq<char>) -> Option<Seq<char>>;

/// Whether a header value may hold the byte `b`: anything from the space
/// upwards but the delete character, bytes beyond ASCII among them, and
/// the tabulator.
pub open spec fn is_header_value_byte(b: u8) -> bool {
    (b >= 32 && b != 127) || b == 9
}

/// Whether `value` can be the value of a header.
pub open spec fn is_header_value(value: Seq<char>) -> bool {
    forall|i: int|
        0 <= i < encode_utf8(value).len() ==> is_header_value_byte(
            #[trigger] encode_utf8(value)[i],
        )
}

/// The headers that every request carries before any is set: the one that
/// says what the body is.
pub open spec fn default_headers() -> Headers {
    seq![(CONTENT_TYPE_NAME@, encode_utf8(CONTENT_TYPE_VALUE@))]
}

/// Whether `text` is made of printable ASCII characters alone.
pub open spec fn is_printable(text: Seq<char>) -> bool {
    forall|i: int| 0 <= i < text.len() ==> ' ' <= #[trigger] text[i] <= '~'
}

/// Printable ASCII text can be the value of a header.
proof fn lemma_printable_is_header_value(text: Seq<char>)
    requires
        is_printable(text),
    ensures
        is_header_value(text),
{
    assert(vstd::utf8::is_ascii_chars(text)) by {
        assert forall|i: int| 0 <= i < text.len() implies '\0' <= #[trigger] text[i]
            <= '\u{7f}' by {
            assert(' ' <= text[i] <= '~');
        }
    }
    vstd::utf8::is_ascii_chars_encode_utf8(text);
    assert forall|i: int| 0 <= i < encode_utf8(text).len() implies is_header_value_byte(
        #[trigger] encode_utf8(text)[i],
    ) by {
        assert(' ' <= text[i] <= '~');
        assert(text[i] as u8 == encode_utf8(text)[i]);
    }
}

/// The content type of a Snappy block can be the value of a header.
pub proof fn lemma_content_type_is_header_value()
    ensures
        is_header_value(CONTENT_TYPE_VALUE@),
{
    reveal_strlit("application/x-snappy");
    let text = CONTENT_TYPE_VALUE@;
    assert(text.len() == 20);
    assert forall|i: int| 0 <= i < text.len() implies ' ' <= #[trigger] text[i] <= '~' by {
        if i < 5 {
            assert(i == 0 || i == 1 || i == 2 || i == 3 || i == 4);
        } else if i < 10 {
            assert(i == 5 || i == 6 || i == 7 || i == 8 || i == 9);
        } else if i < 15 {
            assert(i == 10 || i == 11 || i == 12 || i == 13 || i == 14);
        } else {
            assert(i == 15 || i == 16 || i == 17 || i == 18 || i == 19);
        }
    }
    lemma_printable_is_header_value(text);
}

/// Parses `name` by `HeaderName::from_bytes` of `http`, which `reqwest`
/// hands on, and returns the name as that type keeps it.
#[verifier::external_body]
pub(crate) fn parse_header_name(name: &str) -> (canonical: Option<String>)
    ensures
        canonical.is_some() == header_name_of(name@).is_some(),
        canonical matches Some(text) ==> header_name_of(name@) == Some(text@),
{
    match reqwest::header::HeaderName::from_bytes(name.as_bytes()) {
        Ok(parsed) => Some(parsed.as_str().to_owned()),
        Err(_) => None,
    }
}

/// Asks `HeaderValue::from_str` of `http`, which `reqwest` hands on,
/// whether `value` can be a header's value. It accepts a text whose bytes
/// are all at or above the space, those from 128 upwards among them, and
/// not the delete character, or tabulators.
#[verifier::external_body]
pub(crate) fn header_value_is_valid(value: &str) -> (valid: bool)
    ensures
        valid == is_header_value(value@),
{
    reqwest::header::HeaderValue::from_str(value).is_ok()
}

/// Copies `headers` by `HeaderMap::clone`, which copies every entry.
#[verifier::external_body]
pub(crate) fn clone_headers(headers: &reqwest::header::HeaderMap) -> (copy:
    reqwest::header::HeaderMap)
    ensures
        header_entries(copy) == header_entries(*headers),
{
    headers.clone()
}

/// An empty map, by `HeaderMap::new`.
#[verifier::external_body]
pub(crate) fn new_headers() -> (headers: reqwest::header::HeaderMap)
    ensures
        header_entries(headers) == no_headers(),
{
    reqwest::header::HeaderMap::new()
}

/// Sets the header `name` to `value` by `HeaderMap::try_insert`, which
/// keeps the name in lower case, puts the value in the place of any kept
/// for that name, and returns the value that was kept, if one was; here
/// the answer is whether one was. Where the map would have to grow beyond
/// its limit the method refuses and leaves the entries as they were; with
/// fewer names than `HEADER_LIMIT` in the map it does not refuse.
#[verifier::external_body]
pub(crate) fn try_insert_header(headers: &mut reqwest::header::HeaderMap, name: &str, value: &str) -> (replaced:
    Option<bool>)
    requires
        header_name_of(name@).is_some(),
        is_header_value(value@),
    ensures
        header_entries(*old(headers)).len() < HEADER_LIMIT ==> replaced.is_some(),
        replaced matches Some(was) ==> was == has_header(
            header_entries(*old(headers)),
            header_name_of(name@).unwrap(),
        ) && header_entries(*final(headers)) == with_header(
            header_entries(*old(headers)),
            header_name_of(name@).unwrap(),
            encode_utf8(value@),
        ),
        replaced.is_none() ==> header_entries(*final(headers)) == header_entries(*old(headers)),
{
    let name = reqwest::header::HeaderName::from_bytes(name.as_bytes()).expect("a header name");
    let value = reqwest::header::HeaderValue::from_str(value).expect("a header value");
    match headers.try_insert(name, value) {
        Ok(kept) => Some(kept.is_some()),
        Err(_) => None,
    }
}

/// The name of the header that says what the body is, from the constant
/// `CONTENT_TYPE` of `http`: `content-type`, a name as `HeaderName` keeps
/// it, so that parsing it gives it again.
#[verifier::external_body]
pub(crate) fn content_type_name() -> (name: String)
    ensures
        name@ == CONTENT_TYPE_NAME@,
        header_name_of(name@) == Some(name@),
{
    reqwest::header::CONTENT_TYPE.as_str().to_owned()
}

/// Parses `base` by `Url::parse` and resolves `reference` against it by
/// `Url::join`, both of `url`; returns the resulting URL as text.
#[verifier::external_body]
pub(crate) fn join_url(base: &str, reference: &str) -> (joined: Option<String>)
    ensures
        joined.is_some() == url_joined(base@, reference@).is_some(),
        joined matches Some(text) ==> url_joined(base@, reference@) == Some(text@),
{
    match url::Url::parse(base) {
        Ok(parsed) => match parsed.join(reference) {
            Ok(joined) => Some(joined.into()),
            Err(_) => None,
        },
        Err(_) => None,
    }
}

/// Whether a redirect with this status is refused. A redirect by 302 or
/// 303 would turn the push into a request without a body.
pub fn redirect_is_rejected(status: u16) -> (rejected: bool)
    ensures
        rejected == (status == 302 || status == 303),
{
    status == 302 || status == 303
}

/// Whether a response with this status means that the push was taken.
pub fn status_is_success(status: u16) -> (success: bool)
    ensures
        success == (200 <= status < 300),
{
    200 <= status && status < 300
}

/// How an attempt ended, given the status of the response, if one came.
/// Anything but a status from 200 to 299 is a failure.
pub fn send_result(status: Option<u16>) -> (result: Result<(), ()>)
    ensures
        result.is_ok() <==> (status matches Some(code) && 200 <= code < 300),
{
    match status {
        Some(code) => if status_is_success(code) {
            Ok(())
        } else {
            Err(())
        },
        None => Err(()),
    }
}

} // verus!
