//! A custom HTTP request matcher: a request matches exactly when its
//! method is `POST`, its `Content-Type` header is `application/json`, its
//! `Content-Length` header equals the body's length in bytes, and its body
//! is a valid JSON document.
//!
//! The request is modelled by [`HttpRequest`]: the method name, the header
//! list (names lowercased, as an HTTP front end normalizes them; values as
//! raw bytes), and the body bytes.  The checks run in a fixed order, and
//! some ill-formed requests are a fault rather than a mismatch (the
//! matcher's caller treats a fault as a failed test run, not as "no
//! match"): [`WellFormedJson::try_matches`] reports the verdict or the
//! fault, and [`WellFormedJson::matches`] decides fault-free requests.

use vstd::prelude::*;
use vstd::utf8::decode_utf8;
use vstd::utf8::valid_utf8;

use crate::text::utf8_to_str;

verus! {

/// One request header: its (lowercased) name and its raw bytes value.
#[derive(Debug, Clone, PartialEq, Eq)]
pub struct Header {
    pub name: String,
    pub value: Vec<u8>,
}

/// The mathematical value of a [`Header`].
#[verifier::ext_equal]
pub ghost struct HeaderV {
    pub name: Seq<char>,
    pub value: Seq<u8>,
}

impl View for Header {
    type V = HeaderV;

    open spec fn view(&self) -> HeaderV {
        HeaderV { name: self.name@, value: self.value@ }
    }
}

impl DeepView for Header {
    type V = HeaderV;

    open spec fn deep_view(&self) -> HeaderV {
        self@
    }
}

/// An HTTP request, reduced to what the matcher reads.
#[derive(Debug, Clone, PartialEq, Eq)]
pub struct HttpRequest {
    pub method: String,
    pub headers: Vec<Header>,
    pub body: Vec<u8>,
}

/// The mathematical value of an [`HttpRequest`].
#[verifier::ext_equal]
pub ghost struct HttpRequestV {
    pub method: Seq<char>,
    pub headers: Seq<HeaderV>,
    pub body: Seq<u8>,
}

impl View for HttpRequest {
    type V = HttpRequestV;

    open spec fn view(&self) -> HttpRequestV {
        HttpRequestV {
            method: self.method@,
            headers: self.headers.deep_view(),
            body: self.body@,
        }
    }
}

/// An ill-formed request on which the matcher faults instead of answering:
/// a header value it must read as text that is not visible ASCII, a
/// missing or unreadable `Content-Length`, a `Content-Length` that does
/// not equal the body's length, or a body that is not UTF-8.
#[derive(Debug, Clone, PartialEq, Eq)]
pub enum MatchFault {
    NonAsciiContentType,
    MissingContentLength,
    NonAsciiContentLength,
    InvalidContentLength,
    ContentLengthMismatch,
    BodyNotUtf8,
}

// ---------------------------------------------------------------------------
// Header lookup.
// ---------------------------------------------------------------------------

/// The value of the first header named `name`, if any.
pub open spec fn header_lookup(hs: Seq<HeaderV>, name: Seq<char>) -> Option<Seq<u8>>
    decreases hs.len(),
{
    if hs.len() == 0 {
        Option::None
    } else if hs[0].name == name {
        Option::Some(hs[0].value)
    } else {
        header_lookup(hs.drop_first(), name)
    }
}

#[verifier::loop_isolation(false)]
fn find_header<'a>(headers: &'a Vec<Header>, name: &String) -> (r: Option<&'a Vec<u8>>)
    ensures
        match r {
            Option::Some(v) => header_lookup(headers.deep_view(), name@) == Option::Some(v@),
            Option::None => header_lookup(headers.deep_view(), name@) is None,
        },
{
    let ghost all = headers.deep_view();
    proof {
        assert(all.skip(0) =~= all);
    }
    let mut i: usize = 0;
    while i < headers.len()
        invariant
            i <= headers@.len(),
            header_lookup(all, name@) == header_lookup(all.skip(i as int), name@),
        decreases headers@.len() - i,
    {
        proof {
            assert(all[i as int] == headers@[i as int].deep_view());
            assert(all.skip(i as int)[0] == all[i as int]);
            assert(all.skip(i as int).drop_first() =~= all.skip(i as int + 1));
        }
        let hit = headers[i].name == *name;
        if hit {
            proof {
                assert(header_lookup(all.skip(i as int), name@) == Option::Some(
                    all.skip(i as int)[0].value,
                ));
            }
            return Option::Some(&headers[i].value);
        }
        i += 1;
    }
    proof {
        assert(all.skip(i as int) =~= Seq::<HeaderV>::empty());
    }
    Option::None
}

// ---------------------------------------------------------------------------
// Header values as text and as numbers.
// ---------------------------------------------------------------------------

/// Visible ASCII, the bytes an HTTP header value may hold for it to be
/// readable as text: printable characters, space, and horizontal tab.
pub open spec fn is_visible_ascii(b: u8) -> bool {
    (32 <= b && b < 127) || b == 9
}

/// True when every byte of the value is visible ASCII.
pub open spec fn visible_ascii(v: Seq<u8>) -> bool {
    forall|i: int| 0 <= i < v.len() ==> is_visible_ascii(#[trigger] v[i])
}

#[verifier::loop_isolation(false)]
fn check_visible_ascii(v: &[u8]) -> (r: bool)
    ensures
        r == visible_ascii(v@),
{
    let mut i: usize = 0;
    while i < v.len()
        invariant
            i <= v@.len(),
            forall|j: int| 0 <= j < i ==> is_visible_ascii(#[trigger] v@[j]),
        decreases v@.len() - i,
    {
        let b = v[i];
        if !((32 <= b && b < 127) || b == 9) {
            return false;
        }
        i += 1;
    }
    true
}

/// The digits of a decimal literal, once an optional leading plus sign is
/// stripped.
pub open spec fn decimal_digits(v: Seq<u8>) -> Seq<u8> {
    if v.len() > 0 && v[0] == 43 {
        v.drop_first()
    } else {
        v
    }
}

/// True when the bytes are one or more decimal digits.
pub open spec fn all_digits(v: Seq<u8>) -> bool {
    v.len() > 0 && forall|i: int| 0 <= i < v.len() ==> 48 <= #[trigger] v[i] <= 57
}

/// The number denoted by a sequence of decimal digits.
pub open spec fn decimal_value(v: Seq<u8>) -> int
    decreases v.len(),
{
    if v.len() == 0 {
        0
    } else {
        decimal_value(v.drop_last()) * 10 + (v.last() - 48)
    }
}

/// True when the bytes parse as a `usize`: an optional plus sign, then
/// digits, denoting a value that fits.
pub open spec fn parses_as_usize(v: Seq<u8>) -> bool {
    all_digits(decimal_digits(v)) && decimal_value(decimal_digits(v)) <= usize::MAX
}

proof fn lemma_decimal_value_grows(v: Seq<u8>, i: int)
    requires
        0 <= i <= v.len(),
        forall|j: int| i <= j < v.len() ==> 48 <= #[trigger] v[j] <= 57,
        decimal_value(v.take(i)) >= 0,
    ensures
        decimal_value(v.take(i)) <= decimal_value(v),
    decreases v.len() - i,
{
    if i < v.len() {
        assert(v.take(i + 1).drop_last() =~= v.take(i));
        assert(v.take(i + 1).last() == v[i]);
        assert(decimal_value(v.take(i + 1)) == decimal_value(v.take(i)) * 10 + (v[i] - 48));
        lemma_decimal_value_grows(v, i + 1);
    } else {
        assert(v.take(i) =~= v);
    }
}

/// Parses a decimal `usize` from the bytes: an optional leading plus sign,
/// then one or more digits; `None` when the bytes are not of that shape or
/// the value does not fit.
#[verifier::loop_isolation(false)]
fn parse_usize_bytes(v: &[u8]) -> (r: Option<usize>)
    ensures
        r is Some <==> parses_as_usize(v@),
        r matches Option::Some(n) ==> n as int == decimal_value(decimal_digits(v@)),
{
    let start: usize = if v.len() > 0 && v[0] == 43 {
        1
    } else {
        0
    };
    let ghost digits = decimal_digits(v@);
    proof {
        assert(digits =~= v@.subrange(start as int, v@.len() as int));
    }
    if v.len() == start {
        proof {
            assert(!all_digits(digits));
        }
        return Option::None;
    }
    let mut acc: usize = 0;
    let mut i: usize = start;
    while i < v.len()
        invariant
            start <= i <= v@.len(),
            forall|j: int| start <= j < i ==> 48 <= #[trigger] v@[j] <= 57,
            acc as int == decimal_value(digits.take(i - start)),
        decreases v@.len() - i,
    {
        let b = v[i];
        if !(48 <= b && b <= 57) {
            proof {
                assert(digits[i - start] == v@[i as int]);
                assert(!all_digits(digits));
            }
            return Option::None;
        }
        let d = (b - 48) as usize;
        proof {
            assert(digits.take(i - start + 1).drop_last() =~= digits.take(i - start));
            assert(digits.take(i - start + 1).last() == v@[i as int]);
            assert(decimal_value(digits.take(i - start + 1)) == acc as int * 10 + d as int);
        }
        if acc > (usize::MAX - d) / 10 {
            proof {
                assert(acc as int * 10 + d as int > usize::MAX as int);
                if all_digits(digits) {
                    lemma_decimal_value_grows(digits, i - start + 1);
                    assert(decimal_value(digits) > usize::MAX);
                }
            }
            return Option::None;
        }
        acc = acc * 10 + d;
        i += 1;
    }
    proof {
        assert(digits.take(i - start) =~= digits);
        assert(all_digits(digits));
    }
    Option::Some(acc)
}

// ---------------------------------------------------------------------------
// JSON validity.
// ---------------------------------------------------------------------------

/// Whether a text is a well-formed JSON document; what
/// `serde_json::from_str::<serde_json::Value>` accepts depends on the text
/// alone.
pub uninterp spec fn json_parses(s: Seq<char>) -> bool;

/// Relies on `serde_json::from_str::<serde_json::Value>`: whether the text
/// parses as a JSON document is a function of the text alone.
#[verifier::external_body]
fn parse_json_ok(s: &str) -> (r: bool)
    ensures
        r == json_parses(s@),
{
    serde_json::from_str::<serde_json::Value>(s).is_ok()
}

// ---------------------------------------------------------------------------
// The matcher.
// ---------------------------------------------------------------------------

/// The bytes of `application/json`.
pub open spec fn json_content_type() -> Seq<u8> {
    seq![
        97u8, 112u8, 112u8, 108u8, 105u8, 99u8, 97u8, 116u8, 105u8, 111u8, 110u8, 47u8, 106u8,
        115u8, 111u8, 110u8,
    ]
}

/// The fault, if any, that the matcher runs into on this request; the
/// checks run in order: method, `Content-Type` presence and value,
/// `Content-Length`, body UTF-8.  A request that fails an ordinary check
/// (wrong method, missing or different `Content-Type`) is a mismatch, not
/// a fault, so no later fault is reached.
pub open spec fn match_fault(r: HttpRequestV) -> Option<MatchFault> {
    if r.method != "POST"@ {
        Option::None
    } else {
        match header_lookup(r.headers, "content-type"@) {
            Option::None => Option::None,
            Option::Some(ct) => {
                if !visible_ascii(ct) {
                    Option::Some(MatchFault::NonAsciiContentType)
                } else if ct != json_content_type() {
                    Option::None
                } else {
                    match header_lookup(r.headers, "content-length"@) {
                        Option::None => Option::Some(MatchFault::MissingContentLength),
                        Option::Some(cl) => {
                            if !visible_ascii(cl) {
                                Option::Some(MatchFault::NonAsciiContentLength)
                            } else if !parses_as_usize(cl) {
                                Option::Some(MatchFault::InvalidContentLength)
                            } else if decimal_value(decimal_digits(cl)) != r.body.len() {
                                Option::Some(MatchFault::ContentLengthMismatch)
                            } else if !valid_utf8(r.body) {
                                Option::Some(MatchFault::BodyNotUtf8)
                            } else {
                                Option::None
                            }
                        },
                    }
                }
            },
        }
    }
}

/// True when the request matches: `POST`, `Content-Type` present and
/// exactly `application/json`, `Content-Length` present and equal to the
/// body's length in bytes, and a body that is a valid JSON document.
pub open spec fn spec_matches(r: HttpRequestV) -> bool {
    &&& r.method == "POST"@
    &&& header_lookup(r.headers, "content-type"@) matches Option::Some(ct) && visible_ascii(ct)
        && ct == json_content_type()
    &&& header_lookup(r.headers, "content-length"@) matches Option::Some(cl) && visible_ascii(cl)
        && parses_as_usize(cl) && decimal_value(decimal_digits(cl)) == r.body.len()
    &&& valid_utf8(r.body)
    &&& json_parses(decode_utf8(r.body))
}

/// The matcher: accepts exactly the well-formed JSON `POST` requests.
pub struct WellFormedJson;

impl WellFormedJson {
    /// Evaluates the matcher on any request: the verdict for fault-free
    /// requests, and otherwise the fault the checks run into.
    pub fn try_matches(&self, request: &HttpRequest) -> (r: Result<bool, MatchFault>)
        ensures
            match match_fault(request@) {
                Option::None => r matches Result::Ok(b) && b == spec_matches(request@),
                Option::Some(f) => r == Result::<bool, MatchFault>::Err(f),
            },
    {
        let post = "POST".to_owned();
        if !(request.method == post) {
            return Result::Ok(false);
        }
        let ct_name = "content-type".to_owned();
        let ct = match find_header(&request.headers, &ct_name) {
            Option::None => {
                return Result::Ok(false);
            },
            Option::Some(ct) => ct,
        };
        if !check_visible_ascii(ct.as_slice()) {
            return Result::Err(MatchFault::NonAsciiContentType);
        }
        let json_ct: Vec<u8> = vec![
            97u8, 112u8, 112u8, 108u8, 105u8, 99u8, 97u8, 116u8, 105u8, 111u8, 110u8, 47u8, 106u8,
            115u8, 111u8, 110u8,
        ];
        if !crate::byteutil::bytes_is(ct.as_slice(), Ghost(json_content_type()), json_ct.as_slice())
        {
            return Result::Ok(false);
        }
        let cl_name = "content-length".to_owned();
        let cl = match find_header(&request.headers, &cl_name) {
            Option::None => {
                return Result::Err(MatchFault::MissingContentLength);
            },
            Option::Some(cl) => cl,
        };
        if !check_visible_ascii(cl.as_slice()) {
            return Result::Err(MatchFault::NonAsciiContentLength);
        }
        let n = match parse_usize_bytes(cl.as_slice()) {
            Option::None => {
                return Result::Err(MatchFault::InvalidContentLength);
            },
            Option::Some(n) => n,
        };
        if n != request.body.len() {
            return Result::Err(MatchFault::ContentLengthMismatch);
        }
        match utf8_to_str(request.body.as_slice()) {
            Option::None => Result::Err(MatchFault::BodyNotUtf8),
            Option::Some(s) => Result::Ok(parse_json_ok(s)),
        }
    }

    /// Decides a fault-free request: true exactly when it is a well-formed
    /// JSON `POST`.
    pub fn matches(&self, request: &HttpRequest) -> (r: bool)
        requires
            match_fault(request@) is None,
        ensures
            r == spec_matches(request@),
    {
        match self.try_matches(request) {
            Result::Ok(b) => b,
            Result::Err(_) => false,
        }
    }
}

} // verus!
