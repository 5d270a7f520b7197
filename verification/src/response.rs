//! The response side of the wire protocol: a structured response, builder
//! operations that set its body and headers, and serialization to the
//! status-line / headers / body wire form.
use crate::text::{crlf, dec_digits, u64_to_dec};
use vstd::prelude::*;
use vstd::utf8::encode_utf8;

verus! {

/// Mathematical content of a response. Headers keep the order in which
/// they were set, because serialization writes them in that order.
pub ghost struct ResponseModel {
    pub status: int,
    pub status_text: Seq<char>,
    pub headers: Seq<(Seq<char>, Seq<char>)>,
    pub body: Seq<char>,
}

/// No two header entries share a key.
pub open spec fn unique_keys(hs: Seq<(Seq<char>, Seq<char>)>) -> bool {
    forall|i: int, j: int| 0 <= i < j < hs.len() ==> hs[i].0 != hs[j].0
}

/// Index of the first header entry with the given key, if any.
pub open spec fn find_key(hs: Seq<(Seq<char>, Seq<char>)>, key: Seq<char>) -> Option<int>
    decreases hs.len(),
{
    if hs.len() == 0 {
        None
    } else if hs[0].0 == key {
        Some(0)
    } else {
        match find_key(hs.drop_first(), key) {
            Some(i) => Some(i + 1),
            None => None,
        }
    }
}

pub proof fn lemma_find_key_props(hs: Seq<(Seq<char>, Seq<char>)>, key: Seq<char>)
    ensures
        match find_key(hs, key) {
            Some(i) => 0 <= i < hs.len() && hs[i].0 == key && (forall|j: int|
                0 <= j < i ==> hs[j].0 != key),
            None => forall|j: int| 0 <= j < hs.len() ==> hs[j].0 != key,
        },
    decreases hs.len(),
{
    if hs.len() > 0 && hs[0].0 != key {
        let tail = hs.drop_first();
        lemma_find_key_props(tail, key);
        assert(forall|j: int| 0 <= j < tail.len() ==> tail[j] == hs[j + 1]);
        assert(forall|j: int| 1 <= j < hs.len() ==> hs[j] == tail[j - 1]);
    }
}

/// The value of the header with the given key, if one is set.
pub open spec fn header_value(hs: Seq<(Seq<char>, Seq<char>)>, key: Seq<char>) -> Option<
    Seq<char>,
> {
    match find_key(hs, key) {
        Some(i) => Some(hs[i].1),
        None => None,
    }
}

/// Headers after setting `key` to `value`: an existing entry is overwritten
/// in place, a new key is appended at the end.
pub open spec fn set_header_spec(
    hs: Seq<(Seq<char>, Seq<char>)>,
    key: Seq<char>,
    value: Seq<char>,
) -> Seq<(Seq<char>, Seq<char>)> {
    match find_key(hs, key) {
        Some(i) => hs.update(i, (key, value)),
        None => hs.push((key, value)),
    }
}

/// Whatever headers were set before, setting the body always leaves
/// `Content-Length` holding exactly the decimal byte length of the body:
/// this is the header block every `with_body` result carries.
pub proof fn lemma_content_length(hs: Seq<(Seq<char>, Seq<char>)>, body: Seq<char>)
    ensures
        header_value(
            set_header_spec(hs, "Content-Length"@, dec_digits(byte_len(body))),
            "Content-Length"@,
        ) == Some(dec_digits(byte_len(body))),
{
    let key = "Content-Length"@;
    let value = dec_digits(byte_len(body));
    let out = set_header_spec(hs, key, value);
    lemma_find_key_props(hs, key);
    lemma_find_key_props(out, key);
    match find_key(hs, key) {
        Some(i) => {
            assert(out == hs.update(i, (key, value)));
            assert(out[i].0 == key);
            match find_key(out, key) {
                Some(j) => {
                    if j < i {
                        assert(out[j] == hs[j]);
                    }
                    assert(j == i);
                },
                None => {
                    assert(false);
                },
            }
        },
        None => {
            assert(out == hs.push((key, value)));
            assert(out[hs.len() as int].0 == key);
            match find_key(out, key) {
                Some(j) => {
                    if j < hs.len() {
                        assert(out[j] == hs[j]);
                    }
                    assert(j == hs.len());
                },
                None => {
                    assert(false);
                },
            }
        },
    }
}

/// The one header every fresh response carries.
pub open spec fn default_headers() -> Seq<(Seq<char>, Seq<char>)> {
    seq![("Content-Type"@, "text/html"@)]
}

/// Model of a response fresh out of `HttpResponse::new`.
pub open spec fn fresh_model(status: int, text: Seq<char>) -> ResponseModel {
    ResponseModel {
        status,
        status_text: text,
        headers: default_headers(),
        body: Seq::empty(),
    }
}

/// Model of a response fresh out of `HttpResponse::json`.
pub open spec fn json_model(status: int, text: Seq<char>) -> ResponseModel {
    ResponseModel {
        status,
        status_text: text,
        headers: seq![("Content-Type"@, "application/json"@)],
        body: Seq::empty(),
    }
}

/// Byte length of the UTF-8 encoding of `s`; the length of every string a
/// program holds fits in `usize`.
pub open spec fn byte_len(s: Seq<char>) -> nat {
    (encode_utf8(s).len() as usize) as nat
}

/// The header block of the wire form: one `key: value` line per entry, in
/// order, each closed by CRLF.
pub open spec fn serialize_headers(hs: Seq<(Seq<char>, Seq<char>)>) -> Seq<char>
    decreases hs.len(),
{
    if hs.len() == 0 {
        Seq::empty()
    } else {
        serialize_headers(hs.drop_last()) + hs.last().0 + ": "@ + hs.last().1 + crlf()
    }
}

/// The wire form of a response: status line, header block, empty line,
/// body.
pub open spec fn spec_serialize(m: ResponseModel) -> Seq<char> {
    "HTTP/1.1 "@ + dec_digits(m.status as nat) + " "@ + m.status_text + crlf()
        + serialize_headers(m.headers) + crlf() + m.body
}

/// An outgoing response, built by chained `with_` operations and written
/// out once by `to_string`.
pub struct HttpResponse {
    pub status_code: u16,
    pub status_text: String,
    /// Header entries in the order they were set; keys are unique.
    pub headers: Vec<(String, String)>,
    pub body: String,
}

impl View for HttpResponse {
    type V = ResponseModel;

    open spec fn view(&self) -> ResponseModel {
        ResponseModel {
            status: self.status_code as int,
            status_text: self.status_text@,
            headers: self.headers.deep_view(),
            body: self.body@,
        }
    }
}

/// Overwrites the entry with the given key, or appends one.
fn set_header_vec(headers: &mut Vec<(String, String)>, key: String, value: String)
    ensures
        final(headers).deep_view() == set_header_spec(old(headers).deep_view(), key@, value@),
        unique_keys(old(headers).deep_view()) ==> unique_keys(final(headers).deep_view()),
{
    let ghost hdv = old(headers).deep_view();
    let mut idx: usize = 0;
    while idx < headers.len()
        invariant
            idx <= headers@.len(),
            headers == old(headers),
            hdv == headers.deep_view(),
            forall|k: int| 0 <= k < idx ==> hdv[k].0 != key@,
        decreases headers@.len() - idx,
    {
        proof {
            assert(headers[idx as int]@ == hdv[idx as int]);
        }
        if crate::text::str_eq(headers[idx].0.as_str(), key.as_str()) {
            proof {
                lemma_find_key_props(hdv, key@);
                assert(find_key(hdv, key@) == Some(idx as int));
            }
            headers.remove(idx);
            headers.insert(idx, (key, value));
            proof {
                assert(headers.deep_view() =~= hdv.update(idx as int, (key@, value@)));
                assert(unique_keys(hdv) ==> unique_keys(headers.deep_view())) by {
                    if unique_keys(hdv) {
                        assert(forall|i: int, j: int|
                            0 <= i < j < headers.deep_view().len() ==> headers.deep_view()[i].0
                                != headers.deep_view()[j].0) by {
                            assert(hdv[idx as int].0 == key@);
                        }
                    }
                }
            }
            return ;
        }
        idx += 1;
    }
    proof {
        lemma_find_key_props(hdv, key@);
        assert(find_key(hdv, key@) is None);
    }
    headers.push((key, value));
    proof {
        assert(headers.deep_view() =~= hdv.push((key@, value@)));
    }
}

impl HttpResponse {
    /// Every header key occurs once; established by the constructors and
    /// kept by every builder operation.
    pub open spec fn wf(&self) -> bool {
        unique_keys(self@.headers)
    }

    /// A response with the given status line, the default `Content-Type`
    /// header, and an empty body.
    pub fn new(status_code: u16, status_text: &str) -> (r: Self)
        ensures
            r@ == fresh_model(status_code as int, status_text@),
            r.wf(),
    {
        let mut headers: Vec<(String, String)> = Vec::new();
        headers.push((String::from_str("Content-Type"), String::from_str("text/html")));
        let r = HttpResponse {
            status_code,
            status_text: String::from_str(status_text),
            headers,
            body: String::new(),
        };
        proof {
            assert(r@.headers =~= default_headers());
        }
        r
    }

    /// The stock success response.
    pub fn ok() -> (r: Self)
        ensures
            r@ == fresh_model(200, "OK"@),
            r.wf(),
    {
        Self::new(200, "OK")
    }

    /// The stock response for a path with no registered handler.
    pub fn not_found() -> (r: Self)
        ensures
            r@ == fresh_model(404, "NOT FOUND"@),
            r.wf(),
    {
        Self::new(404, "NOT FOUND")
    }

    /// The stock response for a buffer that did not parse.
    pub fn bad_request() -> (r: Self)
        ensures
            r@ == fresh_model(400, "BAD REQUEST"@),
            r.wf(),
    {
        Self::new(400, "BAD REQUEST")
    }

    /// A response whose `Content-Type` announces a JSON body.
    pub fn json(status_code: u16, status_text: &str) -> (r: Self)
        ensures
            r@ == json_model(status_code as int, status_text@),
            r.wf(),
    {
        let response = Self::new(status_code, status_text);
        let r = response.with_header("Content-Type", "application/json");
        proof {
            assert(find_key(default_headers(), "Content-Type"@) == Some(0int));
            assert(r@.headers =~= json_model(status_code as int, status_text@).headers);
        }
        r
    }

    /// Sets the body and recomputes `Content-Length` as the byte length of
    /// the new body.
    pub fn with_body(self, body: String) -> (r: Self)
        ensures
            r@.status == self@.status,
            r@.status_text == self@.status_text,
            r@.body == body@,
            r@.headers == set_header_spec(
                self@.headers,
                "Content-Length"@,
                dec_digits(byte_len(body@)),
            ),
            self.wf() ==> r.wf(),
    {
        let len = body.as_str().len();
        let mut r = self;
        r.body = body;
        set_header_vec(
            &mut r.headers,
            String::from_str("Content-Length"),
            u64_to_dec(len as u64),
        );
        r
    }

    /// Sets an arbitrary header, overwriting an entry with the same key.
    pub fn with_header(self, key: &str, value: &str) -> (r: Self)
        ensures
            r@.status == self@.status,
            r@.status_text == self@.status_text,
            r@.body == self@.body,
            r@.headers == set_header_spec(self@.headers, key@, value@),
            self.wf() ==> r.wf(),
    {
        let mut r = self;
        set_header_vec(&mut r.headers, String::from_str(key), String::from_str(value));
        r
    }

    /// Writes the response in its wire form: status line, header lines in
    /// the order they were set, an empty line, then the body.
    pub fn to_string(&self) -> (r: String)
        ensures
            r@ == spec_serialize(self@),
    {
        let ghost hdv = self.headers.deep_view();
        let mut out = String::from_str("HTTP/1.1 ");
        let code = u64_to_dec(self.status_code as u64);
        out.append(code.as_str());
        out.append(" ");
        out.append(self.status_text.as_str());
        out.append("\r\n");
        proof {
            reveal_strlit("\r\n");
            assert("\r\n"@ =~= crlf());
        }
        let ghost prefix = "HTTP/1.1 "@ + dec_digits(self.status_code as nat) + " "@
            + self.status_text@ + crlf();
        proof {
            assert(out@ =~= prefix);
        }
        let mut h: usize = 0;
        while h < self.headers.len()
            invariant
                h <= self.headers@.len(),
                hdv == self.headers.deep_view(),
                out@ =~= prefix + serialize_headers(hdv.subrange(0, h as int)),
            decreases self.headers@.len() - h,
        {
            proof {
                assert(self.headers[h as int]@ == hdv[h as int]);
            }
            let pair = &self.headers[h];
            out.append(pair.0.as_str());
            out.append(": ");
            out.append(pair.1.as_str());
            out.append("\r\n");
            proof {
                reveal_strlit("\r\n");
                assert("\r\n"@ =~= crlf());
                assert(hdv.subrange(0, h + 1).drop_last() =~= hdv.subrange(0, h as int));
                assert(hdv.subrange(0, h + 1).last() == hdv[h as int]);
                assert(out@ =~= prefix + serialize_headers(hdv.subrange(0, h + 1)));
            }
            h += 1;
        }
        out.append("\r\n");
        out.append(self.body.as_str());
        proof {
            reveal_strlit("\r\n");
            assert("\r\n"@ =~= crlf());
            assert(hdv.subrange(0, hdv.len() as int) =~= hdv);
            assert(out@ =~= spec_serialize(self@));
        }
        out
    }
}

} // verus!
