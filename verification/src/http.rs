//! The request side of the wire protocol: the method enumeration, the
//! structured request, and the parser that turns one raw buffer into a
//! request or a parse failure.
use crate::text::{
    crlf, find_char, find_char_exec, is_space, join_crlf, join_crlf_from, lemma_find_char_first,
    lemma_find_char_some, lemma_join_split_crlf, lemma_split_crlf_prepend, lemma_split_ws_space,
    lemma_split_ws_token, lower, lower_exec, no_char, no_crlf_pair, no_ws, split_crlf,
    split_crlf_exec, split_ws, split_ws_exec, str_eq, trim, trim_exec,
};
use vstd::prelude::*;

verus! {

/// The four request methods the server recognizes; any other token fails
/// parsing with `ParseError::UnknownMethod`.
#[derive(Clone, Copy, Debug, PartialEq, Eq, Hash, Structural)]
pub enum HttpMethod {
    GET,
    POST,
    PUT,
    DELETE,
}

/// Why a buffer failed to parse as a request.
#[derive(Clone, Copy, Debug, PartialEq, Eq, Structural)]
pub enum ParseError {
    /// The first line did not consist of exactly three whitespace-separated
    /// tokens.
    MalformedRequestLine,
    /// The method token is not one of the recognized methods.
    UnknownMethod,
}

/// The method named by a request-line token, if recognized.
pub open spec fn parse_method(t: Seq<char>) -> Option<HttpMethod> {
    if t == "GET"@ {
        Some(HttpMethod::GET)
    } else if t == "POST"@ {
        Some(HttpMethod::POST)
    } else if t == "PUT"@ {
        Some(HttpMethod::PUT)
    } else if t == "DELETE"@ {
        Some(HttpMethod::DELETE)
    } else {
        None
    }
}

impl HttpMethod {
    /// Recognizes one of the four method tokens, written in upper case.
    pub fn from_str(method: &str) -> (r: Option<HttpMethod>)
        ensures
            r == parse_method(method@),
    {
        if str_eq(method, "GET") {
            Some(HttpMethod::GET)
        } else if str_eq(method, "POST") {
            Some(HttpMethod::POST)
        } else if str_eq(method, "PUT") {
            Some(HttpMethod::PUT)
        } else if str_eq(method, "DELETE") {
            Some(HttpMethod::DELETE)
        } else {
            None
        }
    }
}

/// Mathematical content of a request: what the parser promises to deliver.
pub ghost struct RequestModel {
    pub method: HttpMethod,
    pub path: Seq<char>,
    pub headers: Map<Seq<char>, Seq<char>>,
    pub body: Seq<char>,
}

/// The header mapping described by a sequence of key/value entries, where a
/// later entry for the same key wins.
pub open spec fn assoc_map(entries: Seq<(Seq<char>, Seq<char>)>) -> Map<Seq<char>, Seq<char>>
    decreases entries.len(),
{
    if entries.len() == 0 {
        Map::empty()
    } else {
        assoc_map(entries.drop_last()).insert(entries.last().0, entries.last().1)
    }
}

/// The header key/value named by one header line: the text before the first
/// colon, trimmed and case-folded, and the text after it, trimmed. A line
/// without a colon names no header.
pub open spec fn header_entry(line: Seq<char>) -> Option<(Seq<char>, Seq<char>)> {
    match find_char(line, ':') {
        None => None,
        Some(i) => Some(
            (lower(trim(line.subrange(0, i))), trim(line.subrange(i + 1, line.len() as int))),
        ),
    }
}

/// Index of the first empty line at or after `i`, if any: the boundary
/// between the header block and the body.
pub open spec fn first_blank(lines: Seq<Seq<char>>, i: int) -> Option<int>
    decreases lines.len() - i,
{
    if i >= lines.len() {
        None
    } else if lines[i].len() == 0 {
        Some(i)
    } else {
        first_blank(lines, i + 1)
    }
}

pub proof fn lemma_first_blank_some(lines: Seq<Seq<char>>, i: int)
    ensures
        first_blank(lines, i) matches Some(b) ==> i <= b < lines.len() && lines[b].len() == 0,
    decreases lines.len() - i,
{
    if i < lines.len() && lines[i].len() != 0 {
        lemma_first_blank_some(lines, i + 1);
    }
}

/// The header mapping collected from `lines[i..end]`, folded onto `acc` in
/// order, so that a later line for the same key wins.
pub open spec fn headers_from(
    lines: Seq<Seq<char>>,
    i: int,
    end: int,
    acc: Map<Seq<char>, Seq<char>>,
) -> Map<Seq<char>, Seq<char>>
    decreases end - i,
{
    if i >= end {
        acc
    } else {
        let next = match header_entry(lines[i]) {
            Some(kv) => acc.insert(kv.0, kv.1),
            None => acc,
        };
        headers_from(lines, i + 1, end, next)
    }
}

/// Index one past the header block: the first empty line after the request
/// line, or the end of the buffer when there is none.
pub open spec fn spec_header_end(lines: Seq<Seq<char>>) -> int {
    match first_blank(lines, 1) {
        Some(b) => b,
        None => lines.len() as int,
    }
}

/// The header mapping of a split request buffer.
pub open spec fn spec_headers(lines: Seq<Seq<char>>) -> Map<Seq<char>, Seq<char>> {
    headers_from(lines, 1, spec_header_end(lines), Map::empty())
}

/// The body of a split request buffer: everything after the first empty
/// line, rejoined with CRLF; empty when no empty line separates the headers
/// from a body.
pub open spec fn spec_body(lines: Seq<Seq<char>>) -> Seq<char> {
    match first_blank(lines, 1) {
        None => Seq::empty(),
        Some(b) => join_crlf(lines.subrange(b + 1, lines.len() as int)),
    }
}

/// What `HttpRequest::parse` returns on a buffer, stated over the buffer's
/// character sequence.
pub open spec fn spec_parse(s: Seq<char>) -> Result<RequestModel, ParseError> {
    let lines = split_crlf(s);
    let parts = split_ws(lines[0]);
    if parts.len() != 3 {
        Err(ParseError::MalformedRequestLine)
    } else {
        match parse_method(parts[0]) {
            None => Err(ParseError::UnknownMethod),
            Some(m) => Ok(
                RequestModel {
                    method: m,
                    path: parts[1],
                    headers: spec_headers(lines),
                    body: spec_body(lines),
                },
            ),
        }
    }
}

/// The request-line token of each method.
pub open spec fn method_token(m: HttpMethod) -> Seq<char> {
    match m {
        HttpMethod::GET => "GET"@,
        HttpMethod::POST => "POST"@,
        HttpMethod::PUT => "PUT"@,
        HttpMethod::DELETE => "DELETE"@,
    }
}

pub proof fn lemma_method_token(m: HttpMethod)
    ensures
        parse_method(method_token(m)) == Some(m),
        method_token(m).len() > 0,
        no_ws(method_token(m)),
{
    broadcast use vstd::string::group_string_axioms;

    reveal_strlit("GET");
    reveal_strlit("POST");
    reveal_strlit("PUT");
    reveal_strlit("DELETE");
    match m {
        HttpMethod::GET => {
            assert(method_token(m) == "GET"@);
        },
        HttpMethod::POST => {
            assert("POST"@.len() == 4 && "GET"@.len() == 3);
            assert("POST"@[1] == 'O' && "PUT"@[1] == 'U');
        },
        HttpMethod::PUT => {
            assert("PUT"@[0] == 'P' && "GET"@[0] == 'G');
        },
        HttpMethod::DELETE => {
            assert("DELETE"@.len() == 6);
        },
    }
}

/// A buffer whose first line does not split into exactly three
/// whitespace-separated tokens parses to `MalformedRequestLine`.
pub proof fn lemma_parse_malformed(s: Seq<char>)
    requires
        split_ws(split_crlf(s)[0]).len() != 3,
    ensures
        spec_parse(s) == Err::<RequestModel, ParseError>(ParseError::MalformedRequestLine),
{
}

/// A buffer whose first line has three tokens, the first of which is not a
/// recognized method, parses to `UnknownMethod`.
pub proof fn lemma_parse_unknown_method(s: Seq<char>)
    requires
        split_ws(split_crlf(s)[0]).len() == 3,
        parse_method(split_ws(split_crlf(s)[0])[0]) is None,
    ensures
        spec_parse(s) == Err::<RequestModel, ParseError>(ParseError::UnknownMethod),
{
}

/// Header keys fold to lower case before they are stored, so two header
/// lines whose raw keys fold to the same key — for instance keys differing
/// only in case — collapse to a single entry, and the later line's value
/// wins.
pub proof fn lemma_header_case_collapse(
    reqline: Seq<char>,
    k1: Seq<char>,
    v1: Seq<char>,
    k2: Seq<char>,
    v2: Seq<char>,
)
    requires
        no_char(k1, ':'),
        no_char(k2, ':'),
        lower(trim(k1)) == lower(trim(k2)),
    ensures
        spec_headers(
            seq![reqline, k1 + seq![':'] + v1, k2 + seq![':'] + v2, Seq::<char>::empty()],
        ) == Map::<Seq<char>, Seq<char>>::empty().insert(lower(trim(k2)), trim(v2)),
{
    let l1 = k1 + seq![':'] + v1;
    let l2 = k2 + seq![':'] + v2;
    let lines = seq![reqline, l1, l2, Seq::<char>::empty()];
    lemma_find_char_first(k1, ':', v1);
    lemma_find_char_first(k2, ':', v2);
    assert(l1.subrange(0, k1.len() as int) =~= k1);
    assert(l1.subrange(k1.len() as int + 1, l1.len() as int) =~= v1);
    assert(l2.subrange(0, k2.len() as int) =~= k2);
    assert(l2.subrange(k2.len() as int + 1, l2.len() as int) =~= v2);
    assert(header_entry(l1) == Some((lower(trim(k1)), trim(v1))));
    assert(header_entry(l2) == Some((lower(trim(k2)), trim(v2))));
    assert(l1.len() > 0);
    assert(l2.len() > 0);
    assert(first_blank(lines, 3) == Some(3int));
    assert(first_blank(lines, 2) == Some(3int));
    assert(first_blank(lines, 1) == Some(3int));
    assert(spec_header_end(lines) == 3);
    let m0 = Map::<Seq<char>, Seq<char>>::empty();
    let m1 = m0.insert(lower(trim(k1)), trim(v1));
    let m2 = m1.insert(lower(trim(k2)), trim(v2));
    assert(headers_from(lines, 1, 3, m0) == headers_from(lines, 2, 3, m1));
    assert(headers_from(lines, 2, 3, m1) == headers_from(lines, 3, 3, m2));
    assert(m2 =~= m0.insert(lower(trim(k2)), trim(v2)));
}

/// A well-formed message — request line, one header line, an empty line,
/// then the body — parses to exactly its parts: the method, the path, one
/// folded header, and the body unchanged.
pub proof fn lemma_parse_well_formed(
    m: HttpMethod,
    path: Seq<char>,
    version: Seq<char>,
    rawkey: Seq<char>,
    rawval: Seq<char>,
    body: Seq<char>,
)
    requires
        path.len() > 0,
        no_ws(path),
        version.len() > 0,
        no_ws(version),
        no_char(rawkey, ':'),
        no_crlf_pair(rawkey),
        no_crlf_pair(rawval),
    ensures
        spec_parse(
            method_token(m) + seq![' '] + path + seq![' '] + version + crlf() + rawkey + seq![':']
                + rawval + crlf() + crlf() + body,
        ) == Ok::<RequestModel, ParseError>(
            RequestModel {
                method: m,
                path: path,
                headers: Map::<Seq<char>, Seq<char>>::empty().insert(
                    lower(trim(rawkey)),
                    trim(rawval),
                ),
                body: body,
            },
        ),
{
    lemma_method_token(m);
    let tok = method_token(m);
    let line0 = tok + seq![' '] + path + seq![' '] + version;
    let hline = rawkey + seq![':'] + rawval;
    let input = method_token(m) + seq![' '] + path + seq![' '] + version + crlf() + rawkey
        + seq![':'] + rawval + crlf() + crlf() + body;
    let tl = tok.len() as int;
    let pl = path.len() as int;
    let kl = rawkey.len() as int;

    assert forall|i: int| 0 <= i < line0.len() implies (#[trigger] line0[i]) != '\r' by {
        if i < tl {
            assert(line0[i] == tok[i]);
            assert(!is_space(tok[i]));
        } else if i == tl {
            assert(line0[i] == ' ');
        } else if i < tl + 1 + pl {
            assert(line0[i] == path[i - tl - 1]);
            assert(!is_space(path[i - tl - 1]));
        } else if i == tl + 1 + pl {
            assert(line0[i] == ' ');
        } else {
            assert(line0[i] == version[i - tl - pl - 2]);
            assert(!is_space(version[i - tl - pl - 2]));
        }
    }
    assert(no_crlf_pair(line0));

    assert forall|i: int| 0 <= i < hline.len() - 1 implies !((#[trigger] hline[i]) == '\r'
        && hline[i + 1] == '\n') by {
        if i < kl - 1 {
            assert(hline[i] == rawkey[i]);
            assert(hline[i + 1] == rawkey[i + 1]);
        } else if i == kl - 1 {
            assert(hline[i + 1] == ':');
        } else if i == kl {
            assert(hline[i] == ':');
        } else {
            assert(hline[i] == rawval[i - kl - 1]);
            assert(hline[i + 1] == rawval[i - kl]);
        }
    }
    assert(no_crlf_pair(hline));

    let rest1 = hline + crlf() + (Seq::<char>::empty() + crlf() + body);
    assert(input =~= line0 + crlf() + rest1);
    lemma_split_crlf_prepend(line0, rest1);
    lemma_split_crlf_prepend(hline, Seq::<char>::empty() + crlf() + body);
    lemma_split_crlf_prepend(Seq::<char>::empty(), body);
    let lines = split_crlf(input);
    assert(lines =~= seq![line0, hline, Seq::<char>::empty()] + split_crlf(body));
    assert(lines[0] == line0);
    assert(lines[1] == hline);
    assert(lines[2] =~= Seq::<char>::empty());

    let r1 = seq![' '] + path + seq![' '] + version;
    assert(line0 =~= tok + r1);
    assert(r1[0] == ' ');
    lemma_split_ws_token(tok, r1);
    assert(r1 =~= seq![' '] + (path + seq![' '] + version));
    lemma_split_ws_space(path + seq![' '] + version);
    let r2 = seq![' '] + version;
    assert(r2[0] == ' ');
    assert(path + seq![' '] + version =~= path + r2);
    lemma_split_ws_token(path, r2);
    lemma_split_ws_space(version);
    assert(version =~= version + Seq::<char>::empty());
    lemma_split_ws_token(version, Seq::<char>::empty());
    assert(split_ws(Seq::<char>::empty()) =~= Seq::<Seq<char>>::empty());
    let parts = split_ws(lines[0]);
    assert(parts =~= seq![tok, path, version]);
    assert(parts.len() == 3);
    assert(parse_method(parts[0]) == Some(m));

    assert(hline.len() > 0);
    assert(first_blank(lines, 2) == Some(2int));
    assert(first_blank(lines, 1) == Some(2int));
    assert(spec_header_end(lines) == 2);
    lemma_find_char_first(rawkey, ':', rawval);
    assert(find_char(hline, ':') == Some(kl));
    assert(hline.subrange(0, kl) =~= rawkey);
    assert(hline.subrange(kl + 1, hline.len() as int) =~= rawval);
    assert(header_entry(hline) == Some((lower(trim(rawkey)), trim(rawval))));
    let m0 = Map::<Seq<char>, Seq<char>>::empty();
    let m1 = m0.insert(lower(trim(rawkey)), trim(rawval));
    assert(headers_from(lines, 1, 2, m0) == headers_from(lines, 2, 2, m1));
    assert(spec_headers(lines) == m1);

    assert(lines.subrange(3, lines.len() as int) =~= split_crlf(body));
    lemma_join_split_crlf(body);
    assert(spec_body(lines) == body);
}

/// A parsed request. Constructed only by `parse`; immutable afterwards.
#[derive(Debug)]
pub struct HttpRequest {
    pub method: HttpMethod,
    pub path: String,
    /// Header entries in the order the parser met them; the view collapses
    /// them to a mapping in which a later entry for the same key wins.
    pub headers: Vec<(String, String)>,
    pub body: String,
}

impl View for HttpRequest {
    type V = RequestModel;

    open spec fn view(&self) -> RequestModel {
        RequestModel {
            method: self.method,
            path: self.path@,
            headers: assoc_map(self.headers.deep_view()),
            body: self.body@,
        }
    }
}

proof fn lemma_assoc_suffix_free(entries: Seq<(Seq<char>, Seq<char>)>, i: int, key: Seq<char>)
    requires
        0 <= i <= entries.len(),
        forall|k: int| i <= k < entries.len() ==> entries[k].0 != key,
    ensures
        assoc_map(entries).contains_key(key) == assoc_map(entries.subrange(0, i)).contains_key(
            key,
        ),
        assoc_map(entries).contains_key(key) ==> assoc_map(entries)[key] == assoc_map(
            entries.subrange(0, i),
        )[key],
    decreases entries.len(),
{
    if i == entries.len() {
        assert(entries.subrange(0, i) =~= entries);
    } else {
        assert(entries.len() > 0);
        lemma_assoc_suffix_free(entries.drop_last(), i, key);
        assert(entries.drop_last().subrange(0, i) =~= entries.subrange(0, i));
    }
}

impl HttpRequest {
    /// Parses one raw buffer: a request line of exactly three
    /// whitespace-separated tokens, then header lines up to the first empty
    /// line, then the body.
    pub fn parse(request: &str) -> (r: Result<HttpRequest, ParseError>)
        ensures
            (r is Ok) == (spec_parse(request@) is Ok),
            r matches Ok(req) ==> Ok::<RequestModel, ParseError>(req@) == spec_parse(request@),
            r matches Err(e) ==> Err::<RequestModel, ParseError>(e) == spec_parse(request@),
    {
        let lines = split_crlf_exec(request);
        let ghost ldv = lines.deep_view();
        proof {
            assert(ldv.len() == lines@.len());
            assert(ldv.len() >= 1);
        }
        let parts = split_ws_exec(lines[0].as_str());
        let ghost pdv = parts.deep_view();
        proof {
            assert(pdv.len() == parts@.len());
            assert(lines[0]@ == ldv[0]);
            assert(pdv == split_ws(ldv[0]));
        }
        if parts.len() != 3 {
            return Err(ParseError::MalformedRequestLine);
        }
        proof {
            assert(parts[0]@ == pdv[0]);
        }
        let method = match HttpMethod::from_str(parts[0].as_str()) {
            Some(m) => m,
            None => {
                return Err(ParseError::UnknownMethod);
            },
        };
        let path = parts[1].clone();
        let mut headers: Vec<(String, String)> = Vec::new();
        let ghost end = spec_header_end(ldv);
        proof {
            lemma_first_blank_some(ldv, 1);
        }
        let mut i: usize = 1;
        while i < lines.len() && lines[i].as_str().unicode_len() != 0
            invariant
                1 <= i <= lines@.len(),
                ldv == lines.deep_view(),
                ldv == split_crlf(request@),
                end == spec_header_end(ldv),
                first_blank(ldv, 1) == first_blank(ldv, i as int),
                i <= end <= ldv.len(),
                spec_headers(ldv) == headers_from(ldv, i as int, end, assoc_map(
                    headers.deep_view(),
                )),
            decreases lines@.len() - i,
        {
            proof {
                assert(lines[i as int]@ == ldv[i as int]);
                lemma_first_blank_some(ldv, i as int);
                assert(i < end);
            }
            let ghost old_headers = headers.deep_view();
            let line = &lines[i];
            match find_char_exec(line.as_str(), ':') {
                Some(ci) => {
                    proof {
                        lemma_find_char_some(ldv[i as int], ':');
                    }
                    let llen = line.as_str().unicode_len();
                    let key = lower_exec(trim_exec(line.as_str().substring_char(0, ci)));
                    let value = String::from_str(trim_exec(
                        line.as_str().substring_char(ci + 1, llen),
                    ));
                    headers.push((key, value));
                    proof {
                        assert(headers.deep_view().drop_last() =~= old_headers);
                        assert(headers.deep_view().last() == (key@, value@));
                        assert(header_entry(ldv[i as int]) == Some((key@, value@)));
                        assert(assoc_map(headers.deep_view()) == assoc_map(old_headers).insert(
                            key@,
                            value@,
                        ));
                    }
                },
                None => {},
            }
            i += 1;
        }
        let body = if i < lines.len() {
            proof {
                assert(lines[i as int]@ == ldv[i as int]);
                assert(first_blank(ldv, i as int) == Some(i as int));
                assert(end == i);
            }
            join_crlf_from(&lines, i + 1)
        } else {
            proof {
                assert(first_blank(ldv, i as int) is None);
                assert(end == ldv.len());
            }
            String::new()
        };
        let req = HttpRequest { method, path, headers, body };
        proof {
            assert(spec_headers(ldv) == assoc_map(req.headers.deep_view()));
            assert(req.body@ == spec_body(ldv));
            assert(req@ == spec_parse(request@)->Ok_0);
        }
        Ok(req)
    }

    /// Looks a header up by its exact key; the parser stores keys already
    /// case-folded, so lookups use the folded form.
    pub fn header(&self, name: &str) -> (r: Option<&String>)
        ensures
            match r {
                Some(v) => self@.headers.contains_key(name@) && v@ == self@.headers[name@],
                None => !self@.headers.contains_key(name@),
            },
    {
        let ghost hdv = self.headers.deep_view();
        let mut idx: usize = self.headers.len();
        proof {
            assert(hdv.len() == self.headers@.len());
        }
        while idx > 0
            invariant
                idx <= self.headers@.len(),
                hdv == self.headers.deep_view(),
                forall|k: int| idx <= k < hdv.len() ==> hdv[k].0 != name@,
            decreases idx,
        {
            proof {
                assert(self.headers[idx - 1]@ == hdv[idx - 1]);
            }
            let pair = &self.headers[idx - 1];
            if str_eq(pair.0.as_str(), name) {
                proof {
                    lemma_assoc_suffix_free(hdv, idx as int, name@);
                    assert(hdv.subrange(0, idx as int).drop_last() =~= hdv.subrange(
                        0,
                        idx - 1,
                    ));
                    assert(hdv.subrange(0, idx as int).last() == hdv[idx - 1]);
                }
                return Some(&pair.1);
            }
            idx -= 1;
        }
        proof {
            lemma_assoc_suffix_free(hdv, 0, name@);
            assert(hdv.subrange(0, 0) =~= Seq::<(Seq<char>, Seq<char>)>::empty());
        }
        None
    }
}

} // verus!
