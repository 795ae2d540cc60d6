use vstd::prelude::*;

use crate::text::{
    ci_eq, find_char, find_char_from, parse_usize, spec_lines, spec_parse_usize, spec_tokens,
    spec_trim, split_lines, split_tokens, str_eq, str_eq_ignore_case, str_starts_with, trim,
};

verus! {

/// Why a request was rejected: the request line does not have exactly three
/// tokens (or is missing), the method is not on the whitelist, the version
/// token does not begin with `HTTP/`, a header line has no colon, the
/// `Content-Length` value is not a number that fits the machine word, a
/// positive `Content-Length` is declared but no body byte arrived, or the
/// header block never reached its terminating blank line.
#[derive(Clone, Copy, Debug, PartialEq, Eq, Structural)]
pub enum ValidationError {
    BadRequestLine,
    BadMethod,
    BadVersion,
    BadHeader,
    BadContentLength,
    MissingBody,
    UnterminatedHeaders,
}

/// A validated request head: the three request-line tokens, the header
/// name/value pairs in arrival order, the parsed `Content-Length` if one was
/// declared, and the body text that followed the blank line.
pub struct HttpRequest {
    pub method: String,
    pub path: String,
    pub version: String,
    pub headers: Vec<(String, String)>,
    pub content_length: Option<usize>,
    pub body: String,
}

/// The ghost shape of a validated request.
pub struct ReqModel {
    pub method: Seq<char>,
    pub path: Seq<char>,
    pub version: Seq<char>,
    pub headers: Seq<(Seq<char>, Seq<char>)>,
    pub content_length: Option<int>,
    pub body: Seq<char>,
}

/// The fixed whitelist of request methods.
pub open spec fn is_method_tok(t: Seq<char>) -> bool {
    ||| t == "GET"@
    ||| t == "POST"@
    ||| t == "PUT"@
    ||| t == "DELETE"@
    ||| t == "HEAD"@
    ||| t == "OPTIONS"@
    ||| t == "PATCH"@
}

/// A version token must begin with the literal prefix `HTTP/`.
pub open spec fn is_version_tok(t: Seq<char>) -> bool {
    t.len() >= 5 && t.subrange(0, 5) == "HTTP/"@
}

/// The header pair a line yields: the line is trimmed, split at its first
/// colon, and both halves are trimmed; a line with no colon yields nothing.
pub open spec fn spec_header_pair(l: Seq<char>) -> Option<(Seq<char>, Seq<char>)> {
    let t = spec_trim(l);
    let j = find_char_from(t, ':', 0);
    if j == -1 {
        None
    } else {
        Some((spec_trim(t.subrange(0, j)), spec_trim(t.subrange(j + 1, t.len() as int))))
    }
}

/// The header section read from line `i` on: pairs accumulate until the
/// empty line that terminates the header block, whose index is returned with
/// them; a line that is not empty and has no colon — a line of blanks among
/// them — is malformed, and running out of lines means the header block was
/// never terminated.
pub open spec fn spec_headers(ls: Seq<Seq<char>>, i: int) -> Result<
    (Seq<(Seq<char>, Seq<char>)>, int),
    ValidationError,
>
    decreases ls.len() - i,
{
    if i < 0 || i >= ls.len() {
        Err(ValidationError::UnterminatedHeaders)
    } else if ls[i].len() == 0 {
        Ok((Seq::empty(), i))
    } else {
        match spec_header_pair(ls[i]) {
            None => Err(ValidationError::BadHeader),
            Some(p) => match spec_headers(ls, i + 1) {
                Err(e) => Err(e),
                Ok((rest, end)) => Ok((seq![p] + rest, end)),
            },
        }
    }
}

/// First header whose name equals `name` up to ASCII case, at or after `i`,
/// or `-1`.
pub open spec fn find_header(
    hs: Seq<(Seq<char>, Seq<char>)>,
    name: Seq<char>,
    i: int,
) -> int
    decreases hs.len() - i,
{
    if i < 0 || i >= hs.len() {
        -1
    } else if ci_eq(hs[i].0, name) {
        i
    } else {
        find_header(hs, name, i + 1)
    }
}

/// The lines from `k` on, joined with a line feed between them.
pub open spec fn join_from(ls: Seq<Seq<char>>, k: int) -> Seq<char>
    decreases ls.len() - k,
{
    if k < 0 || k >= ls.len() {
        Seq::empty()
    } else if k == ls.len() - 1 {
        ls[k]
    } else {
        ls[k] + seq!['\n'] + join_from(ls, k + 1)
    }
}

/// What validating `s` yields. The first line must hold exactly three
/// whitespace-separated tokens — a whitelisted method, the target path, and a
/// version beginning with `HTTP/`; each following line up to the blank line
/// must be a `name: value` header; a declared `Content-Length` must parse as
/// an unsigned number, and when it is positive at least one body character
/// must follow the blank line. The first failure, in this order, names the
/// error.
pub open spec fn spec_validate(s: Seq<char>) -> Result<ReqModel, ValidationError> {
    let ls = spec_lines(s);
    if ls.len() == 0 {
        Err(ValidationError::BadRequestLine)
    } else {
        let toks = spec_tokens(ls[0]);
        if toks.len() != 3 {
            Err(ValidationError::BadRequestLine)
        } else if !is_method_tok(toks[0]) {
            Err(ValidationError::BadMethod)
        } else if !is_version_tok(toks[2]) {
            Err(ValidationError::BadVersion)
        } else {
            match spec_headers(ls, 1) {
                Err(e) => Err(e),
                Ok((hs, end)) => {
                    let body = join_from(ls, end + 1);
                    let p = find_header(hs, "Content-Length"@, 0);
                    if p == -1 {
                        Ok(
                            ReqModel {
                                method: toks[0],
                                path: toks[1],
                                version: toks[2],
                                headers: hs,
                                content_length: None,
                                body,
                            },
                        )
                    } else {
                        match spec_parse_usize(hs[p].1) {
                            None => Err(ValidationError::BadContentLength),
                            Some(v) => if v > 0 && body.len() == 0 {
                                Err(ValidationError::MissingBody)
                            } else {
                                Ok(
                                    ReqModel {
                                        method: toks[0],
                                        path: toks[1],
                                        version: toks[2],
                                        headers: hs,
                                        content_length: Some(v),
                                        body,
                                    },
                                )
                            },
                        }
                    }
                },
            }
        }
    }
}

impl HttpRequest {
    /// The request agrees with the ghost model field for field.
    pub open spec fn matches_model(&self, m: ReqModel) -> bool {
        &&& self.method@ == m.method
        &&& self.path@ == m.path
        &&& self.version@ == m.version
        &&& self.headers.deep_view() == m.headers
        &&& (match (self.content_length, m.content_length) {
            (Some(a), Some(b)) => a as int == b,
            (None, None) => true,
            _ => false,
        })
        &&& self.body@ == m.body
    }
}

fn is_known_method(m: &str) -> (r: bool)
    ensures
        r == is_method_tok(m@),
{
    str_eq(m, "GET") || str_eq(m, "POST") || str_eq(m, "PUT") || str_eq(m, "DELETE") || str_eq(
        m,
        "HEAD",
    ) || str_eq(m, "OPTIONS") || str_eq(m, "PATCH")
}

/// The loop relation of `collect_headers`: the pairs gathered so far,
/// followed by whatever the header section yields from line `i` on, are what
/// the whole header section yields.
spec fn headers_rel(ls: Seq<Seq<char>>, i: int, acc: Seq<(Seq<char>, Seq<char>)>) -> bool {
    match spec_headers(ls, i) {
        Ok((rest, end)) => spec_headers(ls, 1) == Ok::<_, ValidationError>((acc + rest, end)),
        Err(e) => spec_headers(ls, 1) == Err::<(Seq<(Seq<char>, Seq<char>)>, int), _>(e),
    }
}

fn collect_headers(lines: &Vec<String>) -> (r: Result<
    (Vec<(String, String)>, usize),
    ValidationError,
>)
    requires
        lines@.len() >= 1,
    ensures
        ({
            match spec_headers(lines.deep_view(), 1) {
                Ok((hs, end)) => r matches Ok(p) && p.0.deep_view() == hs && p.1 as int == end
                    && (p.1 as int) < lines@.len(),
                Err(err) => r matches Err(e2) && e2 == err,
            }
        }),
{
    let ghost ls = lines.deep_view();
    let n = lines.len();
    let mut acc: Vec<(String, String)> = Vec::new();
    let mut i: usize = 1;
    proof {
        assert(acc.deep_view() =~= Seq::<(Seq<char>, Seq<char>)>::empty());
    }
    while i < n
        invariant
            1 <= i <= n,
            n == ls.len(),
            ls == lines.deep_view(),
            headers_rel(ls, i as int, acc.deep_view()),
        decreases n - i,
    {
        proof {
            assert(lines@[i as int]@ == ls[i as int]);
        }
        if lines[i].as_str().is_empty() {
            proof {
                assert(acc.deep_view() + Seq::<(Seq<char>, Seq<char>)>::empty()
                    =~= acc.deep_view());
            }
            return Ok((acc, i));
        }
        let t = trim(lines[i].as_str());
        let tn = t.as_str().unicode_len();
        match find_char(t.as_str(), ':') {
            None => {
                return Err(ValidationError::BadHeader);
            },
            Some(j) => {
                let name = trim(t.as_str().substring_char(0, j));
                let value = trim(t.as_str().substring_char(j + 1, tn));
                let ghost prev = acc.deep_view();
                acc.push((name, value));
                proof {
                    let p = spec_header_pair(ls[i as int]);
                    assert(acc.deep_view() =~= prev.push(p->Some_0));
                    if let Ok((rest, end)) = spec_headers(ls, i as int + 1) {
                        assert(prev + (seq![p->Some_0] + rest) =~= acc.deep_view() + rest);
                    }
                }
                i += 1;
            },
        }
    }
    Err(ValidationError::UnterminatedHeaders)
}

/// Index of the first header named `name` up to ASCII case, if any.
fn header_lookup(headers: &Vec<(String, String)>, name: &str) -> (r: Option<usize>)
    ensures
        ({
            let f = find_header(headers.deep_view(), name@, 0);
            if f == -1 {
                r is None
            } else {
                r matches Some(k) && k as int == f && f < headers@.len()
            }
        }),
{
    let n = headers.len();
    let mut k: usize = 0;
    while k < n
        invariant
            k <= n,
            n == headers@.len(),
            find_header(headers.deep_view(), name@, 0) == find_header(
                headers.deep_view(),
                name@,
                k as int,
            ),
        decreases n - k,
    {
        proof {
            assert(headers.deep_view()[k as int].0 == headers@[k as int].0@);
        }
        if str_eq_ignore_case(headers[k].0.as_str(), name) {
            return Some(k);
        }
        k += 1;
    }
    None
}

/// The lines from `start` on, joined with a line feed between them.
fn join_body(lines: &Vec<String>, start: usize) -> (r: String)
    ensures
        r@ == join_from(lines.deep_view(), start as int),
{
    let ghost ls = lines.deep_view();
    let n = lines.len();
    let mut out = String::new();
    let mut k: usize = start;
    while k < n
        invariant
            start <= k,
            k <= n || k == start,
            n == ls.len(),
            ls == lines.deep_view(),
            out@ + join_from(ls, k as int) == join_from(ls, start as int),
        decreases n - k,
    {
        proof {
            assert(lines@[k as int]@ == ls[k as int]);
        }
        out.append(lines[k].as_str());
        if k + 1 < n {
            out.append("\n");
            proof {
                reveal_strlit("\n");
                assert("\n"@ =~= seq!['\n']);
            }
        }
        k += 1;
    }
    proof {
        assert(out@ + join_from(ls, k as int) == join_from(ls, start as int));
        assert(out@ + Seq::<char>::empty() =~= out@);
    }
    out
}

/// Validates a whole request read from a client — request line, header
/// section and body presence — and returns its parsed head, or says exactly
/// why it is rejected.
pub fn parse_request(data: &str) -> (r: Result<HttpRequest, ValidationError>)
    ensures
        ({
            match spec_validate(data@) {
                Ok(m) => r matches Ok(req) && req.matches_model(m),
                Err(e) => r matches Err(e2) && e2 == e,
            }
        }),
{
    let lines = split_lines(data);
    let ghost ls = lines.deep_view();
    if lines.len() == 0 {
        return Err(ValidationError::BadRequestLine);
    }
    proof {
        assert(lines@[0]@ == ls[0]);
    }
    let toks = split_tokens(lines[0].as_str());
    let ghost tks = toks.deep_view();
    if toks.len() != 3 {
        return Err(ValidationError::BadRequestLine);
    }
    proof {
        assert(toks@[0]@ == tks[0]);
        assert(toks@[1]@ == tks[1]);
        assert(toks@[2]@ == tks[2]);
    }
    if !is_known_method(toks[0].as_str()) {
        return Err(ValidationError::BadMethod);
    }
    proof {
        reveal_strlit("HTTP/");
    }
    if !str_starts_with(toks[2].as_str(), "HTTP/") {
        return Err(ValidationError::BadVersion);
    }
    let collected = match collect_headers(&lines) {
        Err(e) => {
            return Err(e);
        },
        Ok(p) => p,
    };
    let headers = collected.0;
    let end = collected.1;
    let body = join_body(&lines, end + 1);
    let mut content_length: Option<usize> = None;
    match header_lookup(&headers, "Content-Length") {
        None => {},
        Some(k) => {
            proof {
                assert(headers.deep_view()[k as int].1 == headers@[k as int].1@);
            }
            match parse_usize(headers[k].1.as_str()) {
                None => {
                    return Err(ValidationError::BadContentLength);
                },
                Some(v) => {
                    if v > 0 && body.as_str().is_empty() {
                        return Err(ValidationError::MissingBody);
                    }
                    content_length = Some(v);
                },
            }
        },
    }
    let method = toks[0].clone();
    let path = toks[1].clone();
    let version = toks[2].clone();
    Ok(HttpRequest { method, path, version, headers, content_length, body })
}

} // verus!
