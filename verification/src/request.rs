//! HTTP/1.1 request formatting.
//!
//! A request is one string: the request line, a fixed set of headers in a
//! fixed order, for `POST`/`PUT` the caller's extra headers (or a default
//! `Content-Type`) and, when a body is given, a `Content-Length` header
//! followed by a blank line, the body and a line terminator.  The whole
//! request always ends with one more blank line.

use vstd::prelude::*;
use vstd::utf8::encode_utf8;

use crate::text::{dec_str, ends_with, is_digit_char, lemma_dec_str_digits, str_eq,
    usize_to_string};

verus! {

/// The line terminator of HTTP messages.
pub open spec fn crlf() -> Seq<char> {
    seq!['\r', '\n']
}

/// Methods that may carry extra headers and a body.
pub open spec fn is_post_or_put(m: Seq<char>) -> bool {
    m == "POST"@ || m == "PUT"@
}

/// The method actually used: the given one, or the default `GET`.
pub open spec fn method_seq(method: Option<Seq<char>>) -> Seq<char> {
    match method {
        Some(m) => m,
        None => "GET"@,
    }
}

/// All the given strings, concatenated in order.
pub open spec fn concat_all(xs: Seq<Seq<char>>) -> Seq<char>
    decreases xs.len(),
{
    if xs.len() == 0 {
        Seq::empty()
    } else {
        concat_all(xs.drop_last()) + xs.last()
    }
}

/// The view of an optional borrowed string.
pub open spec fn opt_view(o: Option<&String>) -> Option<Seq<char>> {
    match o {
        Some(s) => Some(s@),
        None => None,
    }
}

/// Everything of the request that precedes the `Content-Length`/body block:
/// the request line, the fixed headers and, for `POST`/`PUT`, either the
/// caller's extra headers followed by a line terminator or the default
/// `Content-Type` header.
/// The request line and the fixed headers every request carries, in order.
pub open spec fn fixed_head(host: Seq<char>, path: Seq<char>, m: Seq<char>) -> Seq<char> {
    m + " /"@ + path + " HTTP/1.1\r\n"@ + "Host: "@ + host + "\r\n"@ + "Accept: */*\r\n"@
        + "Accept-Language: en-US,en;q=0.5\r\n"@ + "Connection: close\r\n"@
        + "Accept-Charset: UTF-8, ISO-8859-1;q=0.8\r\n"@
        + "Content-Type: application/json; charset=UTF-8\r\n"@
}

pub open spec fn request_head(
    host: Seq<char>,
    path: Seq<char>,
    m: Seq<char>,
    headers: Seq<Seq<char>>,
) -> Seq<char> {
    let fixed = fixed_head(host, path, m);
    if is_post_or_put(m) {
        if headers.len() > 0 {
            fixed + concat_all(headers) + "\r\n"@
        } else {
            fixed + "Content-Type: application/json\r\n"@
        }
    } else {
        fixed
    }
}

/// The whole request: the head and, for a `POST`/`PUT` with a body, a
/// `Content-Length` header holding the body's byte length, a blank line,
/// the body and a line terminator; always closed by one more terminator.
pub open spec fn request_spec(
    host: Seq<char>,
    path: Seq<char>,
    data: Option<Seq<char>>,
    method: Option<Seq<char>>,
    headers: Seq<Seq<char>>,
) -> Seq<char> {
    let m = method_seq(method);
    let head = request_head(host, path, m, headers);
    let with_body = if is_post_or_put(m) && data is Some {
        head + "Content-Length: "@ + dec_str(encode_utf8(data->0).len()) + "\r\n\r\n"@ + data->0
            + "\r\n"@
    } else {
        head
    };
    with_body + "\r\n"@
}

/// Format an HTTP/1.1 request.
///
/// The result is exactly `request_spec` of the arguments: default method
/// `GET`; for `POST`/`PUT` the extra headers are appended verbatim (followed
/// by a line terminator) when any are given, else a default `Content-Type`
/// takes their place, and a body brings a `Content-Length` equal to its
/// byte length.  Pure formatting, no side effects.
pub fn populate_get_request(
    host: &str,
    path: &str,
    data: Option<&String>,
    method: Option<&String>,
    headers: Vec<&str>,
) -> (res: String)
    ensures
        res@ == request_spec(host@, path@, opt_view(data), opt_view(method), headers.deep_view()),
{
    let method_str: &str = match method {
        Some(m) => m.as_str(),
        None => "GET",
    };
    let mut res = String::new();
    res.append(method_str);
    res.append(" /");
    res.append(path);
    res.append(" HTTP/1.1\r\n");
    res.append("Host: ");
    res.append(host);
    res.append("\r\n");
    res.append("Accept: */*\r\n");
    res.append("Accept-Language: en-US,en;q=0.5\r\n");
    res.append("Connection: close\r\n");
    res.append("Accept-Charset: UTF-8, ISO-8859-1;q=0.8\r\n");
    res.append("Content-Type: application/json; charset=UTF-8\r\n");
    let is_pp = str_eq(method_str, "POST") || str_eq(method_str, "PUT");
    if is_pp {
        if headers.len() > 0 {
            let ghost fixed = res@;
            let mut hi: usize = 0;
            while hi < headers.len()
                invariant
                    hi <= headers.len(),
                    res@ == fixed + concat_all(headers.deep_view().subrange(0, hi as int)),
                decreases headers.len() - hi,
            {
                let h: &str = headers[hi];
                res.append(h);
                proof {
                    let hv = headers.deep_view();
                    assert(hv.subrange(0, hi + 1).drop_last() =~= hv.subrange(0, hi as int));
                    assert(hv.subrange(0, hi + 1).last() == hv[hi as int]);
                }
                hi += 1;
            }
            proof {
                assert(headers.deep_view().subrange(0, headers.len() as int)
                    =~= headers.deep_view());
            }
            res.append("\r\n");
        } else {
            res.append("Content-Type: application/json\r\n");
        }
        if let Some(data_str) = data {
            let len = data_str.as_str().as_bytes().len();
            res.append("Content-Length: ");
            let num = usize_to_string(len);
            res.append(num.as_str());
            res.append("\r\n\r\n");
            res.append(data_str.as_str());
            res.append("\r\n");
        }
    }
    res.append("\r\n");
    res
}

/// A string of the shape `prefix ++ "\r\n"`, where the prefix itself ends
/// in a line terminator not preceded by another `'\n'`, ends with exactly
/// one blank line.
proof fn lemma_one_blank_after(prefix: Seq<char>)
    requires
        prefix.len() >= 3,
        prefix.last() == '\n',
        prefix[prefix.len() - 2] == '\r',
        prefix[prefix.len() - 3] != '\n',
    ensures
        ends_with(prefix + crlf(), crlf() + crlf()),
        !ends_with(prefix + crlf(), crlf() + crlf() + crlf()),
{
    let r = prefix + crlf();
    assert(r.subrange(r.len() - 4, r.len() as int) =~= crlf() + crlf());
    if r.len() >= 6 && r.subrange(r.len() - 6, r.len() as int) == crlf() + crlf() + crlf() {
        assert(r.subrange(r.len() - 6, r.len() as int)[1] == r[r.len() - 5]);
        assert((crlf() + crlf() + crlf())[1] == '\n');
        assert(r[r.len() - 5] == prefix[prefix.len() - 3]);
    }
}

/// A string of the shape `prefix ++ x ++ "\r\n\r\n"` ends with exactly one
/// blank line, provided `x` is not empty and does not itself end in a line
/// terminator, and the prefix does not end in `'\r'`.
proof fn lemma_exactly_one_blank(prefix: Seq<char>, x: Seq<char>)
    requires
        x.len() > 0,
        !ends_with(x, crlf()),
        prefix.len() > 0,
        prefix.last() != '\r',
    ensures
        ends_with(prefix + x + crlf() + crlf(), crlf() + crlf()),
        !ends_with(prefix + x + crlf() + crlf(), crlf() + crlf() + crlf()),
{
    let r = prefix + x + crlf() + crlf();
    assert(r.subrange(r.len() - 4, r.len() as int) =~= crlf() + crlf());
    if r.len() >= 6 && r.subrange(r.len() - 6, r.len() as int) == crlf() + crlf() + crlf() {
        assert(r.subrange(r.len() - 6, r.len() as int)[1] == r[r.len() - 5]);
        assert(r.subrange(r.len() - 6, r.len() as int)[0] == r[r.len() - 6]);
        assert(r[r.len() - 5] == x.last());
        assert(x.last() == '\n');
        assert(r[r.len() - 6] == '\r');
        if x.len() == 1 {
            assert(r[r.len() - 6] == prefix.last());
        } else {
            assert(r[r.len() - 6] == x[x.len() - 2]);
            assert(x.subrange(x.len() - 2, x.len() as int) =~= crlf());
            assert(ends_with(x, crlf()));
        }
    }
}

/// A built request for a `POST`/`PUT` with a body decomposes into the head,
/// a `Content-Length` header holding the body's byte length, a blank line,
/// and the body itself, verbatim, closed by a final blank line.
pub proof fn lemma_request_body_block(
    host: Seq<char>,
    path: Seq<char>,
    b: Seq<char>,
    method: Option<Seq<char>>,
    headers: Seq<Seq<char>>,
)
    requires
        is_post_or_put(method_seq(method)),
    ensures
        request_spec(host, path, Some(b), method, headers) == request_head(
            host,
            path,
            method_seq(method),
            headers,
        ) + "Content-Length: "@ + dec_str(encode_utf8(b).len()) + (crlf() + crlf()) + b + (crlf()
            + crlf()),
{
    reveal_strlit("\r\n");
    reveal_strlit("\r\n\r\n");
    assert("\r\n"@ =~= crlf());
    assert("\r\n\r\n"@ =~= crlf() + crlf());
    let head = request_head(host, path, method_seq(method), headers);
    let num = dec_str(encode_utf8(b).len());
    assert(request_spec(host, path, Some(b), method, headers) =~= head + "Content-Length: "@ + num
        + (crlf() + crlf()) + b + (crlf() + crlf()));
}

/// Every built request ends the header block with exactly two consecutive
/// line terminators before any body, and the whole request with exactly one
/// blank line.
///
/// The statement holds for every input except a `POST`/`PUT` whose body (or,
/// with no body, whose concatenated extra headers) is empty or itself ends
/// in a line terminator; those inputs are left out by the preconditions.
pub proof fn lemma_request_termination(
    host: Seq<char>,
    path: Seq<char>,
    data: Option<Seq<char>>,
    method: Option<Seq<char>>,
    headers: Seq<Seq<char>>,
)
    requires
        is_post_or_put(method_seq(method)) && data is Some ==> data->0.len() > 0 && !ends_with(
            data->0,
            crlf(),
        ),
        is_post_or_put(method_seq(method)) && data is None && headers.len() > 0 ==> concat_all(
            headers,
        ).len() > 0 && !ends_with(concat_all(headers), crlf()),
    ensures
        ({
            let r = request_spec(host, path, data, method, headers);
            let m = method_seq(method);
            &&& ends_with(r, crlf() + crlf())
            &&& !ends_with(r, crlf() + crlf() + crlf())
            &&& (is_post_or_put(m) && data is Some ==> {
                let pre = request_head(host, path, m, headers) + "Content-Length: "@ + dec_str(
                    encode_utf8(data->0).len(),
                );
                &&& r == pre + (crlf() + crlf()) + data->0 + (crlf() + crlf())
                &&& pre.len() > 0
                &&& is_digit_char(pre.last())
            })
        }),
{
    reveal_strlit("\r\n");
    assert("\r\n"@ =~= crlf());
    let m = method_seq(method);
    let fixed = fixed_head(host, path, m);
    let charset = "Content-Type: application/json; charset=UTF-8\r\n"@;
    reveal_strlit("Content-Type: application/json; charset=UTF-8\r\n");
    let r = request_spec(host, path, data, method, headers);
    if is_post_or_put(m) && data is Some {
        reveal_strlit("\r\n\r\n");
        assert("\r\n\r\n"@ =~= crlf() + crlf());
        let b = data->0;
        let num = dec_str(encode_utf8(b).len());
        let pre = request_head(host, path, m, headers) + "Content-Length: "@ + num;
        lemma_dec_str_digits(encode_utf8(b).len());
        assert(pre.last() == num.last());
        assert(is_digit_char(pre.last()));
        lemma_request_body_block(host, path, b, method, headers);
        assert(r == pre + (crlf() + crlf()) + b + (crlf() + crlf()));
        lemma_exactly_one_blank(pre + (crlf() + crlf()), b);
        assert(r =~= (pre + (crlf() + crlf())) + b + crlf() + crlf());
    } else if is_post_or_put(m) && headers.len() > 0 {
        let h = concat_all(headers);
        assert(fixed.last() == charset[charset.len() - 1]);
        lemma_exactly_one_blank(fixed, h);
        assert(r =~= fixed + h + crlf() + crlf());
    } else if is_post_or_put(m) {
        let ct = "Content-Type: application/json\r\n"@;
        reveal_strlit("Content-Type: application/json\r\n");
        let head = fixed + ct;
        assert(head.last() == ct[ct.len() - 1]);
        assert(head[head.len() - 2] == ct[ct.len() - 2]);
        assert(head[head.len() - 3] == ct[ct.len() - 3]);
        lemma_one_blank_after(head);
        assert(r =~= head + crlf());
    } else {
        assert(fixed.last() == charset[charset.len() - 1]);
        assert(fixed[fixed.len() - 2] == charset[charset.len() - 2]);
        assert(fixed[fixed.len() - 3] == charset[charset.len() - 3]);
        lemma_one_blank_after(fixed);
        assert(r =~= fixed + crlf());
    }
}

} // verus!
