//! URL parsing.
//!
//! A URL of the form `scheme://host[:port]/path` is split into host, path
//! (without its leading slash) and a socket address `host:port`, where the
//! port is the explicit one if given, else `80` for the plaintext scheme
//! `http` and `443` for every other scheme.

use vstd::prelude::*;

use crate::error::HttpError;
use crate::text::{find_char, find_str, find_sub, lemma_find_from_props,
    lemma_find_from_exact, lemma_find_from_none, lemma_occurs_single, occurs_at, str_eq};

verus! {

/// The parts of a URL a request needs: the server's name, the path of the
/// resource, and the `host:port` address the transport connects to.
#[derive(Debug)]
pub struct ParsedUrl {
    pub host: String,
    pub path: String,
    pub socket_addr: String,
}

/// The scheme-defaulted port: `80` for plaintext `http`, `443` for every
/// scheme that requires encryption (any scheme other than `http`).
pub open spec fn default_port(scheme: Seq<char>) -> Seq<char> {
    if scheme == "http"@ {
        "80"@
    } else {
        "443"@
    }
}

/// What parsing a URL yields: `(host, path, socket_address)`, or the exact
/// error.  The URL is split at the first `://`, the remainder at the first
/// `/`; an authority holding a `:` carries an explicit port, else the
/// scheme's default port is used.
pub open spec fn parse_url_spec(url: Seq<char>) -> Result<(Seq<char>, Seq<char>, Seq<char>),
    HttpError> {
    match find_sub(url, "://"@) {
        None => Err(HttpError::MissingSchemeSeparator),
        Some(i) => {
            let scheme = url.subrange(0, i);
            let rest = url.subrange(i + "://"@.len(), url.len() as int);
            match find_sub(rest, seq!['/']) {
                None => Err(HttpError::MissingPathSeparator),
                Some(j) => {
                    let authority = rest.subrange(0, j);
                    let path = rest.subrange(j + 1, rest.len() as int);
                    let hostport = match find_sub(authority, seq![':']) {
                        Some(k) => (
                            authority.subrange(0, k),
                            authority.subrange(k + 1, authority.len() as int),
                        ),
                        None => (authority, default_port(scheme)),
                    };
                    Ok((hostport.0, path, hostport.0 + seq![':'] + hostport.1))
                },
            }
        },
    }
}

/// The first `://` of `scheme + "://" + tail` stands right after the scheme
/// when the scheme itself holds no colon.
proof fn lemma_split_scheme(scheme: Seq<char>, tail: Seq<char>)
    requires
        !scheme.contains(':'),
    ensures
        ({
            let u = scheme + "://"@ + tail;
            &&& find_sub(u, "://"@) == Some(scheme.len() as int)
            &&& u.subrange(0, scheme.len() as int) == scheme
            &&& u.subrange(scheme.len() as int + "://"@.len() as int, u.len() as int) == tail
        }),
{
    reveal_strlit("://");
    let sep = "://"@;
    assert(sep =~= seq![':', '/', '/']);
    let u = scheme + sep + tail;
    let sl = scheme.len() as int;
    assert(u.subrange(sl, sl + 3) =~= sep);
    assert forall|j: int| 0 <= j < sl implies !occurs_at(u, sep, j) by {
        if occurs_at(u, sep, j) {
            assert(u.subrange(j, j + 3)[0] == u[j]);
            assert(scheme[j] == ':');
            assert(scheme.contains(':'));
        }
    }
    lemma_find_from_exact(u, sep, 0, sl);
    assert(u.subrange(0, sl) =~= scheme);
    assert(u.subrange(sl + 3, u.len() as int) =~= tail);
}

/// Parsing recovers the parts of a well-formed URL with an explicit port:
/// for every URL `scheme://host:port/path` whose scheme holds no colon,
/// whose host holds no colon and no slash and whose port holds no slash,
/// the parser returns exactly `host`, `path` (without the leading slash)
/// and the socket address `host:port`.
pub proof fn lemma_parse_url_explicit_port(
    scheme: Seq<char>,
    host: Seq<char>,
    port: Seq<char>,
    path: Seq<char>,
)
    requires
        !scheme.contains(':'),
        !host.contains(':'),
        !host.contains('/'),
        !port.contains('/'),
    ensures
        parse_url_spec(scheme + "://"@ + host + seq![':'] + port + seq!['/'] + path)
            == Ok::<_, HttpError>((host, path, host + seq![':'] + port)),
{
    let tail = host + seq![':'] + port + seq!['/'] + path;
    let u = scheme + "://"@ + tail;
    assert(scheme + "://"@ + host + seq![':'] + port + seq!['/'] + path =~= u);
    lemma_split_scheme(scheme, tail);
    let hl = host.len() as int;
    let p: int = hl + 1 + port.len() as int;
    assert(tail[p] == '/');
    proof_first_slash(tail, host, port, p);
    let authority = tail.subrange(0, p);
    assert(authority =~= host + seq![':'] + port);
    assert(tail.subrange(p + 1, tail.len() as int) =~= path);
    assert(authority[hl] == ':');
    lemma_occurs_single(authority, ':', hl);
    assert forall|j: int| 0 <= j < hl implies !occurs_at(authority, seq![':'], j) by {
        lemma_occurs_single(authority, ':', j);
        if authority[j] == ':' {
            assert(host[j] == ':');
            assert(host.contains(':'));
        }
    }
    lemma_find_from_exact(authority, seq![':'], 0, hl);
    assert(authority.subrange(0, hl) =~= host);
    assert(authority.subrange(hl + 1, authority.len() as int) =~= port);
}

/// In `host + ":" + port + "/" + path` the first slash stands right after
/// the port, when neither host nor port holds a slash.
proof fn proof_first_slash(tail: Seq<char>, host: Seq<char>, port: Seq<char>, p: int)
    requires
        !host.contains('/'),
        !port.contains('/'),
        p == host.len() + 1 + port.len(),
        p < tail.len(),
        tail[p] == '/',
        forall|j: int| 0 <= j < host.len() ==> tail[j] == host[j],
        tail[host.len() as int] == ':',
        forall|j: int| host.len() < j < p ==> tail[j] == port[j - host.len() - 1],
    ensures
        find_sub(tail, seq!['/']) == Some(p),
{
    lemma_occurs_single(tail, '/', p);
    assert forall|j: int| 0 <= j < p implies !occurs_at(tail, seq!['/'], j) by {
        lemma_occurs_single(tail, '/', j);
        if tail[j] == '/' {
            if j < host.len() {
                assert(host[j] == '/');
                assert(host.contains('/'));
            } else if j > host.len() {
                assert(port[j - host.len() - 1] == '/');
                assert(port.contains('/'));
            }
        }
    }
    lemma_find_from_exact(tail, seq!['/'], 0, p);
}

/// Parsing recovers the parts of a well-formed URL without an explicit
/// port: the socket address then carries the scheme's default port, `80`
/// for `http` and `443` for every other scheme.
pub proof fn lemma_parse_url_default_port(scheme: Seq<char>, host: Seq<char>, path: Seq<char>)
    requires
        !scheme.contains(':'),
        !host.contains(':'),
        !host.contains('/'),
    ensures
        parse_url_spec(scheme + "://"@ + host + seq!['/'] + path)
            == Ok::<_, HttpError>((host, path, host + seq![':'] + default_port(scheme))),
{
    let tail = host + seq!['/'] + path;
    let u = scheme + "://"@ + tail;
    assert(scheme + "://"@ + host + seq!['/'] + path =~= u);
    lemma_split_scheme(scheme, tail);
    let hl = host.len() as int;
    assert(tail[hl] == '/');
    lemma_occurs_single(tail, '/', hl);
    assert forall|j: int| 0 <= j < hl implies !occurs_at(tail, seq!['/'], j) by {
        lemma_occurs_single(tail, '/', j);
        if tail[j] == '/' {
            assert(host[j] == '/');
            assert(host.contains('/'));
        }
    }
    lemma_find_from_exact(tail, seq!['/'], 0, hl);
    let authority = tail.subrange(0, hl);
    assert(authority =~= host);
    assert(tail.subrange(hl + 1, tail.len() as int) =~= path);
    assert forall|j: int| 0 <= j implies !occurs_at(authority, seq![':'], j) by {
        if j < authority.len() {
            lemma_occurs_single(authority, ':', j);
            if authority[j] == ':' {
                assert(host[j] == ':');
                assert(host.contains(':'));
            }
        }
    }
    lemma_find_from_none(authority, seq![':'], 0);
}

/// Split a URL into host, path and socket address.
///
/// Returns `MissingSchemeSeparator` exactly when the URL holds no `://`,
/// and `MissingPathSeparator` exactly when no `/` follows the authority.
pub fn parse_url(url: &str) -> (r: Result<ParsedUrl, HttpError>)
    ensures
        match r {
            Ok(p) => parse_url_spec(url@) == Ok::<_, HttpError>((p.host@, p.path@, p.socket_addr@)),
            Err(e) => parse_url_spec(url@) == Err::<(Seq<char>, Seq<char>, Seq<char>), _>(e),
        },
{
    let n = url.unicode_len();
    let sep = find_str(url, "://");
    proof {
        reveal_strlit("://");
        lemma_find_from_props(url@, "://"@, 0);
    }
    match sep {
        None => Err(HttpError::MissingSchemeSeparator),
        Some(i) => {
            let scheme = url.substring_char(0, i);
            let rest = url.substring_char(i + 3, n);
            let rest_n = n - (i + 3);
            let slash = find_char(rest, '/');
            proof {
                lemma_find_from_props(rest@, seq!['/'], 0);
            }
            match slash {
                None => Err(HttpError::MissingPathSeparator),
                Some(j) => {
                    let authority = rest.substring_char(0, j);
                    let path = rest.substring_char(j + 1, rest_n);
                    let colon = find_char(authority, ':');
                    proof {
                        lemma_find_from_props(authority@, seq![':'], 0);
                    }
                    let (host, port) = match colon {
                        Some(k) => (
                            authority.substring_char(0, k),
                            authority.substring_char(k + 1, j),
                        ),
                        None => (authority, if str_eq(scheme, "http") {
                            "80"
                        } else {
                            "443"
                        }),
                    };
                    let mut socket_addr = String::from_str(host);
                    socket_addr.append(":");
                    socket_addr.append(port);
                    proof {
                        reveal_strlit(":");
                        assert(":"@ =~= seq![':']);
                    }
                    Ok(ParsedUrl {
                        host: String::from_str(host),
                        path: String::from_str(path),
                        socket_addr,
                    })
                },
            }
        },
    }
}

} // verus!
