//! HTTP response parsing.
//!
//! The raw response text splits at the first blank line into a header block
//! and a body.  The header block splits into lines at each `\r\n`; the first
//! line — the status line — is skipped by design and never appears in the
//! result, so callers cannot read the status code from it.  Every other line
//! splits at its first `:` into a name, kept as received, and a value with
//! surrounding whitespace trimmed.  A duplicated name keeps the last value.

use vstd::prelude::*;

use crate::error::HttpError;
use crate::text::{find_char, find_str, find_sub, lemma_find_from_none, lemma_find_from_props,
    occurs_at, trim_spec, trim_str};

verus! {

/// What splitting a response at the first blank line yields: the header
/// block and the body, or the exact error when no blank line exists.
pub open spec fn parse_resp_spec(s: Seq<char>) -> Result<(Seq<char>, Seq<char>), HttpError> {
    match find_sub(s, "\r\n\r\n"@) {
        None => Err(HttpError::MissingBlankLine),
        Some(i) => Ok(
            (s.subrange(0, i), s.subrange(i + "\r\n\r\n"@.len() as int, s.len() as int)),
        ),
    }
}

/// Split a response at the first blank line into header block and body.
///
/// Returns `MissingBlankLine` exactly when the text holds no `\r\n\r\n`.
pub fn parse_resp<'a>(resp: &'a str) -> (r: Result<(&'a str, &'a str), HttpError>)
    ensures
        match r {
            Ok(p) => parse_resp_spec(resp@) == Ok::<_, HttpError>((p.0@, p.1@)),
            Err(e) => parse_resp_spec(resp@) == Err::<(Seq<char>, Seq<char>), _>(e),
        },
{
    let n = resp.unicode_len();
    let sep = find_str(resp, "\r\n\r\n");
    proof {
        reveal_strlit("\r\n\r\n");
        lemma_find_from_props(resp@, "\r\n\r\n"@, 0);
    }
    match sep {
        None => Err(HttpError::MissingBlankLine),
        Some(i) => Ok((resp.substring_char(0, i), resp.substring_char(i + 4, n))),
    }
}

/// A response with no blank line anywhere fails fatally, with no partial
/// result.
pub proof fn lemma_missing_blank_line(s: Seq<char>)
    requires
        forall|i: int| !occurs_at(s, "\r\n\r\n"@, i),
    ensures
        parse_response_spec(s) == Err::<(Map<Seq<char>, Seq<char>>, Seq<char>), _>(
            HttpError::MissingBlankLine,
        ),
{
    lemma_find_from_none(s, "\r\n\r\n"@, 0);
}

/// The lines of `s`, split at each `\r\n`.  Splitting never drops text: an
/// `s` with no terminator at all is one single line.
pub open spec fn split_lines(s: Seq<char>) -> Seq<Seq<char>>
    decreases s.len(),
{
    match find_sub(s, "\r\n"@) {
        None => seq![s],
        Some(i) => {
            if 0 <= i && i + "\r\n"@.len() <= s.len() && "\r\n"@.len() >= 1 {
                seq![s.subrange(0, i)] + split_lines(
                    s.subrange(i + "\r\n"@.len() as int, s.len() as int),
                )
            } else {
                seq![s]
            }
        },
    }
}

/// The name and trimmed value of a header line, split at its first `:`;
/// nothing when the line holds no colon.
pub open spec fn header_entry(line: Seq<char>) -> Option<(Seq<char>, Seq<char>)> {
    match find_sub(line, seq![':']) {
        None => None,
        Some(j) => Some(
            (line.subrange(0, j), trim_spec(line.subrange(j + 1, line.len() as int))),
        ),
    }
}

/// The mapping the given header lines describe, inserted in order so that
/// the last occurrence of a duplicated name wins; the exact error when any
/// line holds no colon.
pub open spec fn header_map_spec(lines: Seq<Seq<char>>) -> Result<
    Map<Seq<char>, Seq<char>>,
    HttpError,
>
    decreases lines.len(),
{
    if lines.len() == 0 {
        Ok(Map::empty())
    } else {
        match header_map_spec(lines.drop_last()) {
            Err(e) => Err(e),
            Ok(m) => match header_entry(lines.last()) {
                None => Err(HttpError::MissingHeaderColon),
                Some(kv) => Ok(m.insert(kv.0, kv.1)),
            },
        }
    }
}

/// What parsing a whole response yields: the header mapping — without the
/// status line — and the body, or the exact error.
pub open spec fn parse_response_spec(s: Seq<char>) -> Result<
    (Map<Seq<char>, Seq<char>>, Seq<char>),
    HttpError,
> {
    match parse_resp_spec(s) {
        Err(e) => Err(e),
        Ok(hb) => match header_map_spec(split_lines(hb.0).drop_first()) {
            Err(e) => Err(e),
            Ok(m) => Ok((m, hb.1)),
        },
    }
}

/// The only error header lines can raise is a missing colon.
proof fn lemma_header_map_err_only(lines: Seq<Seq<char>>)
    ensures
        header_map_spec(lines) is Err ==> header_map_spec(lines) == Err::<
            Map<Seq<char>, Seq<char>>,
            _,
        >(HttpError::MissingHeaderColon),
    decreases lines.len(),
{
    if lines.len() > 0 {
        lemma_header_map_err_only(lines.drop_last());
    }
}

/// One header line without a colon makes the whole mapping fail.
proof fn lemma_header_map_err(lines: Seq<Seq<char>>, k: int)
    requires
        0 <= k < lines.len(),
        header_entry(lines[k]) is None,
    ensures
        header_map_spec(lines) == Err::<Map<Seq<char>, Seq<char>>, _>(
            HttpError::MissingHeaderColon,
        ),
    decreases lines.len(),
{
    if k == lines.len() - 1 {
        lemma_header_map_err_only(lines.drop_last());
    } else {
        lemma_header_map_err(lines.drop_last(), k);
        assert(lines.drop_last()[k] == lines[k]);
    }
}

/// The keys of the pairs are pairwise distinct.
pub open spec fn wf_pairs(ps: Seq<(String, String)>) -> bool {
    forall|i: int, j: int| 0 <= i < j < ps.len() ==> ps[i].0@ != ps[j].0@
}

/// The mapping the pairs describe, inserted in order.
pub open spec fn map_of_pairs(ps: Seq<(String, String)>) -> Map<Seq<char>, Seq<char>>
    decreases ps.len(),
{
    if ps.len() == 0 {
        Map::empty()
    } else {
        map_of_pairs(ps.drop_last()).insert(ps.last().0@, ps.last().1@)
    }
}

/// A parsed response: the header mapping, with keys as received, values
/// trimmed and the last occurrence of a duplicated key kept, and the body.
/// The status line is never among the headers.
#[derive(Debug)]
pub struct ApiResponse {
    pub header: Vec<(String, String)>,
    pub body: String,
}

impl ApiResponse {
    /// The header pairs, as the mapping they describe.
    pub open spec fn header_map(self) -> Map<Seq<char>, Seq<char>> {
        map_of_pairs(self.header@)
    }

    /// Each header key appears once.
    pub open spec fn wf(self) -> bool {
        wf_pairs(self.header@)
    }
}

/// Overwriting the pair that already holds `key` changes the mapping the
/// same way inserting the key anew would.
proof fn lemma_map_of_pairs_update(ps: Seq<(String, String)>, t: int, key: String, val: String)
    requires
        0 <= t < ps.len(),
        ps[t].0@ == key@,
        wf_pairs(ps),
    ensures
        map_of_pairs(ps.update(t, (key, val))) == map_of_pairs(ps).insert(key@, val@),
    decreases ps.len(),
{
    let ps2 = ps.update(t, (key, val));
    if t == ps.len() - 1 {
        assert(ps2.drop_last() =~= ps.drop_last());
        assert(ps2.last() == (key, val));
        assert(map_of_pairs(ps.drop_last()).insert(key@, ps.last().1@).insert(key@, val@)
            =~= map_of_pairs(ps.drop_last()).insert(key@, val@));
    } else {
        assert(wf_pairs(ps.drop_last()));
        assert(ps.drop_last()[t] == ps[t]);
        lemma_map_of_pairs_update(ps.drop_last(), t, key, val);
        assert(ps2.drop_last() =~= ps.drop_last().update(t, (key, val)));
        assert(ps2.last() == ps.last());
        assert(ps[t].0@ != ps.last().0@);
        assert(map_of_pairs(ps.drop_last()).insert(key@, val@).insert(ps.last().0@, ps.last().1@)
            =~= map_of_pairs(ps.drop_last()).insert(ps.last().0@, ps.last().1@).insert(
            key@,
            val@,
        ));
    }
}

/// Insert `key: val` into the pairs: the pair already holding `key` is
/// overwritten, else the pair is appended.  Keys stay pairwise distinct and
/// the described mapping gains exactly this entry.
fn upsert(pairs: &mut Vec<(String, String)>, key: String, val: String)
    requires
        wf_pairs(old(pairs)@),
    ensures
        wf_pairs(final(pairs)@),
        map_of_pairs(final(pairs)@) == map_of_pairs(old(pairs)@).insert(key@, val@),
{
    let n = pairs.len();
    let mut t: usize = 0;
    while t < n
        invariant
            n == pairs@.len(),
            t <= n,
            pairs@ == old(pairs)@,
            wf_pairs(old(pairs)@),
            forall|u: int| 0 <= u < t ==> old(pairs)@[u].0@ != key@,
        decreases n - t,
    {
        if pairs[t].0 == key {
            let ghost ps = pairs@;
            pairs[t] = (key, val);
            proof {
                lemma_map_of_pairs_update(ps, t as int, key, val);
                assert forall|i: int, j: int|
                    0 <= i < j < pairs@.len() implies pairs@[i].0@ != pairs@[j].0@ by {
                    assert(ps[i].0@ != ps[j].0@);
                }
            }
            return;
        }
        t += 1;
    }
    let ghost ps = pairs.view();
    pairs.push((key, val));
    proof {
        assert(pairs@.drop_last() =~= ps);
        assert(pairs@.last() == (key, val));
        assert forall|i: int, j: int|
            0 <= i < j < pairs@.len() implies pairs@[i].0@ != pairs@[j].0@ by {
            if j < ps.len() {
                assert(ps[i].0@ != ps[j].0@);
            } else {
                assert(ps[i].0@ != key@);
            }
        }
    }
}

/// Splitting yields at least the one line every text has.
proof fn lemma_split_lines_len(s: Seq<char>)
    ensures
        split_lines(s).len() >= 1,
{
}

/// The lines of `s`, as a vector.
fn split_lines_vec(s: &str) -> (v: Vec<String>)
    ensures
        v.deep_view() == split_lines(s@),
{
    let mut acc: Vec<String> = Vec::new();
    let mut rem: &str = s;
    let mut rem_n: usize = s.unicode_len();
    loop
        invariant_except_break
            rem_n == rem@.len(),
            split_lines(s@) == acc.deep_view() + split_lines(rem@),
        ensures
            acc.deep_view() == split_lines(s@),
        decreases rem@.len(),
    {
        let f = find_str(rem, "\r\n");
        proof {
            reveal_strlit("\r\n");
            lemma_find_from_props(rem@, "\r\n"@, 0);
        }
        match f {
            None => {
                let ghost av = acc.deep_view();
                acc.push(String::from_str(rem));
                proof {
                    assert(acc.deep_view() =~= av + seq![rem@]);
                    assert(split_lines(rem@) == seq![rem@]);
                    assert(av + seq![rem@] =~= split_lines(s@));
                }
                break;
            },
            Some(i) => {
                let ghost av = acc.deep_view();
                let line = rem.substring_char(0, i);
                acc.push(String::from_str(line));
                let new_rem = rem.substring_char(i + 2, rem_n);
                proof {
                    assert(acc.deep_view() =~= av + seq![line@]);
                    assert(split_lines(rem@) == seq![line@] + split_lines(new_rem@));
                    assert(av + (seq![line@] + split_lines(new_rem@)) =~= (av + seq![line@])
                        + split_lines(new_rem@));
                }
                rem = new_rem;
                rem_n = rem_n - (i + 2);
            },
        }
    }
    acc
}

/// Parse a whole response: split off the body at the first blank line,
/// skip the status line, and turn the remaining lines into the header
/// mapping, last occurrence of a duplicated key winning.
///
/// Returns `MissingBlankLine` exactly when the text holds no `\r\n\r\n`,
/// and `MissingHeaderColon` exactly when some header line holds no `:`.
pub fn parse_response(resp: &str) -> (r: Result<ApiResponse, HttpError>)
    ensures
        match r {
            Ok(a) => {
                &&& parse_response_spec(resp@) matches Ok(p)
                &&& a.header_map() == p.0
                &&& a.body@ == p.1
                &&& a.wf()
            },
            Err(e) => parse_response_spec(resp@) == Err::<
                (Map<Seq<char>, Seq<char>>, Seq<char>),
                _,
            >(e),
        },
{
    let (head, body) = match parse_resp(resp) {
        Ok(p) => p,
        Err(e) => {
            return Err(e);
        },
    };
    let lines = split_lines_vec(head);
    proof {
        lemma_split_lines_len(head@);
    }
    let ghost hl = split_lines(head@).drop_first();
    let mut pairs: Vec<(String, String)> = Vec::new();
    let n = lines.len();
    assert(hl.subrange(0, 0) =~= Seq::<Seq<char>>::empty());
    let mut idx: usize = 1;
    while idx < n
        invariant
            1 <= idx <= n,
            n == lines@.len(),
            parse_resp_spec(resp@) == Ok::<_, HttpError>((head@, body@)),
            lines.deep_view() == split_lines(head@),
            hl == split_lines(head@).drop_first(),
            n == hl.len() + 1,
            wf_pairs(pairs@),
            header_map_spec(hl.subrange(0, idx - 1)) == Ok::<_, HttpError>(map_of_pairs(pairs@)),
        decreases n - idx,
    {
        let line: &str = lines[idx].as_str();
        assert(line@ == hl[idx - 1]);
        let colon = find_char(line, ':');
        proof {
            lemma_find_from_props(line@, seq![':'], 0);
        }
        match colon {
            None => {
                proof {
                    lemma_header_map_err(hl, idx - 1);
                }
                return Err(HttpError::MissingHeaderColon);
            },
            Some(j) => {
                let ll = line.unicode_len();
                let key = String::from_str(line.substring_char(0, j));
                let raw = line.substring_char(j + 1, ll);
                let val = String::from_str(trim_str(raw));
                let ghost mp = map_of_pairs(pairs@);
                upsert(&mut pairs, key, val);
                proof {
                    assert(hl.subrange(0, idx as int).drop_last() =~= hl.subrange(0, idx - 1));
                    assert(hl.subrange(0, idx as int).last() == hl[idx - 1]);
                    assert(header_entry(hl[idx - 1]) == Some((key@, val@)));
                    assert(header_map_spec(hl.subrange(0, idx as int)) == Ok::<_, HttpError>(
                        mp.insert(key@, val@),
                    ));
                }
            },
        }
        idx += 1;
    }
    proof {
        assert(hl.subrange(0, n - 1) =~= hl);
    }
    Ok(ApiResponse { header: pairs, body: String::from_str(body) })
}

/// The last occurrence of a duplicated header name wins: when the lines
/// all parse and no line after the `k`-th carries the `k`-th line's name,
/// the mapping holds the `k`-th line's value under that name.
pub proof fn lemma_header_map_last_wins(lines: Seq<Seq<char>>, k: int)
    requires
        header_map_spec(lines) is Ok,
        0 <= k < lines.len(),
        header_entry(lines[k]) is Some,
        forall|j: int|
            k < j < lines.len() ==> (#[trigger] header_entry(lines[j]))->Some_0.0 != header_entry(
                lines[k],
            )->Some_0.0,
    ensures
        ({
            let m = header_map_spec(lines)->Ok_0;
            let kv = header_entry(lines[k])->Some_0;
            m.contains_key(kv.0) && m[kv.0] == kv.1
        }),
    decreases lines.len(),
{
    if k < lines.len() - 1 {
        assert(lines.drop_last()[k] == lines[k]);
        lemma_header_map_last_wins(lines.drop_last(), k);
    }
}

/// A header line without a colon, anywhere after the status line, fails the
/// whole parse fatally.
pub proof fn lemma_missing_header_colon(s: Seq<char>, k: int)
    requires
        parse_resp_spec(s) is Ok,
        ({
            let hl = split_lines(parse_resp_spec(s)->Ok_0.0).drop_first();
            0 <= k < hl.len() && find_sub(hl[k], seq![':']) is None
        }),
    ensures
        parse_response_spec(s) == Err::<(Map<Seq<char>, Seq<char>>, Seq<char>), _>(
            HttpError::MissingHeaderColon,
        ),
{
    let hl = split_lines(parse_resp_spec(s)->Ok_0.0).drop_first();
    lemma_header_map_err(hl, k);
}

} // verus!
