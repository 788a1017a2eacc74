use vstd::prelude::*;
use crate::errors::TestError;
use crate::fixture::{best_entry, resolve_fixture};
use crate::json::{json_of, parse_json, JsonSpec, JsonValue};
use crate::text::{
    concat_all, dec_val, find_ch, find_char, has_prefix, is_dec, join_range, parse_usize,
    split_ch, split_char, split_tokens, starts_with, str_eq, trim, trim_of, ws_tokens,
};
use crate::url::{split_url, url_parts_of};

verus! {

/// The key and value of one `key: value` piece: the text before the first
/// colon and the text after it, both trimmed; `None` where no colon stands.
pub open spec fn pair_of(p: Seq<char>) -> Option<(Seq<char>, Seq<char>)> {
    match find_ch(p, ':') {
        Some(i) => Some((trim_of(p.take(i)), trim_of(p.skip(i + 1)))),
        None => None,
    }
}

/// The pairs of a list of `key: value` pieces; `None` if any piece has no
/// colon.
pub open spec fn pairs_of(parts: Seq<Seq<char>>) -> Option<Seq<(Seq<char>, Seq<char>)>>
    decreases parts.len(),
{
    if parts.len() == 0 {
        Some(Seq::empty())
    } else {
        match (pair_of(parts[0]), pairs_of(parts.drop_first())) {
            (Some(p), Some(r)) => Some(seq![p] + r),
            _ => None,
        }
    }
}

/// The pairs of a directive's comma-separated content.
pub open spec fn directive_pairs(s: Seq<char>) -> Option<Seq<(Seq<char>, Seq<char>)>> {
    pairs_of(split_ch(s, ','))
}

fn split_pair(part: &str) -> (r: Option<(String, String)>)
    ensures
        match r {
            Some(p) => pair_of(part@) == Some((p.0@, p.1@)),
            None => pair_of(part@) is None,
        },
{
    let n = part.unicode_len();
    match find_char(part, ':') {
        Some(i) => {
            let key = String::from_str(trim(part.substring_char(0, i)));
            let val = String::from_str(trim(part.substring_char(i + 1, n)));
            proof {
                assert(part@.take(i as int) =~= part@.subrange(0, i as int));
                assert(part@.skip(i as int + 1) =~= part@.subrange(i as int + 1, n as int));
            }
            Some((key, val))
        },
        None => None,
    }
}

fn parse_pairs_from(parts: &Vec<String>, i: usize) -> (r: Option<Vec<(String, String)>>)
    requires
        i <= parts.len(),
    ensures
        match r {
            Some(v) => pairs_of(parts.deep_view().skip(i as int)) == Some(v.deep_view()),
            None => pairs_of(parts.deep_view().skip(i as int)) is None,
        },
    decreases parts.len() - i,
{
    if i == parts.len() {
        let v: Vec<(String, String)> = Vec::new();
        proof {
            assert(parts.deep_view().skip(i as int) =~= Seq::<Seq<char>>::empty());
            assert(v.deep_view() =~= Seq::<(Seq<char>, Seq<char>)>::empty());
        }
        Some(v)
    } else {
        proof {
            assert(parts.deep_view().skip(i as int)[0] == parts.deep_view()[i as int]);
            assert(parts.deep_view().skip(i as int).drop_first() =~= parts.deep_view().skip(
                i as int + 1,
            ));
        }
        match split_pair(parts[i].as_str()) {
            None => None,
            Some(p) => {
                match parse_pairs_from(parts, i + 1) {
                    None => None,
                    Some(rest) => {
                        let ghost rest_dv = rest.deep_view();
                        let mut v = rest;
                        v.insert(0, p);
                        proof {
                            assert(v.deep_view() =~= seq![
                                (v.deep_view()[0].0, v.deep_view()[0].1),
                            ] + rest_dv);
                            assert(v.deep_view() =~= seq![v.deep_view()[0]] + rest_dv);
                        }
                        Some(v)
                    },
                }
            },
        }
    }
}

/// Read a directive's content as its `key: value` pairs, in written order,
/// repeated keys kept.
pub fn parse_comment(line: &str) -> (r: Result<Vec<(String, String)>, TestError>)
    ensures
        match r {
            Ok(v) => directive_pairs(line@) == Some(v.deep_view()),
            Err(e) => e == TestError::BadDirectivePair && directive_pairs(line@) is None,
        },
{
    let parts = split_char(line, ',');
    proof {
        assert(parts.deep_view().skip(0) =~= parts.deep_view());
    }
    match parse_pairs_from(&parts, 0) {
        Some(v) => Ok(v),
        None => Err(TestError::BadDirectivePair),
    }
}

/// The value of the last pair that carries the key `k`, as repeated
/// insertions into a map would leave it.
pub open spec fn kv_last(pairs: Seq<(Seq<char>, Seq<char>)>, k: Seq<char>) -> Option<Seq<char>>
    decreases pairs.len(),
{
    if pairs.len() == 0 {
        None
    } else if pairs.last().0 == k {
        Some(pairs.last().1)
    } else {
        kv_last(pairs.drop_last(), k)
    }
}

fn kv_get_upto(pairs: &Vec<(String, String)>, k: &str, j: usize) -> (r: Option<String>)
    requires
        j <= pairs.len(),
    ensures
        match r {
            Some(v) => kv_last(pairs.deep_view().take(j as int), k@) == Some(v@),
            None => kv_last(pairs.deep_view().take(j as int), k@) is None,
        },
    decreases j,
{
    if j == 0 {
        None
    } else {
        proof {
            assert(pairs.deep_view().take(j as int).last() == pairs.deep_view()[j - 1]);
            assert(pairs.deep_view().take(j as int).drop_last() =~= pairs.deep_view().take(
                j as int - 1,
            ));
        }
        if str_eq(pairs[j - 1].0.as_str(), k) {
            Some(pairs[j - 1].1.clone())
        } else {
            kv_get_upto(pairs, k, j - 1)
        }
    }
}

/// Look a key up among the pairs; of repeated keys the last wins.
pub fn kv_get(pairs: &Vec<(String, String)>, k: &str) -> (r: Option<String>)
    ensures
        match r {
            Some(v) => kv_last(pairs.deep_view(), k@) == Some(v@),
            None => kv_last(pairs.deep_view(), k@) is None,
        },
{
    let r = kv_get_upto(pairs, k, pairs.len());
    proof {
        assert(pairs.deep_view().take(pairs.len() as int) =~= pairs.deep_view());
    }
    r
}

/// Read a request line: its first token is the method, its second the URL;
/// a third token equal to `HTTP/1.1` asks for that protocol version, any
/// other third token is ignored. Fewer than two tokens is an error.
pub fn parse_req(line: &str) -> (r: Result<(String, String, bool), TestError>)
    ensures
        match r {
            Ok(t) => ws_tokens(line@).len() >= 2 && t.0@ == ws_tokens(line@)[0] && t.1@
                == ws_tokens(line@)[1] && (t.2 <==> (ws_tokens(line@).len() > 2 && ws_tokens(
                line@,
            )[2] == "HTTP/1.1"@)),
            Err(e) => e == TestError::BadRequestLine && ws_tokens(line@).len() < 2,
        },
{
    let toks = split_tokens(line);
    if toks.len() < 2 {
        return Err(TestError::BadRequestLine);
    }
    let method = toks[0].clone();
    let url = toks[1].clone();
    let version = if toks.len() > 2 {
        str_eq(toks[2].as_str(), "HTTP/1.1")
    } else {
        false
    };
    proof {
        assert(toks.deep_view()[0] == toks@[0]@);
        assert(toks.deep_view()[1] == toks@[1]@);
        if toks@.len() > 2 {
            assert(toks.deep_view()[2] == toks@[2]@);
        }
    }
    Ok((method, url, version))
}

/// Header lines from position `i` on: pairs split at the first colon, ended
/// by a blank line, which is consumed. A file that ends first yields no
/// headers at all, and the position after the end.
pub open spec fn headers_from(ls: Seq<Seq<char>>, i: int) -> Result<
    (Option<Seq<(Seq<char>, Seq<char>)>>, int),
    TestError,
>
    decreases ls.len() - i,
{
    if i < 0 || i >= ls.len() {
        Ok((None, ls.len() as int))
    } else if ls[i].len() == 0 {
        Ok((Some(Seq::empty()), i + 1))
    } else {
        match pair_of(ls[i]) {
            None => Err(TestError::BadHeaderLine),
            Some(p) => match headers_from(ls, i + 1) {
                Err(e) => Err(e),
                Ok((None, e)) => Ok((None, e)),
                Ok((Some(rest), e)) => Ok((Some(seq![p] + rest), e)),
            },
        }
    }
}

/// As `headers_from`, with a blank line reached over zero header lines
/// yielding no headers rather than an empty list.
pub open spec fn headers_result(ls: Seq<Seq<char>>, i: int) -> Result<
    (Option<Seq<(Seq<char>, Seq<char>)>>, int),
    TestError,
> {
    match headers_from(ls, i) {
        Ok((Some(hs), e)) => if hs.len() == 0 {
            Ok((None, e))
        } else {
            Ok((Some(hs), e))
        },
        other => other,
    }
}

fn parse_headers_rec(lines: &Vec<String>, i: usize) -> (r: Result<
    (Option<Vec<(String, String)>>, usize),
    TestError,
>)
    requires
        i <= lines.len(),
    ensures
        match r {
            Ok(p) => headers_from(lines.deep_view(), i as int) == Ok::<_, TestError>(
                (
                    match p.0 {
                        Some(v) => Some(v.deep_view()),
                        None => None,
                    },
                    p.1 as int,
                ),
            ) && i <= p.1 <= lines.len(),
            Err(e) => headers_from(lines.deep_view(), i as int) == Err::<
                (Option<Seq<(Seq<char>, Seq<char>)>>, int),
                _,
            >(e),
        },
    decreases lines.len() - i,
{
    let n = lines.len();
    if i == n {
        Ok((None, n))
    } else if lines[i].as_str().unicode_len() == 0 {
        proof {
            assert(lines.deep_view()[i as int] == lines@[i as int]@);
        }
        let v: Vec<(String, String)> = Vec::new();
        proof {
            assert(v.deep_view() =~= Seq::<(Seq<char>, Seq<char>)>::empty());
        }
        Ok((Some(v), i + 1))
    } else {
        proof {
            assert(lines.deep_view()[i as int] == lines@[i as int]@);
        }
        match split_pair(lines[i].as_str()) {
            None => Err(TestError::BadHeaderLine),
            Some(p) => {
                match parse_headers_rec(lines, i + 1)? {
                    (None, e) => Ok((None, e)),
                    (Some(rest), e) => {
                        let ghost rest_dv = rest.deep_view();
                        let mut v = rest;
                        v.insert(0, p);
                        proof {
                            assert(v.deep_view() =~= seq![v.deep_view()[0]] + rest_dv);
                        }
                        Ok((Some(v), e))
                    },
                }
            },
        }
    }
}

/// Read the header lines of a block, from `pos` to past their blank-line
/// terminator; zero collected headers yield `None`.
pub fn parse_headers(lines: &Vec<String>, pos: usize) -> (r: Result<
    (Option<Vec<(String, String)>>, usize),
    TestError,
>)
    requires
        pos <= lines.len(),
    ensures
        match r {
            Ok(p) => headers_result(lines.deep_view(), pos as int) == Ok::<_, TestError>(
                (
                    match p.0 {
                        Some(v) => Some(v.deep_view()),
                        None => None,
                    },
                    p.1 as int,
                ),
            ) && pos <= p.1 <= lines.len() && (p.0 matches Some(v) ==> v@.len() > 0),
            Err(e) => headers_result(lines.deep_view(), pos as int) == Err::<
                (Option<Seq<(Seq<char>, Seq<char>)>>, int),
                _,
            >(e),
        },
{
    match parse_headers_rec(lines, pos)? {
        (Some(v), e) => {
            if v.len() == 0 {
                Ok((None, e))
            } else {
                Ok((Some(v), e))
            }
        },
        (None, e) => Ok((None, e)),
    }
}

proof fn lemma_skip_ws_all_solid(s: Seq<char>)
    requires
        s.len() > 0,
        !crate::text::is_ws(s[0]),
    ensures
        crate::text::skip_ws(s) == s,
{
}

proof fn lemma_token_len_solid(t: Seq<char>, rest: Seq<char>)
    requires
        forall|k: int| 0 <= k < t.len() ==> !crate::text::is_ws(#[trigger] t[k]),
        rest.len() == 0 || crate::text::is_ws(rest[0]),
    ensures
        crate::text::token_len(t + rest) == t.len(),
    decreases t.len(),
{
    if t.len() == 0 {
        assert(t + rest =~= rest);
    } else {
        assert((t + rest).drop_first() =~= t.drop_first() + rest);
        lemma_token_len_solid(t.drop_first(), rest);
    }
}

proof fn lemma_ws_tokens_single(t: Seq<char>)
    requires
        t.len() > 0,
        forall|k: int| 0 <= k < t.len() ==> !crate::text::is_ws(#[trigger] t[k]),
    ensures
        ws_tokens(t) == seq![t],
{
    assert(t + Seq::<char>::empty() =~= t);
    lemma_token_len_solid(t, Seq::empty());
    assert(t.take(t.len() as int) =~= t);
    assert(t.skip(t.len() as int) =~= Seq::<char>::empty());
    assert(t.skip(t.len() as int).len() == 0);
    assert(ws_tokens(t.skip(t.len() as int)) == Seq::<Seq<char>>::empty());
    assert(ws_tokens(t) =~= seq![t]);
}

/// Writing a method and a URL on one line with a space between them and
/// splitting that line back into tokens returns exactly the method and the
/// URL: what was written is what parsing yields.
pub proof fn lemma_request_line_round_trip(m: Seq<char>, u: Seq<char>)
    requires
        m.len() > 0,
        u.len() > 0,
        forall|k: int| 0 <= k < m.len() ==> !crate::text::is_ws(#[trigger] m[k]),
        forall|k: int| 0 <= k < u.len() ==> !crate::text::is_ws(#[trigger] u[k]),
    ensures
        ws_tokens(m + seq![' '] + u) == seq![m, u],
{
    let line = m + seq![' '] + u;
    assert(line[0] == m[0]);
    lemma_skip_ws_all_solid(line);
    assert(seq![' '] + u =~= (m + (seq![' '] + u)).skip(m.len() as int));
    assert(line =~= m + (seq![' '] + u));
    lemma_token_len_solid(m, seq![' '] + u);
    assert(crate::text::token_len(line) == m.len());
    assert(line.take(m.len() as int) =~= m);
    let rest = line.skip(m.len() as int);
    assert(rest =~= seq![' '] + u);
    assert(crate::text::is_ws(rest[0]));
    assert(rest.drop_first() =~= u);
    lemma_ws_tokens_single(u);
    assert(ws_tokens(rest) == ws_tokens(u));
    assert(ws_tokens(line) =~= seq![m] + ws_tokens(rest));
    assert(seq![m] + seq![u] =~= seq![m, u]);
}

/// Where a block's JSON body ends: the first line from `i` on that starts
/// with a hash, or the end of the file.
pub open spec fn body_end(ls: Seq<Seq<char>>, i: int) -> int
    decreases ls.len() - i,
{
    if i < 0 || i >= ls.len() {
        ls.len() as int
    } else if has_prefix(ls[i], "#"@) {
        i
    } else {
        body_end(ls, i + 1)
    }
}

/// A block's body from position `i` on: the lines before the next hash
/// line, written out without separators and read as JSON. No lines mean no
/// body; text that is not JSON is an error.
pub open spec fn body_result(ls: Seq<Seq<char>>, i: int) -> Result<
    (Option<JsonSpec>, int),
    TestError,
> {
    let e = body_end(ls, i);
    if e == i {
        Ok((None, e))
    } else {
        match json_of(concat_all(ls.subrange(i, e))) {
            Some(v) => Ok((Some(v), e)),
            None => Err(TestError::BadJson),
        }
    }
}

fn body_end_exec(lines: &Vec<String>, i: usize) -> (r: usize)
    requires
        i <= lines.len(),
    ensures
        r == body_end(lines.deep_view(), i as int),
        i <= r <= lines.len(),
    decreases lines.len() - i,
{
    if i == lines.len() {
        i
    } else {
        proof {
            assert(lines.deep_view()[i as int] == lines@[i as int]@);
        }
        if starts_with(lines[i].as_str(), "#") {
            i
        } else {
            body_end_exec(lines, i + 1)
        }
    }
}

/// Read a block's JSON body, if it has one, and say where the block ends.
pub fn parse_json_data(lines: &Vec<String>, pos: usize) -> (r: Result<
    (Option<JsonValue>, usize),
    TestError,
>)
    requires
        pos <= lines.len(),
    ensures
        match r {
            Ok(p) => body_result(lines.deep_view(), pos as int) == Ok::<_, TestError>(
                (
                    match p.0 {
                        Some(v) => Some(v@),
                        None => None,
                    },
                    p.1 as int,
                ),
            ) && pos <= p.1 <= lines.len(),
            Err(e) => body_result(lines.deep_view(), pos as int) == Err::<
                (Option<JsonSpec>, int),
                _,
            >(e),
        },
{
    let e = body_end_exec(lines, pos);
    if e == pos {
        return Ok((None, e));
    }
    let joined = join_range(lines, pos, e);
    match parse_json(joined.as_str()) {
        Some(v) => Ok((Some(v), e)),
        None => Err(TestError::BadJson),
    }
}

/// The kind of comparison a block asks for.
#[derive(Debug, Clone, Copy, PartialEq, Eq, Structural)]
pub enum ResultType {
    Json,
    Xml,
    Unspecified,
}

/// The comparison kind a `result_type` value names: only the words `json`
/// and `xml` mean anything.
pub open spec fn result_type_of(v: Option<Seq<char>>) -> ResultType {
    match v {
        Some(s) => if s == "json"@ {
            ResultType::Json
        } else if s == "xml"@ {
            ResultType::Xml
        } else {
            ResultType::Unspecified
        },
        None => ResultType::Unspecified,
    }
}

/// One block of a spec file, ready to run: the request to make and what to
/// hold the response against.
#[derive(Debug)]
pub struct TestRequest {
    pub id: Option<usize>,
    pub status: Option<String>,
    pub method: String,
    pub url: String,
    pub host: String,
    pub port: Option<u16>,
    pub authority: String,
    pub http11: bool,
    pub json_data: Option<JsonValue>,
    pub headers: Option<Vec<(String, String)>>,
    pub expected_result: (ResultType, String),
}

/// A test case as contracts speak of it.
pub struct ReqSpec {
    pub id: Option<usize>,
    pub status: Option<Seq<char>>,
    pub method: Seq<char>,
    pub url: Seq<char>,
    pub host: Seq<char>,
    pub port: Option<u16>,
    pub authority: Seq<char>,
    pub http11: bool,
    pub json_data: Option<JsonSpec>,
    pub headers: Option<Seq<(Seq<char>, Seq<char>)>>,
    pub result_type: ResultType,
    pub result_path: Seq<char>,
}

impl View for TestRequest {
    type V = ReqSpec;

    open spec fn view(&self) -> ReqSpec {
        ReqSpec {
            id: self.id,
            status: match self.status {
                Some(s) => Some(s@),
                None => None,
            },
            method: self.method@,
            url: self.url@,
            host: self.host@,
            port: self.port,
            authority: self.authority@,
            http11: self.http11,
            json_data: match self.json_data {
                Some(v) => Some(v@),
                None => None,
            },
            headers: match self.headers {
                Some(h) => Some(h.deep_view()),
                None => None,
            },
            result_type: self.expected_result.0,
            result_path: self.expected_result.1@,
        }
    }
}

impl DeepView for TestRequest {
    type V = ReqSpec;

    open spec fn deep_view(&self) -> ReqSpec {
        self.view()
    }
}

/// What one block of the spec file means, read at line `i`: the test case
/// and the line the next block starts at, or the first error. `entries`
/// is the listing of the directory that holds the spec file, if that
/// directory could be listed; `dir` is its path.
pub open spec fn block_spec(
    ls: Seq<Seq<char>>,
    i: int,
    entries: Option<Seq<Seq<char>>>,
    dir: Seq<char>,
) -> Result<(ReqSpec, int), TestError> {
    if !(0 <= i < ls.len() && has_prefix(ls[i], "###"@)) {
        Err(TestError::UnexpectedStart)
    } else {
        match directive_pairs(trim_of(ls[i].skip(3))) {
            None => Err(TestError::BadDirectivePair),
            Some(pairs) => {
                if i + 1 >= ls.len() {
                    Err(TestError::MissingRequestLine)
                } else {
                    let toks = ws_tokens(ls[i + 1]);
                    if toks.len() < 2 {
                        Err(TestError::BadRequestLine)
                    } else {
                        match headers_result(ls, i + 2) {
                            Err(e) => Err(e),
                            Ok((headers, hp)) => match body_result(ls, hp) {
                                Err(e) => Err(e),
                                Ok((body, bp)) => block_fields(
                                    pairs,
                                    toks,
                                    headers,
                                    body,
                                    bp,
                                    entries,
                                    dir,
                                ),
                            },
                        }
                    }
                }
            }
        }
    }
}

/// The fields of a parsed block, once its lines are read: the id, the
/// fixture path and the URL parts may each still fail.
pub open spec fn block_fields(
    pairs: Seq<(Seq<char>, Seq<char>)>,
    toks: Seq<Seq<char>>,
    headers: Option<Seq<(Seq<char>, Seq<char>)>>,
    body: Option<JsonSpec>,
    bp: int,
    entries: Option<Seq<Seq<char>>>,
    dir: Seq<char>,
) -> Result<(ReqSpec, int), TestError> {
    let idr = match kv_last(pairs, "id"@) {
        Some(t) => if is_dec(t) && dec_val(t) <= usize::MAX {
            Ok(Some(dec_val(t) as usize))
        } else {
            Err(TestError::BadId)
        },
        None => Ok(None),
    };
    match idr {
        Err(e) => Err(e),
        Ok(id) => {
            let rp = match kv_last(pairs, "result_path"@) {
                Some(p) => Ok(p),
                None => match (id, entries) {
                    (Some(idv), Some(ent)) => match best_entry(ent, idv as nat) {
                        Some(e) => Ok(dir + "/"@ + e),
                        None => Err(TestError::NoOutputResult),
                    },
                    _ => Err(TestError::NoOutputResult),
                },
            };
            match rp {
                Err(e) => Err(e),
                Ok(path) => match url_parts_of(toks[1]) {
                    None => Err(TestError::BadUrl),
                    Some(parts) => Ok(
                        (
                            ReqSpec {
                                id,
                                status: kv_last(pairs, "status"@),
                                method: toks[0],
                                url: toks[1],
                                host: parts.0,
                                port: parts.1,
                                authority: parts.2,
                                http11: toks.len() > 2 && toks[2] == "HTTP/1.1"@,
                                json_data: body,
                                headers,
                                result_type: result_type_of(kv_last(pairs, "result_type"@)),
                                result_path: path,
                            },
                            bp,
                        ),
                    ),
                },
            }
        },
    }
}

/// The listing handed in beside a spec file, as contracts see it.
pub open spec fn entries_view(entries: &Option<Vec<String>>) -> Option<Seq<Seq<char>>> {
    match entries {
        Some(v) => Some(v.deep_view()),
        None => None,
    }
}

/// Read one block of the spec file, starting at its directive line.
pub fn parse_http(
    lines: &Vec<String>,
    pos: usize,
    entries: &Option<Vec<String>>,
    dir: &str,
) -> (r: Result<(TestRequest, usize), TestError>)
    requires
        pos < lines.len(),
    ensures
        match r {
            Ok(p) => block_spec(lines.deep_view(), pos as int, entries_view(entries), dir@)
                == Ok::<_, TestError>((p.0@, p.1 as int)) && pos < p.1 <= lines.len(),
            Err(e) => block_spec(lines.deep_view(), pos as int, entries_view(entries), dir@)
                == Err::<(ReqSpec, int), _>(e),
        },
{
    let line = &lines[pos];
    proof {
        assert(lines.deep_view()[pos as int] == lines@[pos as int]@);
        reveal_strlit("###");
    }
    let n = line.as_str().unicode_len();
    if !starts_with(line.as_str(), "###") {
        return Err(TestError::UnexpectedStart);
    }
    let content_raw = line.as_str().substring_char(3, n);
    proof {
        assert(line@.skip(3) =~= line@.subrange(3, n as int));
    }
    let content = trim(content_raw);
    let pairs = match parse_comment(content) {
        Ok(p) => p,
        Err(e) => {
            return Err(e);
        },
    };
    if pos + 1 >= lines.len() {
        return Err(TestError::MissingRequestLine);
    }
    proof {
        assert(lines.deep_view()[pos as int + 1] == lines@[pos as int + 1]@);
    }
    let req = match parse_req(lines[pos + 1].as_str()) {
        Ok(t) => t,
        Err(e) => {
            return Err(e);
        },
    };
    let (headers, hpos) = match parse_headers(lines, pos + 2) {
        Ok(p) => p,
        Err(e) => {
            return Err(e);
        },
    };
    let (json_data, bpos) = match parse_json_data(lines, hpos) {
        Ok(p) => p,
        Err(e) => {
            return Err(e);
        },
    };
    let id: Option<usize> = match kv_get(&pairs, "id") {
        Some(t) => match parse_usize(t.as_str()) {
            Some(v) => Some(v),
            None => {
                return Err(TestError::BadId);
            },
        },
        None => None,
    };
    let status = kv_get(&pairs, "status");
    let result_type = match kv_get(&pairs, "result_type") {
        Some(t) => {
            if str_eq(t.as_str(), "json") {
                ResultType::Json
            } else if str_eq(t.as_str(), "xml") {
                ResultType::Xml
            } else {
                ResultType::Unspecified
            }
        },
        None => ResultType::Unspecified,
    };
    let result_path: String = match kv_get(&pairs, "result_path") {
        Some(p) => p,
        None => {
            let idv = match id {
                Some(v) => v,
                None => {
                    return Err(TestError::NoOutputResult);
                },
            };
            let ents = match entries {
                Some(v) => v,
                None => {
                    return Err(TestError::NoOutputResult);
                },
            };
            match resolve_fixture(ents, idv) {
                Some(e) => {
                    let mut s = String::from_str(dir);
                    s.append("/");
                    s.append(e.as_str());
                    s
                },
                None => {
                    return Err(TestError::NoOutputResult);
                },
            }
        },
    };
    let parts = match split_url(req.1.as_str()) {
        Some(p) => p,
        None => {
            return Err(TestError::BadUrl);
        },
    };
    let out = TestRequest {
        id,
        status,
        method: req.0,
        url: req.1,
        host: parts.0,
        port: parts.1,
        authority: parts.2,
        http11: req.2,
        json_data,
        headers,
        expected_result: (result_type, result_path),
    };
    proof {
        let ldv = lines.deep_view();
        let i = pos as int;
        let prs = pairs.deep_view();
        assert(directive_pairs(trim_of(ldv[i].skip(3))) == Some(prs));
        let toks = ws_tokens(ldv[i + 1]);
        assert(headers_result(ldv, i + 2) == Ok::<_, TestError>(
            (
                match headers {
                    Some(v) => Some(v.deep_view()),
                    None => None,
                },
                hpos as int,
            ),
        ));
        assert(body_result(ldv, hpos as int) == Ok::<_, TestError>(
            (
                match json_data {
                    Some(v) => Some(v@),
                    None => None,
                },
                bpos as int,
            ),
        ));
        assert(block_fields(
            prs,
            toks,
            out@.headers,
            out@.json_data,
            bpos as int,
            entries_view(entries),
            dir@,
        ) == Ok::<_, TestError>((out@, bpos as int)));
    }
    Ok((out, bpos))
}

/// All blocks of a spec file from line `i` on, in order; free comment
/// lines (`# ` at the top level) are passed over, anything else must open
/// a block.
pub open spec fn blocks_spec(
    ls: Seq<Seq<char>>,
    i: int,
    entries: Option<Seq<Seq<char>>>,
    dir: Seq<char>,
) -> Result<Seq<ReqSpec>, TestError>
    decreases ls.len() - i,
{
    if i < 0 || i >= ls.len() {
        Ok(Seq::empty())
    } else if has_prefix(ls[i], "# "@) {
        blocks_spec(ls, i + 1, entries, dir)
    } else {
        match block_spec(ls, i, entries, dir) {
            Err(e) => Err(e),
            Ok((t, np)) => if i < np <= ls.len() {
                match blocks_spec(ls, np, entries, dir) {
                    Err(e) => Err(e),
                    Ok(rest) => Ok(seq![t] + rest),
                }
            } else {
                Err(TestError::UnexpectedStart)
            },
        }
    }
}

/// The lines of the spec file's text: split at every newline, text after
/// the last newline making no extra empty line, each line trimmed of
/// surrounding whitespace.
pub open spec fn lines_of(text: Seq<char>) -> Seq<Seq<char>> {
    let raw = split_ch(text, '\n');
    let parts = if raw.len() > 0 && raw.last().len() == 0 {
        raw.drop_last()
    } else {
        raw
    };
    Seq::new(parts.len(), |i: int| if 0 <= i < parts.len() {
        trim_of(parts[i])
    } else {
        Seq::empty()
    })
}

fn split_lines(content: &str) -> (r: Vec<String>)
    ensures
        r.deep_view() == lines_of(content@),
{
    let mut parts = split_char(content, '\n');
    if parts.len() > 0 && parts[parts.len() - 1].as_str().unicode_len() == 0 {
        proof {
            assert(parts.deep_view().last() == parts@[parts@.len() - 1]@);
        }
        let ghost pre = parts.deep_view();
        parts.pop();
        proof {
            assert(parts.deep_view() =~= pre.drop_last());
        }
    }
    let ghost kept = parts.deep_view();
    proof {
        let raw = split_ch(content@, '\n');
        assert(lines_of(content@) == Seq::new(kept.len(), |i: int| if 0 <= i < kept.len() {
            trim_of(kept[i])
        } else {
            Seq::empty()
        }));
    }
    let n = parts.len();
    let mut out: Vec<String> = Vec::new();
    let mut i: usize = 0;
    while i < n
        invariant
            i <= n,
            n == parts.deep_view().len(),
            parts.deep_view() == kept,
            lines_of(content@) == Seq::new(kept.len(), |i: int| if 0 <= i < kept.len() {
                trim_of(kept[i])
            } else {
                Seq::empty()
            }),
            out.deep_view().len() == i,
            forall|k: int|
                0 <= k < i ==> out.deep_view()[k] == trim_of(#[trigger] parts.deep_view()[k]),
        decreases n - i,
    {
        proof {
            assert(parts.deep_view()[i as int] == parts@[i as int]@);
        }
        let t = String::from_str(trim(parts[i].as_str()));
        out.push(t);
        i += 1;
    }
    proof {
        assert(out.deep_view() =~= lines_of(content@));
    }
    out
}

/// What a whole spec file means: its file name must end in `http` after
/// the first dot, and its text is a sequence of blocks. `dir` is the path
/// of the directory that holds the file, `entries` that directory's
/// listing, if it could be read.
pub open spec fn file_spec(
    path: Seq<char>,
    text: Seq<char>,
    dir: Seq<char>,
    entries: Option<Seq<Seq<char>>>,
) -> Result<Seq<ReqSpec>, TestError> {
    match find_ch(path, '.') {
        None => Err(TestError::BadFileSuffix),
        Some(d) => if path.skip(d + 1) != "http"@ {
            Err(TestError::BadFileSuffix)
        } else {
            blocks_spec(lines_of(text), 0, entries, dir)
        },
    }
}

impl TestRequest {
    /// Read a whole spec file, handed its path, its text, the path of the
    /// directory that holds it, and that directory's listing where it
    /// could be read.
    pub fn parse_http_file(
        path: &str,
        content: &str,
        dir: &str,
        entries: &Option<Vec<String>>,
    ) -> (r: Result<Vec<TestRequest>, TestError>)
        ensures
            match r {
                Ok(v) => file_spec(path@, content@, dir@, entries_view(entries)) == Ok::<
                    _,
                    TestError,
                >(v.deep_view()),
                Err(e) => file_spec(path@, content@, dir@, entries_view(entries)) == Err::<
                    Seq<ReqSpec>,
                    _,
                >(e),
            },
    {
        let n = path.unicode_len();
        let d = match find_char(path, '.') {
            Some(d) => d,
            None => {
                return Err(TestError::BadFileSuffix);
            },
        };
        let suffix = path.substring_char(d + 1, n);
        proof {
            assert(path@.skip(d as int + 1) =~= path@.subrange(d as int + 1, n as int));
        }
        if !str_eq(suffix, "http") {
            return Err(TestError::BadFileSuffix);
        }
        let lines = split_lines(content);
        let ghost ldv = lines.deep_view();
        let mut result: Vec<TestRequest> = Vec::new();
        let mut pos: usize = 0;
        while pos < lines.len()
            invariant
                pos <= lines.len(),
                ldv == lines.deep_view(),
                ldv == lines_of(content@),
                file_spec(path@, content@, dir@, entries_view(entries)) == blocks_spec(
                    ldv,
                    0,
                    entries_view(entries),
                    dir@,
                ),
                blocks_spec(ldv, 0, entries_view(entries), dir@) == (match blocks_spec(
                    ldv,
                    pos as int,
                    entries_view(entries),
                    dir@,
                ) {
                    Ok(rs) => Ok::<_, TestError>(result.deep_view() + rs),
                    Err(e) => Err(e),
                }),
            decreases lines.len() - pos,
        {
            proof {
                assert(ldv[pos as int] == lines@[pos as int]@);
            }
            if starts_with(lines[pos].as_str(), "# ") {
                pos += 1;
            } else {
                let ghost old_result = result.deep_view();
                let ghost old_pos = pos as int;
                let (t, np) = match parse_http(&lines, pos, entries, dir) {
                    Ok(p) => p,
                    Err(e) => {
                        return Err(e);
                    },
                };
                result.push(t);
                pos = np;
                proof {
                    assert(result.deep_view() =~= old_result.push(t@));
                    match blocks_spec(ldv, pos as int, entries_view(entries), dir@) {
                        Ok(rs) => {
                            assert(blocks_spec(ldv, old_pos, entries_view(entries), dir@)
                                == Ok::<_, TestError>(seq![t@] + rs));
                            assert(old_result + (seq![t@] + rs) =~= result.deep_view() + rs);
                        },
                        Err(e) => {
                            assert(blocks_spec(ldv, old_pos, entries_view(entries), dir@)
                                == Err::<Seq<ReqSpec>, TestError>(e));
                        },
                    }
                }
            }
        }
        proof {
            assert(blocks_spec(ldv, pos as int, entries_view(entries), dir@) == Ok::<
                _,
                TestError,
            >(Seq::<ReqSpec>::empty()));
            assert(result.deep_view() + Seq::<ReqSpec>::empty() =~= result.deep_view());
        }
        Ok(result)
    }
}

} // verus!
