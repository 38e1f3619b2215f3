//! HTTP/1.1 request and response headers: parsing and formatting.
//!
//! A header block is a sequence of CRLF-terminated lines. The first
//! non-empty line is the start-line (split on single spaces); every other
//! non-empty line is a `key: value` pair, split at its first `": "`; a
//! non-empty line without that separator is a hard error. Keys are
//! case-sensitive. Empty lines are ignored.
use vstd::prelude::*;
use vstd::string::StringExecFns;

use crate::error::WsError;

verus! {

/// The first index at or after `from` holding `c`, or the length of `s`.
pub open spec fn index_of_char(s: Seq<char>, c: char, from: int) -> int
    recommends
        0 <= from <= s.len(),
    decreases s.len() - from,
{
    if from < 0 || from >= s.len() {
        s.len() as int
    } else if s[from] == c {
        from
    } else {
        index_of_char(s, c, from + 1)
    }
}

/// The result of `index_of_char` lies between `from` and the length, a
/// found position holds `c`, and nothing before it does.
pub proof fn lemma_index_of_char(s: Seq<char>, c: char, from: int)
    requires
        0 <= from <= s.len(),
    ensures
        from <= index_of_char(s, c, from) <= s.len(),
        index_of_char(s, c, from) < s.len() ==> s[index_of_char(s, c, from)] == c,
        forall|j: int| from <= j < index_of_char(s, c, from) ==> s[j] != c,
    decreases s.len() - from,
{
    if from < s.len() && s[from] != c {
        lemma_index_of_char(s, c, from + 1);
    }
}

/// The first index at or after `from` where the two-character separator
/// `": "` begins, or the length of `s` when it does not occur.
pub open spec fn index_of_sep(s: Seq<char>, from: int) -> int
    recommends
        0 <= from,
    decreases s.len() - from,
{
    if from < 0 || from + 1 >= s.len() {
        s.len() as int
    } else if s[from] == ':' && s[from + 1] == ' ' {
        from
    } else {
        index_of_sep(s, from + 1)
    }
}

/// A line with its trailing carriage return removed.
pub open spec fn strip_cr(l: Seq<char>) -> Seq<char> {
    if l.len() > 0 && l[l.len() - 1] == '\r' {
        l.drop_last()
    } else {
        l
    }
}

/// The lines of `s`: pieces split at `'\n'`, each with a trailing `'\r'`
/// removed, with no empty piece after a final newline.
pub open spec fn split_lines(s: Seq<char>) -> Seq<Seq<char>>
    decreases s.len(),
    via split_lines_decreases
{
    if s.len() == 0 {
        seq![]
    } else {
        let i = index_of_char(s, '\n', 0);
        if i == s.len() {
            seq![strip_cr(s)]
        } else {
            seq![strip_cr(s.take(i))] + split_lines(s.skip(i + 1))
        }
    }
}

#[via_fn]
proof fn split_lines_decreases(s: Seq<char>) {
    if s.len() != 0 {
        lemma_index_of_char(s, '\n', 0);
    }
}

/// The mathematical value of a request header.
#[verifier::ext_equal]
pub ghost struct ReqView {
    pub method: Seq<char>,
    pub route: Seq<char>,
    pub protocol: Seq<char>,
    pub headers: Seq<(Seq<char>, Seq<char>)>,
}

/// The mathematical value of a response header.
#[verifier::ext_equal]
pub ghost struct RespView {
    pub protocol: Seq<char>,
    pub status: Seq<char>,
    pub headers: Seq<(Seq<char>, Seq<char>)>,
}

/// The position of `k` among the keys, or the length when it is absent.
pub open spec fn key_index(hs: Seq<(Seq<char>, Seq<char>)>, k: Seq<char>) -> int
    decreases hs.len(),
{
    if hs.len() == 0 {
        0
    } else if hs[0].0 == k {
        0
    } else {
        1 + key_index(hs.skip(1), k)
    }
}

/// `key_index` is in range; a position within range holds `k`, earlier
/// positions do not, and an out-of-range result means `k` is absent.
pub proof fn lemma_key_index(hs: Seq<(Seq<char>, Seq<char>)>, k: Seq<char>)
    ensures
        0 <= key_index(hs, k) <= hs.len(),
        key_index(hs, k) < hs.len() ==> hs[key_index(hs, k)].0 == k,
        forall|j: int| 0 <= j < key_index(hs, k) && j < hs.len() ==> hs[j].0 != k,
    decreases hs.len(),
{
    if hs.len() > 0 && hs[0].0 != k {
        lemma_key_index(hs.skip(1), k);
        assert forall|j: int| 0 <= j < key_index(hs, k) && j < hs.len() implies hs[j].0 != k by {
            if j > 0 {
                assert(hs.skip(1)[j - 1] == hs[j]);
            }
        }
    }
}

/// Insert `k: v`: replace the value where `k` already stands, else append.
pub open spec fn insert_pair(hs: Seq<(Seq<char>, Seq<char>)>, k: Seq<char>, v: Seq<char>) -> Seq<
    (Seq<char>, Seq<char>),
> {
    let i = key_index(hs, k);
    if i < hs.len() {
        hs.update(i, (k, v))
    } else {
        hs.push((k, v))
    }
}

/// The default request start-line fields: `GET / HTTP/1.1`.
pub open spec fn default_req() -> ReqView {
    ReqView {
        method: seq!['G', 'E', 'T'],
        route: seq!['/'],
        protocol: seq!['H', 'T', 'T', 'P', '/', '1', '.', '1'],
        headers: seq![],
    }
}

/// The default response start-line fields: `HTTP/1.1 101 Switching Protocols`.
pub open spec fn default_resp() -> RespView {
    RespView {
        protocol: seq!['H', 'T', 'T', 'P', '/', '1', '.', '1'],
        status: seq![
            '1',
            '0',
            '1',
            ' ',
            'S',
            'w',
            'i',
            't',
            'c',
            'h',
            'i',
            'n',
            'g',
            ' ',
            'P',
            'r',
            'o',
            't',
            'o',
            'c',
            'o',
            'l',
            's',
        ],
        headers: seq![],
    }
}

/// The start-line fields read from `l`, split on single spaces: up to
/// three words become method, route and protocol; missing words leave the
/// fields of `hdr` standing; extra words are ignored.
pub open spec fn req_start_fields(l: Seq<char>, hdr: ReqView) -> ReqView {
    let i0 = index_of_char(l, ' ', 0);
    if i0 == l.len() {
        ReqView { method: l.take(i0), ..hdr }
    } else {
        let i1 = index_of_char(l, ' ', i0 + 1);
        if i1 == l.len() {
            ReqView { method: l.take(i0), route: l.subrange(i0 + 1, i1), ..hdr }
        } else {
            let i2 = index_of_char(l, ' ', i1 + 1);
            ReqView {
                method: l.take(i0),
                route: l.subrange(i0 + 1, i1),
                protocol: l.subrange(i1 + 1, i2),
                ..hdr
            }
        }
    }
}

/// The response start line split at its first space into protocol and
/// status; a line without a space is malformed.
pub open spec fn resp_start_fields(l: Seq<char>, hdr: RespView) -> Option<RespView> {
    let i0 = index_of_char(l, ' ', 0);
    if i0 == l.len() {
        None
    } else {
        Some(RespView { protocol: l.take(i0), status: l.skip(i0 + 1), ..hdr })
    }
}

/// Process request lines in order: empty lines are skipped, the first
/// non-empty line sets the start fields, and each later non-empty line
/// must carry `": "` and is inserted as a header pair.
pub open spec fn req_parse_lines(lines: Seq<Seq<char>>, seen_start: bool, hdr: ReqView) -> Option<
    ReqView,
>
    decreases lines.len(),
{
    if lines.len() == 0 {
        Some(hdr)
    } else {
        let l = lines[0];
        let rest = lines.skip(1);
        if l.len() == 0 {
            req_parse_lines(rest, seen_start, hdr)
        } else if !seen_start {
            req_parse_lines(rest, true, req_start_fields(l, hdr))
        } else {
            let i = index_of_sep(l, 0);
            if i == l.len() {
                None
            } else {
                req_parse_lines(
                    rest,
                    true,
                    ReqView { headers: insert_pair(hdr.headers, l.take(i), l.skip(i + 2)), ..hdr },
                )
            }
        }
    }
}

/// Process response lines in order, like `req_parse_lines`; the start
/// line must carry a space.
pub open spec fn resp_parse_lines(lines: Seq<Seq<char>>, seen_start: bool, hdr: RespView) -> Option<
    RespView,
>
    decreases lines.len(),
{
    if lines.len() == 0 {
        Some(hdr)
    } else {
        let l = lines[0];
        let rest = lines.skip(1);
        if l.len() == 0 {
            resp_parse_lines(rest, seen_start, hdr)
        } else if !seen_start {
            match resp_start_fields(l, hdr) {
                Some(h) => resp_parse_lines(rest, true, h),
                None => None,
            }
        } else {
            let i = index_of_sep(l, 0);
            if i == l.len() {
                None
            } else {
                resp_parse_lines(
                    rest,
                    true,
                    RespView { headers: insert_pair(hdr.headers, l.take(i), l.skip(i + 2)), ..hdr },
                )
            }
        }
    }
}

/// Parse a request header block, starting from the default fields.
pub open spec fn spec_parse_request(s: Seq<char>) -> Option<ReqView> {
    req_parse_lines(split_lines(s), false, default_req())
}

/// Parse a response header block, starting from the default fields.
pub open spec fn spec_parse_response(s: Seq<char>) -> Option<RespView> {
    resp_parse_lines(split_lines(s), false, default_resp())
}

/// The header pairs rendered as `key: value` lines, CRLF-terminated.
pub open spec fn header_block(hs: Seq<(Seq<char>, Seq<char>)>) -> Seq<char>
    decreases hs.len(),
{
    if hs.len() == 0 {
        Seq::empty()
    } else {
        hs[0].0 + seq![':', ' '] + hs[0].1 + seq!['\r', '\n'] + header_block(hs.skip(1))
    }
}

/// The serialized request: the start-line, then the header lines.
pub open spec fn spec_format_request(h: ReqView) -> Seq<char> {
    h.method + seq![' '] + h.route + seq![' '] + h.protocol + seq!['\r', '\n'] + header_block(
        h.headers,
    )
}

/// The serialized response: the start-line, the header lines, and the
/// terminating blank line.
pub open spec fn spec_format_response(h: RespView) -> Seq<char> {
    h.protocol + seq![' '] + h.status + seq!['\r', '\n'] + header_block(h.headers) + seq![
        '\r',
        '\n',
    ]
}

/// Whether two strings hold the same characters.
fn str_equal(a: &str, b: &str) -> (r: bool)
    ensures
        r == (a@ == b@),
{
    let n = a.unicode_len();
    if n != b.unicode_len() {
        return false;
    }
    let mut i: usize = 0;
    while i < n
        invariant
            i <= n,
            n == a@.len(),
            n == b@.len(),
            forall|j: int| 0 <= j < i ==> a@[j] == b@[j],
        decreases n - i,
    {
        if a.get_char(i) != b.get_char(i) {
            return false;
        }
        i += 1;
    }
    proof {
        assert(a@ =~= b@);
    }
    true
}

/// The first position of `c` in `s` at or after `from`, or the length.
fn find_char(s: &str, c: char, from: usize) -> (r: usize)
    requires
        from <= s@.len(),
    ensures
        r == index_of_char(s@, c, from as int),
        from <= r <= s@.len(),
        r < s@.len() ==> s@[r as int] == c,
{
    let n = s.unicode_len();
    let mut i = from;
    while i < n
        invariant
            from <= i <= n,
            n == s@.len(),
            index_of_char(s@, c, from as int) == index_of_char(s@, c, i as int),
        decreases n - i,
    {
        if s.get_char(i) == c {
            return i;
        }
        i += 1;
    }
    i
}

/// The first position where `": "` begins in `s`, or the length.
fn find_sep(s: &str) -> (r: usize)
    ensures
        r == index_of_sep(s@, 0),
        r <= s@.len(),
        r < s@.len() ==> r + 2 <= s@.len() && s@[r as int] == ':' && s@[r as int + 1] == ' ',
{
    let n = s.unicode_len();
    if n == 0 {
        return 0;
    }
    let mut i: usize = 0;
    while i < n - 1
        invariant
            i <= n,
            1 <= n == s@.len(),
            index_of_sep(s@, 0) == index_of_sep(s@, i as int),
        decreases n - i,
    {
        if s.get_char(i) == ':' && s.get_char(i + 1) == ' ' {
            return i;
        }
        i += 1;
    }
    n
}

/// Interior lines of `header_block`, one header pair at a time: taking
/// one more pair appends exactly its rendered line.
proof fn lemma_header_block_snoc(hs: Seq<(Seq<char>, Seq<char>)>, j: int)
    requires
        0 <= j < hs.len(),
    ensures
        header_block(hs.take(j + 1)) == header_block(hs.take(j)) + hs[j].0 + seq![':', ' ']
            + hs[j].1 + seq!['\r', '\n'],
    decreases j,
{
    if j == 0 {
        assert(hs.take(0) =~= Seq::<(Seq<char>, Seq<char>)>::empty());
        assert(hs.take(1)[0] == hs[0]);
        assert(hs.take(1).skip(1) =~= Seq::<(Seq<char>, Seq<char>)>::empty());
        assert(header_block(hs.take(1)) =~= header_block(hs.take(0)) + hs[0].0 + seq![':', ' ']
            + hs[0].1 + seq!['\r', '\n']);
    } else {
        lemma_header_block_snoc(hs.skip(1), j - 1);
        assert(hs.take(j + 1)[0] == hs[0]);
        assert(hs.take(j)[0] == hs[0]);
        assert(hs.take(j + 1).skip(1) =~= hs.skip(1).take(j));
        assert(hs.take(j).skip(1) =~= hs.skip(1).take(j - 1));
        assert(hs.skip(1)[j - 1] == hs[j]);
        assert(header_block(hs.take(j + 1)) =~= header_block(hs.take(j)) + hs[j].0 + seq![':', ' ']
            + hs[j].1 + seq!['\r', '\n']);
    }
}

/// `index_of_char` on a suffix finds the same position, shifted.
proof fn lemma_index_of_char_shift(s: Seq<char>, c: char, p: int, from: int)
    requires
        0 <= p <= s.len(),
        p <= from <= s.len(),
    ensures
        index_of_char(s.skip(p), c, from - p) == index_of_char(s, c, from) - p,
    decreases s.len() - from,
{
    if from < s.len() {
        assert(s.skip(p)[from - p] == s[from]);
        if s[from] != c {
            lemma_index_of_char_shift(s, c, p, from + 1);
        }
    }
}

/// An HTTP request header: start-line fields and the header pairs, in
/// order of first appearance.
#[derive(Debug, PartialEq)]
pub struct RequestHeader {
    method: String,
    route: String,
    protocol: String,
    data: Vec<(String, String)>,
}

impl View for RequestHeader {
    type V = ReqView;

    closed spec fn view(&self) -> ReqView {
        ReqView {
            method: self.method@,
            route: self.route@,
            protocol: self.protocol@,
            headers: Seq::new(self.data@.len(), |i: int| (self.data@[i].0@, self.data@[i].1@)),
        }
    }
}

impl RequestHeader {
    /// A request header with the default start-line and no header pairs.
    fn new() -> (r: Self)
        ensures
            r@ == default_req(),
    {
        let r = RequestHeader {
            method: "GET".to_owned(),
            route: "/".to_owned(),
            protocol: "HTTP/1.1".to_owned(),
            data: Vec::new(),
        };
        proof {
            reveal_strlit("GET");
            reveal_strlit("/");
            reveal_strlit("HTTP/1.1");
            assert(r@ =~= default_req());
        }
        r
    }

    /// Parse a request header block; a non-empty line after the start
    /// line without `": "` is a handshake error.
    pub fn from(s: &str) -> (r: Result<Self, WsError>)
        ensures
            r is Ok <==> spec_parse_request(s@) is Some,
            r matches Ok(h) ==> Some(h@) == spec_parse_request(s@),
            r matches Err(e) ==> e == WsError::HandshakeError,
    {
        Self::__from_internal(s)
    }

    /// The value stored under `key`, if any.
    pub fn get(&self, key: &str) -> (r: Option<&String>)
        ensures
            r is Some <==> key_index(self@.headers, key@) < self@.headers.len(),
            r matches Some(v) ==> v@ == self@.headers[key_index(self@.headers, key@)].1,
    {
        proof {
            lemma_key_index(self@.headers, key@);
        }
        let n = self.data.len();
        let mut j: usize = 0;
        while j < n
            invariant
                j <= n,
                n == self.data@.len(),
                n == self@.headers.len(),
                forall|i: int| 0 <= i < j ==> self@.headers[i].0 != key@,
            decreases n - j,
        {
            let pair = &self.data[j];
            if str_equal(pair.0.as_str(), key) {
                proof {
                    lemma_key_index(self@.headers, key@);
                    assert(self@.headers[j as int].0 == key@);
                    assert(key_index(self@.headers, key@) == j);
                }
                return Some(&pair.1);
            }
            j += 1;
        }
        proof {
            lemma_key_index(self@.headers, key@);
        }
        None
    }

    /// Store `key: value`, replacing the value where the key already
    /// stands and appending a new pair otherwise.
    pub fn set(&mut self, key: &str, val: &str)
        ensures
            final(self)@.headers == insert_pair(old(self)@.headers, key@, val@),
            final(self)@.method == old(self)@.method,
            final(self)@.route == old(self)@.route,
            final(self)@.protocol == old(self)@.protocol,
    {
        proof {
            lemma_key_index(old(self)@.headers, key@);
        }
        let n = self.data.len();
        let mut j: usize = 0;
        while j < n
            invariant
                j <= n,
                *self == *old(self),
                n == self.data@.len(),
                n == self@.headers.len(),
                forall|i: int| 0 <= i < j ==> old(self)@.headers[i].0 != key@,
            decreases n - j,
        {
            let found = str_equal(self.data[j].0.as_str(), key);
            if found {
                proof {
                    lemma_key_index(old(self)@.headers, key@);
                    assert(old(self)@.headers[j as int].0 == key@);
                    assert(key_index(old(self)@.headers, key@) == j);
                }
                self.data[j] = (key.to_owned(), val.to_owned());
                proof {
                    assert(self@.headers =~= insert_pair(old(self)@.headers, key@, val@));
                }
                return ;
            }
            j += 1;
        }
        self.data.push((key.to_owned(), val.to_owned()));
        proof {
            lemma_key_index(old(self)@.headers, key@);
            assert(key_index(old(self)@.headers, key@) == old(self)@.headers.len());
            assert(self@.headers =~= insert_pair(old(self)@.headers, key@, val@));
        }
    }

    /// The worker behind `from`.
    fn __from_internal(s: &str) -> (r: Result<Self, WsError>)
        ensures
            r is Ok <==> spec_parse_request(s@) is Some,
            r matches Ok(h) ==> Some(h@) == spec_parse_request(s@),
            r matches Err(e) ==> e == WsError::HandshakeError,
    {
        let n = s.unicode_len();
        let mut hdr = RequestHeader::new();
        let mut seen_start = false;
        let mut p: usize = 0;
        proof {
            assert(s@.skip(0) =~= s@);
        }

        while p < n
            invariant
                p <= n,
                n == s@.len(),
                req_parse_lines(split_lines(s@.skip(p as int)), seen_start, hdr@)
                    == spec_parse_request(s@),
            decreases n - p,
        {
            let i = find_char(s, '\n', p);
            let line_end = if i > p && s.get_char(i - 1) == '\r' {
                i - 1
            } else {
                i
            };
            let ghost sfx = s@.skip(p as int);
            let ghost lseq = strip_cr(
                if i == n {
                    sfx
                } else {
                    sfx.take(i - p as int)
                },
            );
            proof {
                lemma_index_of_char_shift(s@, '\n', p as int, p as int);
                assert(index_of_char(sfx, '\n', 0) == i - p as int);
                if i == n {
                    assert(split_lines(sfx) =~= seq![lseq]);
                } else {
                    assert(sfx.take(i - p as int) =~= s@.subrange(p as int, i as int));
                    assert(sfx.skip(i - p as int + 1) =~= s@.skip(i as int + 1));
                    assert(split_lines(sfx) =~= seq![lseq] + split_lines(s@.skip(i as int + 1)));
                }
                assert(lseq =~= s@.subrange(p as int, line_end as int));
            }
            let line = s.substring_char(p, line_end);
            proof {
                assert(line@ == lseq);
            }

            let ghost hdr0 = hdr@;
            let ghost seen0 = seen_start;
            if line.unicode_len() > 0 {
                if !seen_start {
                    let llen = line.unicode_len();
                    let i0 = find_char(line, ' ', 0);
                    hdr.method = line.substring_char(0, i0).to_owned();
                    if i0 < llen {
                        let i1 = find_char(line, ' ', i0 + 1);
                        hdr.route = line.substring_char(i0 + 1, i1).to_owned();
                        if i1 < llen {
                            let i2 = find_char(line, ' ', i1 + 1);
                            hdr.protocol = line.substring_char(i1 + 1, i2).to_owned();
                        }
                    }
                    seen_start = true;
                    proof {
                        assert(hdr@ =~= req_start_fields(lseq, hdr0));
                    }
                } else {
                    let llen = line.unicode_len();
                    let isep = find_sep(line);
                    if isep == llen {
                        return Err(WsError::HandshakeError);
                    }
                    let key = line.substring_char(0, isep);
                    let val = line.substring_char(isep + 2, llen);
                    proof {
                        assert(key@ =~= lseq.take(isep as int));
                        assert(val@ =~= lseq.skip(isep as int + 2));
                    }
                    hdr.set(key, val);
                    proof {
                        assert(hdr@ =~= (ReqView {
                            headers: insert_pair(hdr0.headers, lseq.take(isep as int), lseq.skip(isep as int + 2)),
                            ..hdr0
                        }));
                    }
                }
            }

            proof {
                let lines = split_lines(sfx);
                let rest: Seq<Seq<char>> = if i == n {
                    seq![]
                } else {
                    split_lines(s@.skip(i as int + 1))
                };
                assert(lines =~= seq![lseq] + rest);
                assert(lines[0] == lseq);
                assert(lines.skip(1) =~= rest);
                assert(req_parse_lines(lines, seen0, hdr0) == req_parse_lines(rest, seen_start, hdr@));
                if i == n {
                    assert(s@.skip(n as int) =~= Seq::<char>::empty());
                    assert(split_lines(s@.skip(n as int)) =~= rest);
                }
            }
            if i < n {
                p = i + 1;
            } else {
                p = n;
            }
        }
        proof {
            assert(s@.skip(n as int) =~= Seq::<char>::empty());
        }
        Ok(hdr)
    }

    /// Serialize: the start-line, then one `key: value` line per pair.
    pub fn format(&self) -> (r: String)
        ensures
            r@ == spec_format_request(self@),
    {
        let mut out: String = self.method.clone();
        out.append(" ");
        out.append(self.route.as_str());
        out.append(" ");
        out.append(self.protocol.as_str());
        out.append("\r\n");
        proof {
            reveal_strlit(" ");
            reveal_strlit("\r\n");
        }
        let ghost start = self@.method + seq![' '] + self@.route + seq![' '] + self@.protocol
            + seq!['\r', '\n'];
        proof {
            assert(out@ =~= start);
            assert(header_block(self@.headers.take(0)) =~= Seq::<char>::empty());
        }
        let n = self.data.len();
        let mut j: usize = 0;
        while j < n
            invariant
                j <= n,
                n == self.data@.len(),
                n == self@.headers.len(),
                out@ =~= start + header_block(self@.headers.take(j as int)),
            decreases n - j,
        {
            let pair = &self.data[j];
            out.append(pair.0.as_str());
            out.append(": ");
            out.append(pair.1.as_str());
            out.append("\r\n");
            proof {
                reveal_strlit(": ");
                reveal_strlit("\r\n");
                lemma_header_block_snoc(self@.headers, j as int);
                assert(out@ =~= start + header_block(self@.headers.take(j as int + 1)));
            }
            j += 1;
        }
        proof {
            assert(self@.headers.take(n as int) =~= self@.headers);
            assert(out@ =~= spec_format_request(self@));
        }
        out
    }
}

/// An HTTP response header: start-line fields and the header pairs, in
/// order of first appearance.
#[derive(Debug, PartialEq)]
pub struct ResponseHeader {
    protocol: String,
    status: String,
    data: Vec<(String, String)>,
}

impl View for ResponseHeader {
    type V = RespView;

    closed spec fn view(&self) -> RespView {
        RespView {
            protocol: self.protocol@,
            status: self.status@,
            headers: Seq::new(self.data@.len(), |i: int| (self.data@[i].0@, self.data@[i].1@)),
        }
    }
}

impl Default for ResponseHeader {
    /// A response header with the default start-line and no header pairs.
    fn default() -> (r: Self)
        ensures
            r@ == default_resp(),
    {
        ResponseHeader::new()
    }
}

impl ResponseHeader {
    /// A response header with the default start-line and no header pairs.
    fn new() -> (r: Self)
        ensures
            r@ == default_resp(),
    {
        let r = ResponseHeader {
            protocol: "HTTP/1.1".to_owned(),
            status: "101 Switching Protocols".to_owned(),
            data: Vec::new(),
        };
        proof {
            reveal_strlit("HTTP/1.1");
            reveal_strlit("101 Switching Protocols");
            assert(r@ =~= default_resp());
        }
        r
    }

    /// Parse a response header block; a start line without a space, or a
    /// later non-empty line without `": "`, is a handshake error.
    pub fn from(s: &str) -> (r: Result<Self, WsError>)
        ensures
            r is Ok <==> spec_parse_response(s@) is Some,
            r matches Ok(h) ==> Some(h@) == spec_parse_response(s@),
            r matches Err(e) ==> e == WsError::HandshakeError,
    {
        Self::__from_internal(s)
    }

    /// The value stored under `key`, if any.
    pub fn get(&self, key: &str) -> (r: Option<&String>)
        ensures
            r is Some <==> key_index(self@.headers, key@) < self@.headers.len(),
            r matches Some(v) ==> v@ == self@.headers[key_index(self@.headers, key@)].1,
    {
        let n = self.data.len();
        let mut j: usize = 0;
        while j < n
            invariant
                j <= n,
                n == self.data@.len(),
                n == self@.headers.len(),
                forall|i: int| 0 <= i < j ==> self@.headers[i].0 != key@,
            decreases n - j,
        {
            let pair = &self.data[j];
            if str_equal(pair.0.as_str(), key) {
                proof {
                    lemma_key_index(self@.headers, key@);
                    assert(self@.headers[j as int].0 == key@);
                    assert(key_index(self@.headers, key@) == j);
                }
                return Some(&pair.1);
            }
            j += 1;
        }
        proof {
            lemma_key_index(self@.headers, key@);
        }
        None
    }

    /// Store `key: value`, replacing the value where the key already
    /// stands and appending a new pair otherwise.
    pub fn set(&mut self, key: &str, val: &str)
        ensures
            final(self)@.headers == insert_pair(old(self)@.headers, key@, val@),
            final(self)@.protocol == old(self)@.protocol,
            final(self)@.status == old(self)@.status,
    {
        let n = self.data.len();
        let mut j: usize = 0;
        while j < n
            invariant
                j <= n,
                *self == *old(self),
                n == self.data@.len(),
                n == self@.headers.len(),
                forall|i: int| 0 <= i < j ==> old(self)@.headers[i].0 != key@,
            decreases n - j,
        {
            let found = str_equal(self.data[j].0.as_str(), key);
            if found {
                proof {
                    lemma_key_index(old(self)@.headers, key@);
                    assert(old(self)@.headers[j as int].0 == key@);
                    assert(key_index(old(self)@.headers, key@) == j);
                }
                self.data[j] = (key.to_owned(), val.to_owned());
                proof {
                    assert(self@.headers =~= insert_pair(old(self)@.headers, key@, val@));
                }
                return ;
            }
            j += 1;
        }
        self.data.push((key.to_owned(), val.to_owned()));
        proof {
            lemma_key_index(old(self)@.headers, key@);
            assert(key_index(old(self)@.headers, key@) == old(self)@.headers.len());
            assert(self@.headers =~= insert_pair(old(self)@.headers, key@, val@));
        }
    }

    /// The worker behind `from`.
    fn __from_internal(s: &str) -> (r: Result<Self, WsError>)
        ensures
            r is Ok <==> spec_parse_response(s@) is Some,
            r matches Ok(h) ==> Some(h@) == spec_parse_response(s@),
            r matches Err(e) ==> e == WsError::HandshakeError,
    {
        let n = s.unicode_len();
        let mut hdr = ResponseHeader::new();
        let mut seen_start = false;
        let mut p: usize = 0;
        proof {
            assert(s@.skip(0) =~= s@);
        }

        while p < n
            invariant
                p <= n,
                n == s@.len(),
                resp_parse_lines(split_lines(s@.skip(p as int)), seen_start, hdr@)
                    == spec_parse_response(s@),
            decreases n - p,
        {
            let i = find_char(s, '\n', p);
            let line_end = if i > p && s.get_char(i - 1) == '\r' {
                i - 1
            } else {
                i
            };
            let ghost sfx = s@.skip(p as int);
            let ghost lseq = strip_cr(
                if i == n {
                    sfx
                } else {
                    sfx.take(i - p as int)
                },
            );
            proof {
                lemma_index_of_char_shift(s@, '\n', p as int, p as int);
                assert(index_of_char(sfx, '\n', 0) == i - p as int);
                if i == n {
                    assert(split_lines(sfx) =~= seq![lseq]);
                } else {
                    assert(sfx.take(i - p as int) =~= s@.subrange(p as int, i as int));
                    assert(sfx.skip(i - p as int + 1) =~= s@.skip(i as int + 1));
                    assert(split_lines(sfx) =~= seq![lseq] + split_lines(s@.skip(i as int + 1)));
                }
                assert(lseq =~= s@.subrange(p as int, line_end as int));
            }
            let line = s.substring_char(p, line_end);
            proof {
                assert(line@ == lseq);
            }

            let ghost hdr0 = hdr@;
            let ghost seen0 = seen_start;
            if line.unicode_len() > 0 {
                if !seen_start {
                    let llen = line.unicode_len();
                    let i0 = find_char(line, ' ', 0);
                    if i0 == llen {
                        return Err(WsError::HandshakeError);
                    }
                    hdr.protocol = line.substring_char(0, i0).to_owned();
                    hdr.status = line.substring_char(i0 + 1, llen).to_owned();
                    seen_start = true;
                    proof {
                        assert(Some(hdr@) =~= resp_start_fields(lseq, hdr0));
                    }
                } else {
                    let llen = line.unicode_len();
                    let isep = find_sep(line);
                    if isep == llen {
                        return Err(WsError::HandshakeError);
                    }
                    let key = line.substring_char(0, isep);
                    let val = line.substring_char(isep + 2, llen);
                    proof {
                        assert(key@ =~= lseq.take(isep as int));
                        assert(val@ =~= lseq.skip(isep as int + 2));
                    }
                    hdr.set(key, val);
                    proof {
                        assert(hdr@ =~= (RespView {
                            headers: insert_pair(
                                hdr0.headers,
                                lseq.take(isep as int),
                                lseq.skip(isep as int + 2),
                            ),
                            ..hdr0
                        }));
                    }
                }
            }

            proof {
                let lines = split_lines(sfx);
                let rest: Seq<Seq<char>> = if i == n {
                    seq![]
                } else {
                    split_lines(s@.skip(i as int + 1))
                };
                assert(lines =~= seq![lseq] + rest);
                assert(lines[0] == lseq);
                assert(lines.skip(1) =~= rest);
                assert(resp_parse_lines(lines, seen0, hdr0) == resp_parse_lines(
                    rest,
                    seen_start,
                    hdr@,
                ));
                if i == n {
                    assert(s@.skip(n as int) =~= Seq::<char>::empty());
                    assert(split_lines(s@.skip(n as int)) =~= rest);
                }
            }
            if i < n {
                p = i + 1;
            } else {
                p = n;
            }
        }
        proof {
            assert(s@.skip(n as int) =~= Seq::<char>::empty());
        }
        Ok(hdr)
    }

    /// Serialize: the start-line, one `key: value` line per pair, and the
    /// terminating blank line.
    pub fn format(&self) -> (r: String)
        ensures
            r@ == spec_format_response(self@),
    {
        let mut out: String = self.protocol.clone();
        out.append(" ");
        out.append(self.status.as_str());
        out.append("\r\n");
        proof {
            reveal_strlit(" ");
            reveal_strlit("\r\n");
        }
        let ghost start = self@.protocol + seq![' '] + self@.status + seq!['\r', '\n'];
        proof {
            assert(out@ =~= start);
            assert(header_block(self@.headers.take(0)) =~= Seq::<char>::empty());
        }
        let n = self.data.len();
        let mut j: usize = 0;
        while j < n
            invariant
                j <= n,
                n == self.data@.len(),
                n == self@.headers.len(),
                out@ =~= start + header_block(self@.headers.take(j as int)),
            decreases n - j,
        {
            let pair = &self.data[j];
            out.append(pair.0.as_str());
            out.append(": ");
            out.append(pair.1.as_str());
            out.append("\r\n");
            proof {
                reveal_strlit(": ");
                reveal_strlit("\r\n");
                lemma_header_block_snoc(self@.headers, j as int);
                assert(out@ =~= start + header_block(self@.headers.take(j as int + 1)));
            }
            j += 1;
        }
        out.append("\r\n");
        proof {
            reveal_strlit("\r\n");
            assert(self@.headers.take(n as int) =~= self@.headers);
            assert(out@ =~= spec_format_response(self@));
        }
        out
    }
}

} // verus!
