//! Evaluation-set line parsing and logit argmax for the top-1 agreement
//! evaluation. A line is a small JSON-like record such as
//! `{"prompt": [1, 2, 3], "expected_top1": 42}`; blank lines and lines
//! starting with `#` are skipped.
use vstd::prelude::*;
use crate::model::Token;
use crate::matmul_int8::{matmul_int8, matmul_check, matmul_spec, MatmulError};
use vstd::string::StringSliceAdditionalSpecFns;

verus! {

/// One evaluation prompt and, when given, the expected top-1 token.
#[derive(Debug, Clone, PartialEq, Eq)]
pub struct EvalRow {
    pub prompt: Vec<Token>,
    pub expected_top1: Option<Token>,
}

// ----- whitespace (Unicode `White_Space`, UTF-8 encoded) -----

/// Is `a b c` the UTF-8 encoding of a three-byte whitespace character.
pub open spec fn is_ws3(a: u8, b: u8, c: u8) -> bool {
    ||| (a == 0xe1 && b == 0x9a && c == 0x80)
    ||| (a == 0xe2 && b == 0x80 && ((0x80 <= c && c <= 0x8a) || c == 0xa8 || c == 0xa9 || c == 0xaf))
    ||| (a == 0xe2 && b == 0x81 && c == 0x9f)
    ||| (a == 0xe3 && b == 0x80 && c == 0x80)
}

/// Is `a b` the UTF-8 encoding of a two-byte whitespace character.
pub open spec fn is_ws2(a: u8, b: u8) -> bool {
    a == 0xc2 && (b == 0x85 || b == 0xa0)
}

/// Is `a` a one-byte whitespace character.
pub open spec fn is_ws1(a: u8) -> bool {
    a == 0x20 || (0x09 <= a && a <= 0x0d)
}

/// Length of the whitespace character that `s` starts with (0 if none).
pub open spec fn ws_front(s: Seq<u8>) -> nat {
    if s.len() >= 1 && is_ws1(s[0]) {
        1
    } else if s.len() >= 2 && is_ws2(s[0], s[1]) {
        2
    } else if s.len() >= 3 && is_ws3(s[0], s[1], s[2]) {
        3
    } else {
        0
    }
}

/// Length of the whitespace character that `s` ends with (0 if none).
pub open spec fn ws_back(s: Seq<u8>) -> nat {
    let n = s.len() as int;
    if n >= 1 && is_ws1(s[n - 1]) {
        1
    } else if n >= 2 && is_ws2(s[n - 2], s[n - 1]) {
        2
    } else if n >= 3 && is_ws3(s[n - 3], s[n - 2], s[n - 1]) {
        3
    } else {
        0
    }
}

/// `s` without leading whitespace.
pub open spec fn trim_start(s: Seq<u8>) -> Seq<u8>
    decreases s.len(),
{
    if ws_front(s) == 0 {
        s
    } else {
        trim_start(s.skip(ws_front(s) as int))
    }
}

/// `s` without trailing whitespace.
pub open spec fn trim_end(s: Seq<u8>) -> Seq<u8>
    decreases s.len(),
{
    if ws_back(s) == 0 {
        s
    } else {
        trim_end(s.take(s.len() - ws_back(s)))
    }
}

/// `s` without leading or trailing whitespace.
pub open spec fn trim(s: Seq<u8>) -> Seq<u8> {
    trim_end(trim_start(s))
}

// ----- searching -----

/// First index below `k` where `s` holds `b`.
pub open spec fn first_byte(s: Seq<u8>, b: u8, k: nat) -> Option<int>
    decreases k,
{
    if k == 0 {
        None
    } else {
        match first_byte(s, b, (k - 1) as nat) {
            Some(i) => Some(i),
            None => if s[k - 1] == b { Some(k - 1) } else { None },
        }
    }
}

/// First index where `s` holds `b`.
pub open spec fn index_of(s: Seq<u8>, b: u8) -> Option<int> {
    first_byte(s, b, s.len())
}

/// Does `p` occur in `s` at `i`.
pub open spec fn occurs_at(s: Seq<u8>, p: Seq<u8>, i: int) -> bool {
    0 <= i && i + p.len() <= s.len() && s.subrange(i, i + p.len()) == p
}

/// First index below `k` where `p` occurs in `s`.
pub open spec fn first_occurrence(s: Seq<u8>, p: Seq<u8>, k: nat) -> Option<int>
    decreases k,
{
    if k == 0 {
        None
    } else {
        match first_occurrence(s, p, (k - 1) as nat) {
            Some(i) => Some(i),
            None => if occurs_at(s, p, k - 1) { Some(k - 1) } else { None },
        }
    }
}

/// The key that introduces the expected token.
pub open spec fn key_spec() -> Seq<u8> {
    seq![101u8, 120, 112, 101, 99, 116, 101, 100, 95, 116, 111, 112, 49]
}

// ----- numbers -----

pub open spec fn is_digit(b: u8) -> bool {
    48 <= b && b <= 57
}

/// Value of a string of decimal digits.
pub open spec fn digits_val(s: Seq<u8>) -> nat
    decreases s.len(),
{
    if s.len() == 0 {
        0
    } else {
        digits_val(s.drop_last()) * 10 + (s.last() - 48) as nat
    }
}

/// Number of leading decimal digits.
pub open spec fn digit_run(s: Seq<u8>) -> nat
    decreases s.len(),
{
    if s.len() == 0 || !is_digit(s[0]) {
        0
    } else {
        1 + digit_run(s.skip(1))
    }
}

/// `s` without one leading `+`.
pub open spec fn strip_plus(s: Seq<u8>) -> Seq<u8> {
    if s.len() >= 1 && s[0] == 43 { s.skip(1) } else { s }
}

/// Every byte is a decimal digit.
pub open spec fn all_digits(d: Seq<u8>) -> bool {
    forall|i: int| 0 <= i < d.len() ==> is_digit(#[trigger] d[i])
}

/// One or more decimal digits whose value fits in a `u32`.
pub open spec fn parse_digits_spec(d: Seq<u8>) -> Option<u32> {
    if d.len() == 0 || !all_digits(d) || digits_val(d) > u32::MAX {
        None
    } else {
        Some(digits_val(d) as u32)
    }
}

/// What `str::parse::<u32>` accepts: an optional `+`, then one or more
/// decimal digits whose value fits in a `u32`.
pub open spec fn parse_u32_spec(s: Seq<u8>) -> Option<u32> {
    parse_digits_spec(strip_plus(s))
}

// ----- the prompt list -----

pub proof fn lemma_first_byte_range(s: Seq<u8>, b: u8, k: nat)
    ensures
        first_byte(s, b, k) matches Some(i) ==> 0 <= i < k && s[i] == b,
        first_byte(s, b, k) is None ==> forall|j: int| 0 <= j < k ==> s[j] != b,
    decreases k,
{
    if k > 0 {
        lemma_first_byte_range(s, b, (k - 1) as nat);
    }
}

/// Pieces of `s` between commas, in order.
pub open spec fn pieces(s: Seq<u8>) -> Seq<Seq<u8>>
    decreases s.len(),
{
    match index_of(s, 44) {
        Some(i) => {
            proof {
                lemma_first_byte_range(s, 44, s.len());
            }
            seq![s.take(i)] + pieces(s.skip(i + 1))
        },
        None => seq![s],
    }
}

/// Tokens of one piece: none if it is blank, else its value as a `u32`.
pub open spec fn piece_tokens(p: Seq<u8>) -> Option<Seq<u32>> {
    let t = trim(p);
    if t.len() == 0 {
        Some(Seq::<u32>::empty())
    } else {
        match parse_u32_spec(t) {
            None => None,
            Some(x) => Some(seq![x]),
        }
    }
}

/// Both present: concatenated; otherwise `None`.
pub open spec fn join_tokens(a: Option<Seq<u32>>, b: Option<Seq<u32>>) -> Option<Seq<u32>> {
    match (a, b) {
        (Some(x), Some(y)) => Some(x + y),
        _ => None,
    }
}

/// Tokens of a list of pieces: each piece trimmed, blank pieces skipped,
/// the rest parsed as `u32`; `None` if any fails to parse.
pub open spec fn parse_list(ps: Seq<Seq<u8>>) -> Option<Seq<u32>>
    decreases ps.len(),
{
    if ps.len() == 0 {
        Some(Seq::<u32>::empty())
    } else {
        join_tokens(piece_tokens(ps[0]), parse_list(ps.skip(1)))
    }
}

/// The expected token of a trimmed line: `Ok(None)` when the key is absent
/// or no digits follow its colon, `Ok(v)` with the parsed digits (`None` if
/// they overflow), `Err` when the key has no colon after it.
pub open spec fn expected_spec(t: Seq<u8>) -> Result<Option<u32>, ()> {
    match first_occurrence(t, key_spec(), t.len()) {
        None => Ok(None),
        Some(idx) => {
            let tail = t.skip(idx + 13);
            match index_of(tail, 58) {
                None => Err(()),
                Some(c) => {
                    let after = trim_start(tail.skip(c + 1));
                    let end = digit_run(after);
                    if end == 0 {
                        Ok(None)
                    } else {
                        Ok(parse_u32_spec(after.take(end as int)))
                    }
                },
            }
        },
    }
}

/// The slice of the prompt list would be out of order: the first `]`
/// comes before the first `[`, a line the parser does not accept.
pub open spec fn brackets_reversed(s: Seq<u8>) -> bool {
    let t = trim(s);
    &&& t.len() > 0
    &&& t[0] != 35
    &&& index_of(t, 91) is Some
    &&& index_of(t, 93) is Some
    &&& index_of(t, 93)->0 < index_of(t, 91)->0 + 1
}

/// What a line parses to: `None` for a blank or comment line, a line
/// without both brackets, an unparsable prompt token, or a key without a
/// colon; otherwise the prompt tokens and the expected token.
pub open spec fn parse_eval_spec(s: Seq<u8>) -> Option<(Seq<u32>, Option<u32>)> {
    let t = trim(s);
    if t.len() == 0 || t[0] == 35 {
        None
    } else {
        match (index_of(t, 91), index_of(t, 93)) {
            (Some(ps), Some(pe)) => match parse_list(pieces(t.subrange(ps + 1, pe))) {
                None => None,
                Some(prompt) => match expected_spec(t) {
                    Err(_) => None,
                    Ok(e) => Some((prompt, e)),
                },
            },
            _ => None,
        }
    }
}

/// Index of the first maximum (ties go to the earliest index).
pub open spec fn argmax_spec(v: Seq<i32>, k: nat) -> int
    decreases k,
{
    if k <= 1 {
        0
    } else {
        let j = argmax_spec(v, (k - 1) as nat);
        if v[k - 1] > v[j] { k - 1 } else { j }
    }
}

proof fn lemma_argmax_bound(v: Seq<i32>, k: nat)
    requires
        k >= 1,
    ensures
        0 <= argmax_spec(v, k) < k,
    decreases k,
{
    if k > 1 {
        lemma_argmax_bound(v, (k - 1) as nat);
    }
}

/// Index of the largest logit, the first one on ties; `None` when empty.
pub fn argmax_logits(logits: &[i32]) -> (r: Option<u32>)
    requires
        logits@.len() <= u32::MAX,
    ensures
        logits@.len() == 0 <==> r is None,
        r matches Some(i) ==> i == argmax_spec(logits@, logits@.len()),
{
    if logits.len() == 0 {
        return None;
    }
    let n = logits.len();
    let mut best_idx: u32 = 0;
    let mut best_val = logits[0];
    let mut i: usize = 1;
    while i < n
        invariant
            1 <= i <= n,
            n == logits@.len(),
            n <= u32::MAX,
            best_idx == argmax_spec(logits@, i as nat),
            0 <= best_idx < i,
            best_val == logits@[best_idx as int],
        decreases n - i,
    {
        if logits[i] > best_val {
            best_val = logits[i];
            best_idx = i as u32;
        }
        i = i + 1;
    }
    Some(best_idx)
}

proof fn lemma_first_byte_stable(s: Seq<u8>, b: u8, k: nat, m: nat)
    requires
        k <= m,
        first_byte(s, b, k) is Some,
    ensures
        first_byte(s, b, m) == first_byte(s, b, k),
    decreases m - k,
{
    if k < m {
        lemma_first_byte_stable(s, b, k, (m - 1) as nat);
    }
}

proof fn lemma_first_occurrence_stable(s: Seq<u8>, p: Seq<u8>, k: nat, m: nat)
    requires
        k <= m,
        first_occurrence(s, p, k) is Some,
    ensures
        first_occurrence(s, p, m) == first_occurrence(s, p, k),
    decreases m - k,
{
    if k < m {
        lemma_first_occurrence_stable(s, p, k, (m - 1) as nat);
    }
}

/// An optional index, as an integer.
pub open spec fn opt_int(r: Option<usize>) -> Option<int> {
    match r {
        Some(i) => Some(i as int),
        None => None,
    }
}

fn ws_front_len(s: &[u8], a: usize, b: usize) -> (k: usize)
    requires
        a <= b <= s@.len(),
    ensures
        k == ws_front(s@.subrange(a as int, b as int)),
        k <= b - a,
{
    let n = b - a;
    if n >= 1 && (s[a] == 0x20 || (0x09 <= s[a] && s[a] <= 0x0d)) {
        1
    } else if n >= 2 && s[a] == 0xc2 && (s[a + 1] == 0x85 || s[a + 1] == 0xa0) {
        2
    } else if n >= 3 && is_ws3_exec(s[a], s[a + 1], s[a + 2]) {
        3
    } else {
        0
    }
}

fn ws_back_len(s: &[u8], a: usize, b: usize) -> (k: usize)
    requires
        a <= b <= s@.len(),
    ensures
        k == ws_back(s@.subrange(a as int, b as int)),
        k <= b - a,
{
    let n = b - a;
    if n >= 1 && (s[b - 1] == 0x20 || (0x09 <= s[b - 1] && s[b - 1] <= 0x0d)) {
        1
    } else if n >= 2 && s[b - 2] == 0xc2 && (s[b - 1] == 0x85 || s[b - 1] == 0xa0) {
        2
    } else if n >= 3 && is_ws3_exec(s[b - 3], s[b - 2], s[b - 1]) {
        3
    } else {
        0
    }
}

fn is_ws3_exec(a: u8, b: u8, c: u8) -> (r: bool)
    ensures
        r == is_ws3(a, b, c),
{
    (a == 0xe1 && b == 0x9a && c == 0x80)
        || (a == 0xe2 && b == 0x80 && ((0x80 <= c && c <= 0x8a) || c == 0xa8 || c == 0xa9 || c == 0xaf))
        || (a == 0xe2 && b == 0x81 && c == 0x9f)
        || (a == 0xe3 && b == 0x80 && c == 0x80)
}

/// Bounds of `trim_start(s[a..b])`.
fn trim_start_range(s: &[u8], a: usize, b: usize) -> (r: usize)
    requires
        a <= b <= s@.len(),
    ensures
        a <= r <= b,
        s@.subrange(r as int, b as int) == trim_start(s@.subrange(a as int, b as int)),
{
    let mut x = a;
    while x < b
        invariant
            a <= x <= b,
            b <= s@.len(),
            trim_start(s@.subrange(a as int, b as int)) == trim_start(s@.subrange(x as int, b as int)),
        ensures
            a <= x <= b,
            trim_start(s@.subrange(a as int, b as int)) == trim_start(s@.subrange(x as int, b as int)),
            ws_front(s@.subrange(x as int, b as int)) == 0,
        decreases b - x,
    {
        let k = ws_front_len(s, x, b);
        if k == 0 {
            break;
        }
        proof {
            assert(s@.subrange(x as int, b as int).skip(k as int) =~= s@.subrange(x + k, b as int));
        }
        x = x + k;
    }
    x
}

/// Bounds of `trim(s[a..b])`.
fn trim_range(s: &[u8], a: usize, b: usize) -> (r: (usize, usize))
    requires
        a <= b <= s@.len(),
    ensures
        a <= r.0 <= r.1 <= b,
        s@.subrange(r.0 as int, r.1 as int) == trim(s@.subrange(a as int, b as int)),
{
    let x = trim_start_range(s, a, b);
    let mut y = b;
    while y > x
        invariant
            x <= y <= b,
            b <= s@.len(),
            trim_end(s@.subrange(x as int, b as int)) == trim_end(s@.subrange(x as int, y as int)),
        ensures
            x <= y <= b,
            trim_end(s@.subrange(x as int, b as int)) == trim_end(s@.subrange(x as int, y as int)),
            ws_back(s@.subrange(x as int, y as int)) == 0,
        decreases y - x,
    {
        let k = ws_back_len(s, x, y);
        if k == 0 {
            break;
        }
        proof {
            assert(s@.subrange(x as int, y as int).take(y - x - k) =~= s@.subrange(x as int, y - k));
        }
        y = y - k;
    }
    (x, y)
}

/// First index of `x` in `s[a..b]`, relative to `a`.
fn find_byte(s: &[u8], a: usize, b: usize, x: u8) -> (r: Option<usize>)
    requires
        a <= b <= s@.len(),
    ensures
        opt_int(r) == index_of(s@.subrange(a as int, b as int), x),
{
    let ghost u = s@.subrange(a as int, b as int);
    let n = b - a;
    let mut k: usize = 0;
    while k < n
        invariant
            k <= n,
            n == b - a,
            b <= s@.len(),
            u == s@.subrange(a as int, b as int),
            first_byte(u, x, k as nat) is None,
        decreases n - k,
    {
        if s[a + k] == x {
            proof {
                lemma_first_byte_stable(u, x, (k + 1) as nat, n as nat);
            }
            return Some(k);
        }
        k = k + 1;
    }
    None
}

/// Does the key occur in `s[a..b]` at relative index `k`.
fn key_at(s: &[u8], a: usize, b: usize, k: usize) -> (r: bool)
    requires
        a <= b <= s@.len(),
    ensures
        r == occurs_at(s@.subrange(a as int, b as int), key_spec(), k as int),
{
    let key: [u8; 13] = [101u8, 120, 112, 101, 99, 116, 101, 100, 95, 116, 111, 112, 49];
    proof {
        assert(key@ =~= key_spec());
    }
    if k > b - a || b - a - k < 13 {
        return false;
    }
    let mut t: usize = 0;
    while t < 13
        invariant
            t <= 13,
            a + k + 13 <= b,
            b <= s@.len(),
            key@ == key_spec(),
            forall|q: int| 0 <= q < t ==> s@[a + k + q] == key@[q],
        decreases 13 - t,
    {
        if s[a + k + t] != key[t] {
            proof {
                assert(s@.subrange(a as int, b as int).subrange(k as int, k + 13)[t as int] != key_spec()[t as int]);
            }
            return false;
        }
        t = t + 1;
    }
    proof {
        assert(s@.subrange(a as int, b as int).subrange(k as int, k + 13) =~= key_spec());
    }
    true
}

/// First occurrence of the key in `s[a..b]`, relative to `a`.
fn find_key(s: &[u8], a: usize, b: usize) -> (r: Option<usize>)
    requires
        a <= b <= s@.len(),
    ensures
        opt_int(r) == first_occurrence(s@.subrange(a as int, b as int), key_spec(), (b - a) as nat),
{
    let ghost u = s@.subrange(a as int, b as int);
    let n = b - a;
    let mut k: usize = 0;
    while k < n
        invariant
            k <= n,
            n == b - a,
            b <= s@.len(),
            u == s@.subrange(a as int, b as int),
            first_occurrence(u, key_spec(), k as nat) is None,
        decreases n - k,
    {
        if key_at(s, a, b, k) {
            proof {
                lemma_first_occurrence_stable(u, key_spec(), (k + 1) as nat, n as nat);
            }
            return Some(k);
        }
        k = k + 1;
    }
    None
}

proof fn lemma_digits_prefix(d: Seq<u8>, j: int)
    requires
        0 <= j <= d.len(),
    ensures
        digits_val(d.take(j)) <= digits_val(d),
    decreases d.len(),
{
    if j < d.len() {
        assert(d.drop_last().take(j) =~= d.take(j));
        lemma_digits_prefix(d.drop_last(), j);
    } else {
        assert(d.take(j) =~= d);
    }
}

/// `str::parse::<u32>` on `s[a..b]`.
fn parse_u32_range(s: &[u8], a: usize, b: usize) -> (r: Option<u32>)
    requires
        a <= b <= s@.len(),
    ensures
        r == parse_u32_spec(s@.subrange(a as int, b as int)),
{
    let ghost u = s@.subrange(a as int, b as int);
    let start = if b - a >= 1 && s[a] == 43 { a + 1 } else { a };
    let ghost d = s@.subrange(start as int, b as int);
    proof {
        if b - a >= 1 && s@[a as int] == 43 {
            assert(u.skip(1) =~= d);
        } else {
            assert(u =~= d);
        }
    }
    if start == b {
        return None;
    }
    let mut val: u64 = 0;
    let mut k: usize = start;
    while k < b
        invariant
            start <= k <= b,
            b <= s@.len(),
            d == s@.subrange(start as int, b as int),
            strip_plus(u) == d,
            u == s@.subrange(a as int, b as int),
            val == digits_val(d.take(k - start)),
            val <= u32::MAX,
            forall|i: int| 0 <= i < k - start ==> is_digit(#[trigger] d[i]),
        decreases b - k,
    {
        let c = s[k];
        if c < 48 || c > 57 {
            proof {
                assert(!is_digit(d[k - start]));
                assert(!all_digits(d));
            }
            return None;
        }
        proof {
            assert(d.take(k - start + 1).drop_last() =~= d.take(k - start));
        }
        let nv = val * 10 + (c - 48) as u64;
        if nv > 0xffff_ffff {
            proof {
                if all_digits(d) {
                    lemma_digits_prefix(d, k - start + 1);
                    assert(digits_val(d.take(k - start + 1)) == nv);
                }
            }
            return None;
        }
        val = nv;
        k = k + 1;
    }
    proof {
        assert(d.take(b - start) =~= d);
    }
    Some(val as u32)
}

/// Number of leading digits of `s[a..b]`.
fn digit_run_exec(s: &[u8], a: usize, b: usize) -> (r: usize)
    requires
        a <= b <= s@.len(),
    ensures
        r == digit_run(s@.subrange(a as int, b as int)),
        r <= b - a,
{
    let ghost u = s@.subrange(a as int, b as int);
    let mut k: usize = 0;
    proof {
        assert(u.skip(0) =~= u);
    }
    while k < b - a && 48 <= s[a + k] && s[a + k] <= 57
        invariant
            k <= b - a,
            b <= s@.len(),
            u == s@.subrange(a as int, b as int),
            digit_run(u) == k + digit_run(u.skip(k as int)),
        decreases b - a - k,
    {
        proof {
            assert(u.skip(k as int).skip(1) =~= u.skip(k + 1));
        }
        k = k + 1;
    }
    k
}

proof fn lemma_first_occurrence_range(s: Seq<u8>, p: Seq<u8>, k: nat)
    ensures
        first_occurrence(s, p, k) matches Some(i) ==> 0 <= i < k && occurs_at(s, p, i),
    decreases k,
{
    if k > 0 {
        lemma_first_occurrence_range(s, p, (k - 1) as nat);
    }
}

/// Tokens of one piece, as a result: blank, one token, or unparsable.
pub open spec fn piece_view(r: Result<Option<u32>, ()>) -> Option<Seq<u32>> {
    match r {
        Ok(None) => Some(Seq::<u32>::empty()),
        Ok(Some(x)) => Some(seq![x]),
        Err(_) => None,
    }
}

/// An optional token list, by value.
pub open spec fn opt_vec(r: Option<Vec<u32>>) -> Option<Seq<u32>> {
    match r {
        Some(v) => Some(v@),
        None => None,
    }
}

fn piece_token(s: &[u8], a: usize, b: usize) -> (r: Result<Option<u32>, ()>)
    requires
        a <= b <= s@.len(),
    ensures
        piece_view(r) == piece_tokens(s@.subrange(a as int, b as int)),
{
    let (x, y) = trim_range(s, a, b);
    if x == y {
        return Ok(None);
    }
    match parse_u32_range(s, x, y) {
        Some(v) => Ok(Some(v)),
        None => Err(()),
    }
}

proof fn lemma_join_assoc(a: Seq<u32>, p: Option<Seq<u32>>, l: Option<Seq<u32>>)
    ensures
        join_tokens(Some(a), join_tokens(p, l)) == join_tokens(join_tokens(Some(a), p), l),
{
    match (p, l) {
        (Some(x), Some(y)) => {
            assert(a + (x + y) =~= (a + x) + y);
        },
        _ => {},
    }
}

proof fn lemma_parse_list_cons(p: Seq<u8>, rest: Seq<Seq<u8>>)
    ensures
        parse_list(seq![p] + rest) == join_tokens(piece_tokens(p), parse_list(rest)),
{
    let ps = seq![p] + rest;
    assert(ps[0] == p);
    assert(ps.skip(1) =~= rest);
}

/// Tokens of the comma-separated list `s[a..b]`.
fn parse_prompt_list(s: &[u8], a: usize, b: usize) -> (r: Option<Vec<u32>>)
    requires
        a <= b <= s@.len(),
    ensures
        opt_vec(r) == parse_list(pieces(s@.subrange(a as int, b as int))),
{
    let ghost whole = parse_list(pieces(s@.subrange(a as int, b as int)));
    let mut acc: Vec<u32> = Vec::new();
    let mut start = a;
    let mut j = a;
    proof {
        assert(acc@ + Seq::<u32>::empty() =~= acc@);
        match parse_list(pieces(s@.subrange(a as int, b as int))) {
            Some(v) => { assert(Seq::<u32>::empty() + v =~= v); },
            None => {},
        }
    }
    while j < b
        invariant
            a <= start <= j <= b,
            b <= s@.len(),
            whole == join_tokens(Some(acc@), parse_list(pieces(s@.subrange(start as int, b as int)))),
            whole == parse_list(pieces(s@.subrange(a as int, b as int))),
            first_byte(s@.subrange(start as int, b as int), 44, (j - start) as nat) is None,
        decreases b - j,
    {
        if s[j] == 44 {
            let ghost rr = s@.subrange(start as int, b as int);
            proof {
                lemma_first_byte_stable(rr, 44, (j - start + 1) as nat, rr.len());
                assert(rr.take(j - start) =~= s@.subrange(start as int, j as int));
                assert(rr.skip(j - start + 1) =~= s@.subrange(j + 1, b as int));
                lemma_parse_list_cons(s@.subrange(start as int, j as int), pieces(s@.subrange(j + 1, b as int)));
            }
            let pt = piece_token(s, start, j);
            proof {
                lemma_join_assoc(acc@, piece_tokens(s@.subrange(start as int, j as int)), parse_list(pieces(s@.subrange(j + 1, b as int))));
            }
            match pt {
                Err(()) => {
                    return None;
                },
                Ok(None) => {
                    proof {
                        assert(acc@ + Seq::<u32>::empty() =~= acc@);
                    }
                },
                Ok(Some(x)) => {
                    let ghost before = acc@;
                    acc.push(x);
                    proof {
                        assert(before + seq![x] =~= acc@);
                    }
                },
            }
            start = j + 1;
        }
        j = j + 1;
    }
    let ghost rr = s@.subrange(start as int, b as int);
    proof {
        assert(index_of(rr, 44) is None);
        assert(pieces(rr) =~= seq![rr]);
        lemma_parse_list_cons(rr, Seq::<Seq<u8>>::empty());
        assert(seq![rr] + Seq::<Seq<u8>>::empty() =~= seq![rr]);
        lemma_join_assoc(acc@, piece_tokens(rr), Some(Seq::<u32>::empty()));
    }
    let pt = piece_token(s, start, b);
    match pt {
        Err(()) => None,
        Ok(None) => {
            proof {
                assert(acc@ + Seq::<u32>::empty() =~= acc@);
            }
            Some(acc)
        },
        Ok(Some(x)) => {
            let ghost before = acc@;
            acc.push(x);
            proof {
                assert(before + seq![x] =~= acc@);
                assert(acc@ + Seq::<u32>::empty() =~= acc@);
            }
            Some(acc)
        },
    }
}

/// The expected token of the trimmed line `s[a..b]`.
fn expected_exec(s: &[u8], a: usize, b: usize) -> (r: Result<Option<u32>, ()>)
    requires
        a <= b <= s@.len(),
    ensures
        r == expected_spec(s@.subrange(a as int, b as int)),
{
    let ghost t = s@.subrange(a as int, b as int);
    match find_key(s, a, b) {
        None => Ok(None),
        Some(idx) => {
            proof {
                lemma_first_occurrence_range(t, key_spec(), t.len());
            }
            let ta = a + idx + 13;
            proof {
                assert(t.skip(idx + 13) =~= s@.subrange(ta as int, b as int));
            }
            match find_byte(s, ta, b, 58) {
                None => Err(()),
                Some(c) => {
                    proof {
                        lemma_first_byte_range(s@.subrange(ta as int, b as int), 58, (b - ta) as nat);
                        assert(t.skip(idx + 13).skip(c + 1) =~= s@.subrange(ta + c + 1, b as int));
                    }
                    let aa = trim_start_range(s, ta + c + 1, b);
                    let end = digit_run_exec(s, aa, b);
                    if end == 0 {
                        Ok(None)
                    } else {
                        proof {
                            assert(s@.subrange(aa as int, b as int).take(end as int) =~= s@.subrange(aa as int, aa + end));
                        }
                        Ok(parse_u32_range(s, aa, aa + end))
                    }
                },
            }
        },
    }
}

/// A parse result, by value.
pub open spec fn row_view(r: Option<EvalRow>) -> Option<(Seq<u32>, Option<u32>)> {
    match r {
        Some(row) => Some((row.prompt@, row.expected_top1)),
        None => None,
    }
}

/// Parse one evaluation line; see `parse_eval_spec`. A line whose first
/// `]` precedes its first `[` is outside the contract.
pub fn parse_eval_line(line: &str) -> (r: Option<EvalRow>)
    requires
        !brackets_reversed(line.spec_bytes()),
    ensures
        row_view(r) == parse_eval_spec(line.spec_bytes()),
{
    let s = line.as_bytes();
    proof {
        assert(s@.subrange(0, s@.len() as int) =~= s@);
    }
    let (ta, tb) = trim_range(s, 0, s.len());
    let ghost t = s@.subrange(ta as int, tb as int);
    if ta == tb || s[ta] == 35 {
        return None;
    }
    let ps = match find_byte(s, ta, tb, 91) {
        Some(i) => i,
        None => { return None; },
    };
    let pe = match find_byte(s, ta, tb, 93) {
        Some(i) => i,
        None => { return None; },
    };
    proof {
        lemma_first_byte_range(t, 91, t.len());
        lemma_first_byte_range(t, 93, t.len());
        assert(t.subrange(ps + 1, pe as int) =~= s@.subrange(ta + ps + 1, ta + pe));
    }
    let prompt = match parse_prompt_list(s, ta + ps + 1, ta + pe) {
        Some(v) => v,
        None => { return None; },
    };
    let expected_top1 = match expected_exec(s, ta, tb) {
        Ok(e) => e,
        Err(()) => { return None; },
    };
    Some(EvalRow { prompt, expected_top1 })
}

/// Logits of the last token of an `m`-token run: its row of the final
/// activations against the `(vocab, hidden)` row-major LM head.
pub open spec fn last_token_logits(acts: Seq<i8>, m: int, hidden: int, vocab: int, lm_head: Seq<i8>) -> Seq<i32> {
    matmul_spec(acts.subrange((m - 1) * hidden, m * hidden), lm_head, 1, hidden, vocab)
}

/// Top-1 prediction from the final activations of an `m`-token prompt: the
/// index of the largest logit of the last token (the first on ties) and
/// that logit. `None` without an LM head; the projection's error where its
/// shapes do not fit.
pub fn predict_top1(final_acts: &[i8], m: usize, hidden: u32, vocab: u32, lm_head: &[i8])
    -> (r: Result<Option<(u32, i32)>, MatmulError>)
    requires
        m >= 1,
        m * hidden <= final_acts@.len(),
    ensures
        lm_head@.len() == 0 ==> r == Ok::<Option<(u32, i32)>, MatmulError>(None),
        lm_head@.len() != 0 ==> match matmul_check(hidden as int, lm_head@.len() as int, vocab as int, 1, hidden as int, vocab as int) {
            Err(e) => r == Err::<Option<(u32, i32)>, MatmulError>(e),
            Ok(_) => {
                let logits = last_token_logits(final_acts@, m as int, hidden as int, vocab as int, lm_head@);
                let i = argmax_spec(logits, vocab as nat);
                r == Ok::<Option<(u32, i32)>, MatmulError>(Some((i as u32, logits[i])))
            },
        },
{
    if lm_head.len() == 0 {
        return Ok(None);
    }
    let flen = final_acts.len();
    let h = hidden as usize;
    proof {
        assert((m - 1) * h + h == m * h) by (nonlinear_arith);
        assert((m - 1) * h <= m * h) by (nonlinear_arith);
    }
    let off = (m - 1) * h;
    let mut last: Vec<i8> = Vec::new();
    let mut k: usize = 0;
    while k < h
        invariant
            h == hidden,
            off == (m - 1) * h,
            off + h <= final_acts@.len(),
            flen == final_acts@.len(),
            k <= h,
            last@ == final_acts@.subrange(off as int, off + k),
        decreases h - k,
    {
        last.push(final_acts[off + k]);
        proof {
            assert(final_acts@.subrange(off as int, off + k + 1) =~= final_acts@.subrange(off as int, off + k).push(final_acts@[off + k]));
        }
        k = k + 1;
    }
    let mut logits: Vec<i32> = vec![0i32; vocab as usize];
    match matmul_int8(last.as_slice(), lm_head, 1, hidden, vocab, logits.as_mut_slice()) {
        Err(e) => {
            return Err(e);
        },
        Ok(()) => {},
    }
    proof {
        assert(last@ == final_acts@.subrange((m - 1) * hidden, m * hidden));
        lemma_argmax_bound(logits@, vocab as nat);
    }
    match argmax_logits(logits.as_slice()) {
        Some(i) => Ok(Some((i, logits[i as usize]))),
        None => Ok(None),
    }
}

} // verus!
