//! Port-specification parsing: a comma-separated list of single ports and
//! `start-end` ranges is turned into a canonical strictly ascending,
//! duplicate-free list of ports in `1..=65535`.
//!
//! The grammar is modelled over the byte sequence of the input string:
//! the input splits at commas, every chunk is trimmed of surrounding ASCII
//! whitespace, empty chunks are skipped, and each remaining token is either
//! a decimal port number or two decimal port numbers joined by the first `-`.

use vstd::prelude::*;
use vstd::string::StringSliceAdditionalSpecFns;

verus! {

/// The three ways a token of a port specification can be bad.
#[derive(Debug, Clone, Copy, PartialEq, Eq, Structural)]
pub enum PortErrKind {
    /// Not a decimal number in `0..=65535`, or not a pair of them joined by `-`.
    Invalid,
    /// A port or range bound of zero.
    Zero,
    /// A range whose start exceeds its end.
    Inverted,
}

/// Error for an unparsable port specification; each variant carries the bytes
/// of the first offending token (trimmed, as it was examined).
#[derive(Debug, Clone)]
pub enum PortSpecError {
    InvalidToken { token: Vec<u8> },
    ZeroPort { token: Vec<u8> },
    RangeOrderInverted { token: Vec<u8> },
}

pub open spec fn is_space(b: u8) -> bool {
    b == 32 || b == 9 || b == 10 || b == 13 || b == 11 || b == 12
}

pub open spec fn is_digit_byte(b: u8) -> bool {
    48 <= b && b <= 57
}

pub open spec fn all_digits(t: Seq<u8>) -> bool {
    forall|i: int| 0 <= i < t.len() ==> is_digit_byte(#[trigger] t[i])
}

/// Value of a decimal digit string (most significant digit first).
pub open spec fn dec_val(t: Seq<u8>) -> int
    decreases t.len(),
{
    if t.len() == 0 {
        0
    } else {
        dec_val(t.drop_last()) * 10 + (t.last() - 48)
    }
}

/// Index of the first occurrence of `b` in `t` at or after `i`, or `t.len()`.
pub open spec fn find_byte_from(t: Seq<u8>, b: u8, i: nat) -> nat
    decreases t.len() - i,
{
    if i >= t.len() {
        t.len()
    } else if t[i as int] == b {
        i
    } else {
        find_byte_from(t, b, (i + 1) as nat)
    }
}

/// `find_byte_from` finds exactly the first occurrence.
pub proof fn lemma_find_byte_char(t: Seq<u8>, b: u8, k: nat)
    requires
        k <= t.len(),
        forall|j: int| 0 <= j < k ==> t[j] != b,
        k < t.len() ==> t[k as int] == b,
    ensures
        find_byte_from(t, b, 0) == k,
    decreases k,
{
    lemma_find_byte_char_from(t, b, 0, k);
}

proof fn lemma_find_byte_char_from(t: Seq<u8>, b: u8, i: nat, k: nat)
    requires
        i <= k <= t.len(),
        forall|j: int| i <= j < k ==> t[j] != b,
        k < t.len() ==> t[k as int] == b,
    ensures
        find_byte_from(t, b, i) == k,
    decreases t.len() - i,
{
    if i < t.len() && i < k {
        lemma_find_byte_char_from(t, b, (i + 1) as nat, k);
    }
}

/// A scan of `sb[lo..hi]` from `start` that stopped at `c` pins down
/// `find_byte_from` on the corresponding subrange.
pub(crate) proof fn lemma_scan_to_find_from(sb: Seq<u8>, b: u8, lo: int, hi: int, start: int, c: int)
    requires
        0 <= lo <= start <= c <= hi <= sb.len(),
        forall|j: int| start <= j < c ==> sb[j] != b,
        c < hi ==> sb[c] == b,
    ensures
        find_byte_from(sb.subrange(lo, hi), b, (start - lo) as nat) == c - lo,
{
    let t = sb.subrange(lo, hi);
    assert(forall|j: int| start - lo <= j < c - lo ==> t[j] == sb[lo + j] && t[j] != b);
    if c < hi {
        assert(t[c - lo] == sb[c]);
    }
    lemma_find_byte_char_from(t, b, (start - lo) as nat, (c - lo) as nat);
}

/// A scan of `sb[lo..hi]` that stopped at `c` pins down `find_byte_from` on
/// the corresponding subrange.
pub(crate) proof fn lemma_scan_to_find(sb: Seq<u8>, b: u8, lo: int, hi: int, c: int)
    requires
        0 <= lo <= c <= hi <= sb.len(),
        forall|j: int| lo <= j < c ==> sb[j] != b,
        c < hi ==> sb[c] == b,
    ensures
        find_byte_from(sb.subrange(lo, hi), b, 0) == c - lo,
{
    let t = sb.subrange(lo, hi);
    assert(forall|j: int| 0 <= j < c - lo ==> t[j] == sb[lo + j] && t[j] != b);
    if c < hi {
        assert(t[c - lo] == sb[c]);
    }
    lemma_find_byte_char(t, b, (c - lo) as nat);
}

pub open spec fn trim_front(t: Seq<u8>) -> Seq<u8>
    decreases t.len(),
{
    if t.len() > 0 && is_space(t[0]) {
        trim_front(t.drop_first())
    } else {
        t
    }
}

pub open spec fn trim_back(t: Seq<u8>) -> Seq<u8>
    decreases t.len(),
{
    if t.len() > 0 && is_space(t.last()) {
        trim_back(t.drop_last())
    } else {
        t
    }
}

/// A chunk with surrounding ASCII whitespace removed.
pub open spec fn trim_bytes(t: Seq<u8>) -> Seq<u8> {
    trim_back(trim_front(t))
}

/// If the first `k` bytes are spaces and byte `k` is not, trimming the front
/// keeps exactly the suffix from `k`.
pub proof fn lemma_trim_front_idx(t: Seq<u8>, k: int)
    requires
        0 <= k <= t.len(),
        forall|j: int| 0 <= j < k ==> is_space(#[trigger] t[j]),
        k < t.len() ==> !is_space(t[k]),
    ensures
        trim_front(t) =~= t.subrange(k, t.len() as int),
    decreases k,
{
    if k == 0 {
        assert(t.subrange(0, t.len() as int) =~= t);
    } else {
        assert(is_space(t[0]));
        let t2 = t.drop_first();
        assert(t2 =~= t.subrange(1, t.len() as int));
        lemma_trim_front_idx(t2, k - 1);
        assert(t2.subrange(k - 1, t2.len() as int) =~= t.subrange(k, t.len() as int));
    }
}

/// If the bytes from `k` on are spaces and byte `k - 1` is not, trimming the
/// back keeps exactly the prefix up to `k`.
pub proof fn lemma_trim_back_idx(t: Seq<u8>, k: int)
    requires
        0 <= k <= t.len(),
        forall|j: int| k <= j < t.len() ==> is_space(#[trigger] t[j]),
        k > 0 ==> !is_space(t[k - 1]),
    ensures
        trim_back(t) =~= t.subrange(0, k),
    decreases t.len() - k,
{
    if k == t.len() {
        if t.len() > 0 {
            assert(!is_space(t.last()));
        }
        assert(t.subrange(0, t.len() as int) =~= t);
    } else {
        assert(is_space(t.last()));
        let t2 = t.drop_last();
        assert(t2 =~= t.subrange(0, t.len() - 1));
        lemma_trim_back_idx(t2, k);
        assert(t2.subrange(0, k) =~= t.subrange(0, k));
    }
}

/// The tokens of a specification: split at commas, trimmed, empties dropped.
pub open spec fn active_tokens(s: Seq<u8>) -> Seq<Seq<u8>>
    decreases s.len(),
{
    let j = find_byte_from(s, 44, 0);
    if j >= s.len() {
        let t = trim_bytes(s);
        if t.len() > 0 {
            seq![t]
        } else {
            Seq::empty()
        }
    } else {
        let t = trim_bytes(s.subrange(0, j as int));
        let rest = active_tokens(s.subrange(j as int + 1, s.len() as int));
        if t.len() > 0 {
            seq![t] + rest
        } else {
            rest
        }
    }
}

/// A digit string that denotes a port: nonempty, all digits, value at most 65535.
pub open spec fn num_ok(t: Seq<u8>) -> bool {
    t.len() > 0 && all_digits(t) && dec_val(t) <= 65535
}

/// What, if anything, is wrong with one (trimmed, nonempty) token.
/// A zero port or bound is reported before an inverted range.
pub open spec fn token_err(t: Seq<u8>) -> Option<PortErrKind> {
    let j = find_byte_from(t, 45, 0);
    if j >= t.len() {
        if !num_ok(t) {
            Some(PortErrKind::Invalid)
        } else if dec_val(t) == 0 {
            Some(PortErrKind::Zero)
        } else {
            None
        }
    } else {
        let a = t.subrange(0, j as int);
        let b = t.subrange(j as int + 1, t.len() as int);
        if !num_ok(a) || !num_ok(b) {
            Some(PortErrKind::Invalid)
        } else if dec_val(a) == 0 || dec_val(b) == 0 {
            Some(PortErrKind::Zero)
        } else if dec_val(a) > dec_val(b) {
            Some(PortErrKind::Inverted)
        } else {
            None
        }
    }
}

/// Smallest port denoted by a valid token.
pub open spec fn token_lo(t: Seq<u8>) -> int {
    let j = find_byte_from(t, 45, 0);
    if j >= t.len() {
        dec_val(t)
    } else {
        dec_val(t.subrange(0, j as int))
    }
}

/// Largest port denoted by a valid token.
pub open spec fn token_hi(t: Seq<u8>) -> int {
    let j = find_byte_from(t, 45, 0);
    if j >= t.len() {
        dec_val(t)
    } else {
        dec_val(t.subrange(j as int + 1, t.len() as int))
    }
}

/// Whether a valid token denotes port `p`.
pub open spec fn token_covers(t: Seq<u8>, p: u16) -> bool {
    token_lo(t) <= p <= token_hi(t)
}

/// All tokens of the specification are well formed.
pub open spec fn spec_valid(s: Seq<u8>) -> bool {
    forall|i: int|
        0 <= i < active_tokens(s).len() ==> token_err(#[trigger] active_tokens(s)[i]) is None
}

/// Port `p` is denoted by some token of the specification.
pub open spec fn port_in_spec(s: Seq<u8>, p: u16) -> bool {
    exists|i: int|
        0 <= i < active_tokens(s).len() && token_covers(#[trigger] active_tokens(s)[i], p)
}

/// The error value reports kind and token of one offending token.
pub open spec fn err_matches(e: PortSpecError, t: Seq<u8>) -> bool {
    match e {
        PortSpecError::InvalidToken { token } => token@ == t && token_err(t)
            == Some(PortErrKind::Invalid),
        PortSpecError::ZeroPort { token } => token@ == t && token_err(t) == Some(
            PortErrKind::Zero,
        ),
        PortSpecError::RangeOrderInverted { token } => token@ == t && token_err(t) == Some(
            PortErrKind::Inverted,
        ),
    }
}

/// A strictly ascending port list (hence free of duplicates).
pub open spec fn strictly_ascending(s: Seq<u16>) -> bool {
    forall|i: int, j: int| 0 <= i < j < s.len() ==> s[i] < s[j]
}

/// The error value describes token `k` of the specification, every token
/// before `k` being well formed: the first offending token.
pub open spec fn reports_bad_token(sb: Seq<u8>, e: PortSpecError, k: int) -> bool {
    let toks = active_tokens(sb);
    0 <= k < toks.len() && (forall|i: int| 0 <= i < k ==> token_err(#[trigger] toks[i]) is None)
        && err_matches(e, toks[k])
}

/// The error value reports the first offending token of the specification.
pub open spec fn reports_first_bad(sb: Seq<u8>, e: PortSpecError) -> bool {
    exists|k: int| reports_bad_token(sb, e, k)
}

pub(crate) proof fn lemma_push_contains<T>(s: Seq<T>, x: T, y: T)
    ensures
        s.push(x).contains(y) <==> (s.contains(y) || x == y),
{
    if s.contains(y) {
        let i = choose|i: int| 0 <= i < s.len() && s[i] == y;
        assert(s.push(x)[i] == y);
    }
    if x == y {
        assert(s.push(x)[s.len() as int] == y);
    }
    if s.push(x).contains(y) {
        let i = choose|i: int| 0 <= i < s.push(x).len() && s.push(x)[i] == y;
        if i < s.len() {
            assert(s[i] == y);
        }
    }
}

fn is_space_b(b: u8) -> (r: bool)
    ensures
        r == is_space(b),
{
    b == 32 || b == 9 || b == 10 || b == 13 || b == 11 || b == 12
}

pub(crate) fn is_digit_b(b: u8) -> (r: bool)
    ensures
        r == is_digit_byte(b),
{
    48 <= b && b <= 57
}

/// First position of byte `b` in `bytes[from..to]`, or `to` if absent.
pub(crate) fn scan_byte(bytes: &[u8], b: u8, from: usize, to: usize) -> (c: usize)
    requires
        from <= to <= bytes@.len(),
    ensures
        from <= c <= to,
        forall|j: int| from <= j < c ==> bytes@[j] != b,
        c < to ==> bytes@[c as int] == b,
{
    let mut i: usize = from;
    while i < to && bytes[i] != b
        invariant
            from <= i <= to <= bytes@.len(),
            forall|j: int| from <= j < i ==> bytes@[j] != b,
        decreases to - i,
    {
        i = i + 1;
    }
    i
}

/// Bounds of `bytes[from..to]` with surrounding ASCII whitespace removed.
pub(crate) fn trim_range(bytes: &[u8], from: usize, to: usize) -> (r: (usize, usize))
    requires
        from <= to <= bytes@.len(),
    ensures
        from <= r.0 <= r.1 <= to,
        trim_bytes(bytes@.subrange(from as int, to as int)) =~= bytes@.subrange(
            r.0 as int,
            r.1 as int,
        ),
{
    let mut ts: usize = from;
    while ts < to && is_space_b(bytes[ts])
        invariant
            from <= ts <= to <= bytes@.len(),
            forall|j: int| from <= j < ts ==> is_space(#[trigger] bytes@[j]),
        decreases to - ts,
    {
        ts = ts + 1;
    }
    let mut te: usize = to;
    while te > ts && is_space_b(bytes[te - 1])
        invariant
            ts <= te <= to <= bytes@.len(),
            forall|j: int| te <= j < to ==> is_space(#[trigger] bytes@[j]),
        decreases te,
    {
        te = te - 1;
    }
    proof {
        let t = bytes@.subrange(from as int, to as int);
        lemma_trim_front_idx(t, ts - from);
        let tf = t.subrange(ts - from, t.len() as int);
        assert(tf =~= bytes@.subrange(ts as int, to as int));
        lemma_trim_back_idx(tf, te - ts);
        assert(tf.subrange(0, te - ts) =~= bytes@.subrange(ts as int, te as int));
    }
    (ts, te)
}

/// Decimal value of `bytes[from..to]` as a port number, if it is one.
fn parse_num(bytes: &[u8], from: usize, to: usize) -> (r: Option<u16>)
    requires
        from <= to <= bytes@.len(),
    ensures
        ({
            let t = bytes@.subrange(from as int, to as int);
            match r {
                Some(v) => num_ok(t) && v == dec_val(t),
                None => !num_ok(t),
            }
        }),
{
    let ghost t = bytes@.subrange(from as int, to as int);
    if from == to {
        return None;
    }
    let mut val: u32 = 0;
    let mut i: usize = from;
    while i < to
        invariant
            from <= i <= to <= bytes@.len(),
            t == bytes@.subrange(from as int, to as int),
            forall|j: int| 0 <= j < i - from ==> is_digit_byte(#[trigger] t[j]),
            ({
                let pre = t.subrange(0, i - from);
                (dec_val(pre) <= 65535 && val == dec_val(pre)) || (dec_val(pre) > 65535 && val
                    == 66000)
            }),
        decreases to - i,
    {
        let b = bytes[i];
        if !is_digit_b(b) {
            assert(t[i - from] == b);
            return None;
        }
        proof {
            let pre = t.subrange(0, i - from);
            let pre2 = t.subrange(0, i + 1 - from);
            assert(pre2.drop_last() =~= pre);
            assert(pre2.last() == t[i - from]);
            assert(t[i - from] == bytes@[i as int]);
        }
        let d = (b - 48) as u32;
        let next = val * 10 + d;
        if next > 65535 {
            val = 66000;
        } else {
            val = next;
        }
        i = i + 1;
    }
    proof {
        assert(t.subrange(0, to - from) =~= t);
    }
    if val <= 65535 {
        Some(val as u16)
    } else {
        None
    }
}

/// The bytes of `bytes[from..to]` as an owned vector.
pub(crate) fn copy_range(bytes: &[u8], from: usize, to: usize) -> (r: Vec<u8>)
    requires
        from <= to <= bytes@.len(),
    ensures
        r@ =~= bytes@.subrange(from as int, to as int),
{
    let mut out: Vec<u8> = Vec::new();
    let mut i: usize = from;
    while i < to
        invariant
            from <= i <= to <= bytes@.len(),
            out@ =~= bytes@.subrange(from as int, i as int),
        decreases to - i,
    {
        out.push(bytes[i]);
        proof {
            assert(bytes@.subrange(from as int, i as int).push(bytes@[i as int]) =~= bytes@
                .subrange(from as int, i + 1 as int));
        }
        i = i + 1;
    }
    out
}

/// Validate one trimmed, nonempty token and return the ports it denotes.
fn check_token(bytes: &[u8], ts: usize, te: usize) -> (r: Result<(u16, u16), PortSpecError>)
    requires
        ts < te <= bytes@.len(),
    ensures
        ({
            let t = bytes@.subrange(ts as int, te as int);
            match r {
                Ok(b) => token_err(t) is None && b.0 == token_lo(t) && b.1 == token_hi(t) && 1
                    <= b.0 <= b.1,
                Err(e) => token_err(t) is Some && err_matches(e, t),
            }
        }),
{
    let ghost t = bytes@.subrange(ts as int, te as int);
    let d = scan_byte(bytes, 45, ts, te);
    proof {
        assert(forall|j: int| 0 <= j < d - ts ==> t[j] == bytes@[ts + j] && t[j] != 45);
        if d < te {
            assert(t[d - ts] == bytes@[d as int]);
        }
        lemma_find_byte_char(t, 45, (d - ts) as nat);
    }
    if d == te {
        // single port
        match parse_num(bytes, ts, te) {
            None => Err(PortSpecError::InvalidToken { token: copy_range(bytes, ts, te) }),
            Some(v) => {
                if v == 0 {
                    Err(PortSpecError::ZeroPort { token: copy_range(bytes, ts, te) })
                } else {
                    Ok((v, v))
                }
            },
        }
    } else {
        let ghost a = t.subrange(0, d - ts);
        let ghost bb = t.subrange(d - ts + 1, t.len() as int);
        proof {
            assert(a =~= bytes@.subrange(ts as int, d as int));
            assert(bb =~= bytes@.subrange(d + 1 as int, te as int));
        }
        let lo = parse_num(bytes, ts, d);
        let hi = parse_num(bytes, d + 1, te);
        match (lo, hi) {
            (Some(l), Some(h)) => {
                if l == 0 || h == 0 {
                    Err(PortSpecError::ZeroPort { token: copy_range(bytes, ts, te) })
                } else if l > h {
                    Err(PortSpecError::RangeOrderInverted { token: copy_range(bytes, ts, te) })
                } else {
                    Ok((l, h))
                }
            },
            _ => Err(PortSpecError::InvalidToken { token: copy_range(bytes, ts, te) }),
        }
    }
}

/// Whether any stored range covers `p`.
fn ranges_cover(rs: &Vec<(u16, u16)>, p: u16) -> (r: bool)
    ensures
        r == exists|i: int| 0 <= i < rs@.len() && (#[trigger] rs@[i]).0 <= p <= rs@[i].1,
{
    let mut i: usize = 0;
    while i < rs.len()
        invariant
            0 <= i <= rs@.len(),
            forall|j: int| 0 <= j < i ==> !((#[trigger] rs@[j]).0 <= p <= rs@[j].1),
        decreases rs@.len() - i,
    {
        let (lo, hi) = rs[i];
        if lo <= p && p <= hi {
            return true;
        }
        i = i + 1;
    }
    false
}

/// Emit, in ascending order, every port covered by some range.
fn emit_ports(rs: &Vec<(u16, u16)>) -> (r: Vec<u16>)
    requires
        forall|i: int| 0 <= i < rs@.len() ==> (#[trigger] rs@[i]).0 >= 1,
    ensures
        strictly_ascending(r@),
        forall|p: u16|
            r@.contains(p) <==> exists|i: int|
                0 <= i < rs@.len() && (#[trigger] rs@[i]).0 <= p <= rs@[i].1,
{
    let mut out: Vec<u16> = Vec::new();
    let mut p: usize = 1;
    while p <= 65535
        invariant
            1 <= p <= 65536,
            strictly_ascending(out@),
            forall|k: int| 0 <= k < out@.len() ==> 1 <= (#[trigger] out@[k]) < p,
            forall|q: u16|
                q < p ==> ((#[trigger] out@.contains(q)) <==> exists|i: int|
                    0 <= i < rs@.len() && (#[trigger] rs@[i]).0 <= q <= rs@[i].1),
        decreases 65536 - p,
    {
        let pw = p as u16;
        if ranges_cover(rs, pw) {
            let ghost old_out = out@;
            out.push(pw);
            proof {
                assert forall|q: u16| q < p + 1 implies ((#[trigger] out@.contains(q)) <==> exists|
                    i: int,
                |
                    0 <= i < rs@.len() && (#[trigger] rs@[i]).0 <= q <= rs@[i].1) by {
                    lemma_push_contains(old_out, pw, q);
                }
            }
        } else {
            proof {
                assert forall|q: u16| q < p + 1 implies ((#[trigger] out@.contains(q)) <==> exists|
                    i: int,
                |
                    0 <= i < rs@.len() && (#[trigger] rs@[i]).0 <= q <= rs@[i].1) by {
                    if q < p {
                    } else {
                        assert(q == p);
                        if out@.contains(q) {
                            let k = choose|k: int| 0 <= k < out@.len() && out@[k] == q;
                            assert(out@[k] < p);
                        }
                    }
                }
            }
        }
        p = p + 1;
    }
    out
}

/// Parse a comma-separated list of ports and ranges (for example `22,80,443`
/// or `1-1024,8080`) into a strictly ascending, duplicate-free port list.
///
/// Returns an error naming the first offending token if any token is not a
/// port number in `1..=65535` or a well-ordered range of them.
pub fn parse_ports(s: &str) -> (r: Result<Vec<u16>, PortSpecError>)
    ensures
        ({
            let sb = s.spec_bytes();
            match r {
                Ok(v) => spec_valid(sb) && strictly_ascending(v@) && (forall|p: u16|
                    v@.contains(p) <==> port_in_spec(sb, p)),
                Err(e) => reports_first_bad(sb, e),
            }
        }),
{
    let bytes = s.as_bytes();
    let n = bytes.len();
    let ghost sb = s.spec_bytes();
    let mut ranges: Vec<(u16, u16)> = Vec::new();
    let ghost mut tdone: Seq<Seq<u8>> = Seq::empty();
    let mut cur: usize = 0;
    let mut done = false;
    proof {
        assert(sb.subrange(0, n as int) =~= sb);
    }
    while !done
        invariant
            sb == s.spec_bytes(),
            bytes@ == sb,
            n == sb.len(),
            0 <= cur <= n,
            ranges@.len() == tdone.len(),
            forall|i: int| 0 <= i < tdone.len() ==> token_err(#[trigger] tdone[i]) is None,
            forall|i: int|
                0 <= i < tdone.len() ==> (#[trigger] ranges@[i]).0 == token_lo(tdone[i])
                    && ranges@[i].1 == token_hi(tdone[i]) && 1 <= ranges@[i].0 <= ranges@[i].1,
            (if done {
                active_tokens(sb) =~= tdone
            } else {
                active_tokens(sb) =~= tdone + active_tokens(sb.subrange(cur as int, n as int))
            }),
        decreases (if done { 0int } else { 1int }), n - cur,
    {
        let ghost rem = sb.subrange(cur as int, n as int);
        let c = scan_byte(bytes, 44, cur, n);
        proof {
            assert(forall|j: int| 0 <= j < c - cur ==> rem[j] == sb[cur + j] && rem[j] != 44);
            if c < n {
                assert(rem[c - cur] == sb[c as int]);
            }
            lemma_find_byte_char(rem, 44, (c - cur) as nat);
        }
        let (ts, te) = trim_range(bytes, cur, c);
        proof {
            assert(rem.subrange(0, c - cur) =~= sb.subrange(cur as int, c as int));
            if c < n {
                assert(rem.subrange(c - cur + 1, rem.len() as int) =~= sb.subrange(
                    c + 1 as int,
                    n as int,
                ));
            }
        }
        let ghost tok = trim_bytes(sb.subrange(cur as int, c as int));
        let ghost tprev = tdone;
        proof {
            assert(tok =~= sb.subrange(ts as int, te as int));
        }
        if ts < te {
            match check_token(bytes, ts, te) {
                Ok(b) => {
                    ranges.push(b);
                    proof {
                        tdone = tdone.push(tok);
                    }
                },
                Err(e) => {
                    proof {
                        let toks = active_tokens(sb);
                        let k = tdone.len() as int;
                        if c < n {
                            assert(active_tokens(rem) =~= seq![tok] + active_tokens(
                                sb.subrange(c + 1 as int, n as int),
                            ));
                        } else {
                            assert(active_tokens(rem) =~= seq![tok]);
                        }
                        assert(toks =~= tdone + active_tokens(rem));
                        assert(toks[k] == tok);
                        assert(err_matches(e, toks[k]));
                        assert(forall|i: int| 0 <= i < k ==> toks[i] == tdone[i]);
                        assert(forall|i: int| 0 <= i < k ==> token_err(#[trigger] toks[i]) is None);
                        assert(reports_bad_token(sb, e, k));
                        assert(reports_first_bad(sb, e));
                    }
                    return Err(e);
                },
            }
        }
        if c == n {
            done = true;
            proof {
                if ts < te {
                    assert(active_tokens(rem) =~= seq![tok]);
                    assert(tprev + seq![tok] =~= tdone);
                } else {
                    assert(tok.len() == 0);
                    assert(active_tokens(rem) =~= Seq::<Seq<u8>>::empty());
                    assert(tprev + Seq::<Seq<u8>>::empty() =~= tdone);
                }
                assert(active_tokens(sb) =~= tdone);
            }
        } else {
            cur = c + 1;
            proof {
                let rem2 = sb.subrange(cur as int, n as int);
                if ts < te {
                    assert(active_tokens(rem) =~= seq![tok] + active_tokens(rem2));
                    assert(tprev + (seq![tok] + active_tokens(rem2)) =~= tdone + active_tokens(
                        rem2,
                    ));
                } else {
                    assert(tok.len() == 0);
                    assert(active_tokens(rem) =~= active_tokens(rem2));
                }
                assert(active_tokens(sb) =~= tdone + active_tokens(rem2));
            }
        }
    }
    let out = emit_ports(&ranges);
    proof {
        assert forall|p: u16| out@.contains(p) <==> port_in_spec(sb, p) by {
            assert(active_tokens(sb) =~= tdone);
            if out@.contains(p) {
                let i = choose|i: int|
                    0 <= i < ranges@.len() && (#[trigger] ranges@[i]).0 <= p <= ranges@[i].1;
                assert(token_covers(active_tokens(sb)[i], p));
            }
            if port_in_spec(sb, p) {
                let i = choose|i: int|
                    0 <= i < active_tokens(sb).len() && token_covers(
                        #[trigger] active_tokens(sb)[i],
                        p,
                    );
                assert(ranges@[i].0 <= p <= ranges@[i].1);
            }
        }
    }
    Ok(out)
}

/// The curated list of commonly probed ports, in its fixed order.  The order
/// is load-bearing: `top_ports(n)` takes the first `n` entries, so changing
/// the order changes which ports a small `n` selects.
pub open spec fn curated_top_ports() -> Seq<u16> {
    seq![
        21u16, 22, 23, 25, 53, 80, 110, 123, 135, 139,
        143, 389, 443, 445, 465, 500, 587, 636, 993, 995,
        1080, 1194, 1352, 1433, 1521, 1723, 2049, 2375, 2376, 3000,
        3128, 3268, 3306, 3389, 4444, 4500, 5000, 5060, 5432, 5601,
        5671, 5672, 5900, 5985, 5986, 6379, 7001, 7002, 8000, 8080,
        8081, 8200, 8443, 8500, 8530, 8888, 9000, 9092, 9200, 9300,
        9418, 9999, 10000, 11211, 15672, 27017,
    ]
}

fn curated_ports_vec() -> (r: Vec<u16>)
    ensures
        r@ =~= curated_top_ports(),
{
    let mut v: Vec<u16> = Vec::new();
    v.push(21);
    v.push(22);
    v.push(23);
    v.push(25);
    v.push(53);
    v.push(80);
    v.push(110);
    v.push(123);
    v.push(135);
    v.push(139);
    v.push(143);
    v.push(389);
    v.push(443);
    v.push(445);
    v.push(465);
    v.push(500);
    v.push(587);
    v.push(636);
    v.push(993);
    v.push(995);
    v.push(1080);
    v.push(1194);
    v.push(1352);
    v.push(1433);
    v.push(1521);
    v.push(1723);
    v.push(2049);
    v.push(2375);
    v.push(2376);
    v.push(3000);
    v.push(3128);
    v.push(3268);
    v.push(3306);
    v.push(3389);
    v.push(4444);
    v.push(4500);
    v.push(5000);
    v.push(5060);
    v.push(5432);
    v.push(5601);
    v.push(5671);
    v.push(5672);
    v.push(5900);
    v.push(5985);
    v.push(5986);
    v.push(6379);
    v.push(7001);
    v.push(7002);
    v.push(8000);
    v.push(8080);
    v.push(8081);
    v.push(8200);
    v.push(8443);
    v.push(8500);
    v.push(8530);
    v.push(8888);
    v.push(9000);
    v.push(9092);
    v.push(9200);
    v.push(9300);
    v.push(9418);
    v.push(9999);
    v.push(10000);
    v.push(11211);
    v.push(15672);
    v.push(27017);
    v
}

/// The first `n` entries of the curated port list (all of it if `n` is larger).
pub fn top_ports(n: usize) -> (r: Vec<u16>)
    ensures
        r@ =~= curated_top_ports().take(if n < 66 { n as int } else { 66int }),
{
    let mut v = curated_ports_vec();
    if n < v.len() {
        v.truncate(n);
    }
    v
}

/// The default port selection when none is specified: the first 64 curated ports.
pub fn default_top_ports() -> (r: Vec<u16>)
    ensures
        r@ =~= curated_top_ports().take(64),
{
    top_ports(64)
}

} // verus!
