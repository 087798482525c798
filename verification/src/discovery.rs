//! Host-discovery bookkeeping: IPv4 CIDR expansion and the liveness verdict.
//!
//! A CIDR block `a.b.c.d/p` expands to its usable host addresses, each an
//! IPv4 address as a 32-bit integer, in ascending order.  The convention,
//! stated here rather than inherited: for prefixes up to /30 the network and
//! broadcast addresses are excluded; /31 and /32 blocks have no such
//! addresses, so every address of the block is usable.
//!
//! A candidate host is live exactly when at least one of the configured ports
//! accepts a connection within the timeout; the connecting is done by the
//! unverified front end, which feeds each outcome into the step function and
//! stops at the first acceptance.

use vstd::prelude::*;
use vstd::arithmetic::power2::{pow2, lemma_pow2_adds, lemma_pow2_pos, lemma_pow2_strictly_increases, lemma2_to64};
use vstd::arithmetic::div_mod::lemma_fundamental_div_mod;
use vstd::bits::{lemma_u32_shl_is_mul, lemma_u32_shr_is_div, lemma_u64_shl_is_mul};
use vstd::string::StringSliceAdditionalSpecFns;
use crate::ports::{
    all_digits,
    dec_val,
    find_byte_from,
    is_digit_byte,
    is_digit_b,
    lemma_scan_to_find,
    scan_byte,
};

verus! {

/// A decimal octet as it appears in a dotted quad: one to three digits, no
/// leading zero (except `0` itself), value at most 255.
pub open spec fn is_octet(t: Seq<u8>) -> bool {
    1 <= t.len() <= 3 && all_digits(t) && (t.len() == 1 || t[0] != 48) && dec_val(t) <= 255
}

/// The address denoted by a dotted quad `a.b.c.d`, if the bytes are one.
pub open spec fn dotted_quad_val(sb: Seq<u8>) -> Option<u32> {
    let d1 = find_byte_from(sb, 46, 0);
    if d1 >= sb.len() {
        None
    } else {
        let o1 = sb.subrange(0, d1 as int);
        let rest1 = sb.subrange(d1 as int + 1, sb.len() as int);
        let d2 = find_byte_from(rest1, 46, 0);
        if d2 >= rest1.len() {
            None
        } else {
            let o2 = rest1.subrange(0, d2 as int);
            let rest2 = rest1.subrange(d2 as int + 1, rest1.len() as int);
            let d3 = find_byte_from(rest2, 46, 0);
            if d3 >= rest2.len() {
                None
            } else {
                let o3 = rest2.subrange(0, d3 as int);
                let o4 = rest2.subrange(d3 as int + 1, rest2.len() as int);
                if is_octet(o1) && is_octet(o2) && is_octet(o3) && is_octet(o4) {
                    Some(
                        (dec_val(o1) * 0x1000000 + dec_val(o2) * 0x10000 + dec_val(o3) * 0x100
                            + dec_val(o4)) as u32,
                    )
                } else {
                    None
                }
            }
        }
    }
}

/// The address and prefix denoted by CIDR notation `a.b.c.d/p`, if any:
/// a dotted quad, a slash, and a prefix of one or two digits up to 32.
pub open spec fn cidr_parse(sb: Seq<u8>) -> Option<(u32, u32)> {
    let s = find_byte_from(sb, 47, 0);
    if s >= sb.len() {
        None
    } else {
        let ip_part = sb.subrange(0, s as int);
        let pre_part = sb.subrange(s as int + 1, sb.len() as int);
        match dotted_quad_val(ip_part) {
            None => None,
            Some(ip) => if 1 <= pre_part.len() <= 2 && all_digits(pre_part) && dec_val(pre_part)
                <= 32 {
                Some((ip, dec_val(pre_part) as u32))
            } else {
                None
            },
        }
    }
}

/// Number of addresses in a block with this prefix length.
pub open spec fn block_size(prefix: u32) -> int {
    pow2((32 - prefix) as nat) as int
}

/// The network address of the block holding `ip`: host bits cleared.
pub open spec fn network_of(ip: u32, prefix: u32) -> int {
    (ip as int / block_size(prefix)) * block_size(prefix)
}

/// First usable host address of a block.
pub open spec fn first_host(base: u32, prefix: u32) -> int {
    if prefix <= 30 {
        base + 1
    } else {
        base as int
    }
}

/// Number of usable host addresses of a block.
pub open spec fn host_count(prefix: u32) -> int {
    if prefix <= 30 {
        block_size(prefix) - 2
    } else {
        block_size(prefix)
    }
}

/// An IPv4 CIDR block in canonical form.
#[derive(Debug, Clone, Copy, PartialEq, Eq, Structural)]
pub struct Cidr4 {
    /// The network address: host bits cleared.
    pub base: u32,
    /// The prefix length, at most 32.
    pub prefix: u32,
}

impl Cidr4 {
    /// Canonical form: valid prefix, base aligned to the block size.
    pub open spec fn wf(self) -> bool {
        self.prefix <= 32 && self.base as int % block_size(self.prefix) == 0
    }
}

/// Error for CIDR notation that does not parse.
#[derive(Debug, Clone, Copy, PartialEq, Eq, Structural)]
pub enum CidrError {
    InvalidCidr,
}

/// A digit string of at most three digits stays below 1000.
proof fn lemma_dec_val_len(t: Seq<u8>)
    requires
        all_digits(t),
        t.len() <= 3,
    ensures
        0 <= dec_val(t),
        dec_val(t) <= (if t.len() == 0 {
            0int
        } else if t.len() == 1 {
            9int
        } else if t.len() == 2 {
            99int
        } else {
            999int
        }),
    decreases t.len(),
{
    if t.len() > 0 {
        let dl = t.drop_last();
        assert forall|j: int| 0 <= j < dl.len() implies is_digit_byte(#[trigger] dl[j]) by {
            assert(dl[j] == t[j]);
        }
        lemma_dec_val_len(dl);
        assert(is_digit_byte(t.last()));
    }
}

/// Parse an octet of `bytes[from..to]`.
fn parse_octet(bytes: &[u8], from: usize, to: usize) -> (r: Option<u8>)
    requires
        from <= to <= bytes@.len(),
    ensures
        ({
            let t = bytes@.subrange(from as int, to as int);
            match r {
                Some(v) => is_octet(t) && v == dec_val(t),
                None => !is_octet(t),
            }
        }),
{
    let ghost t = bytes@.subrange(from as int, to as int);
    if to - from < 1 || to - from > 3 {
        return None;
    }
    if to - from > 1 && bytes[from] == 48 {
        return None;
    }
    let mut val: u32 = 0;
    let mut i: usize = from;
    while i < to
        invariant
            from <= i <= to <= bytes@.len(),
            to - from <= 3,
            t == bytes@.subrange(from as int, to as int),
            forall|j: int| 0 <= j < i - from ==> is_digit_byte(#[trigger] t[j]),
            val == dec_val(t.subrange(0, i - from)),
            val <= 999,
        decreases to - i,
    {
        let b = bytes[i];
        if !is_digit_b(b) {
            assert(t[i - from] == b);
            return None;
        }
        proof {
            let pre = t.subrange(0, i - from);
            let pre2 = t.subrange(0, i + 1 - from);
            assert(pre2.drop_last() =~= pre);
            assert(pre2.last() == t[i - from]);
            assert(t[i - from] == bytes@[i as int]);
            lemma_dec_val_len(pre);
        }
        val = val * 10 + (b - 48) as u32;
        i = i + 1;
    }
    proof {
        assert(t.subrange(0, to - from) =~= t);
    }
    if val <= 255 {
        Some(val as u8)
    } else {
        None
    }
}

/// Parse `bytes[from..to]` as a dotted quad.
fn parse_ipv4(bytes: &[u8], from: usize, to: usize) -> (r: Option<u32>)
    requires
        from <= to <= bytes@.len(),
    ensures
        r == dotted_quad_val(bytes@.subrange(from as int, to as int)),
{
    let ghost sb = bytes@.subrange(from as int, to as int);
    let d1 = scan_byte(bytes, 46, from, to);
    proof {
        lemma_scan_to_find(bytes@, 46, from as int, to as int, d1 as int);
        assert(find_byte_from(sb, 46, 0) == d1 - from) by {
            assert(sb =~= bytes@.subrange(from as int, to as int));
        }
    }
    if d1 == to {
        return None;
    }
    let ghost rest1 = sb.subrange(d1 - from + 1, sb.len() as int);
    proof {
        assert(rest1 =~= bytes@.subrange(d1 as int + 1, to as int));
    }
    let d2 = scan_byte(bytes, 46, d1 + 1, to);
    proof {
        lemma_scan_to_find(bytes@, 46, d1 as int + 1, to as int, d2 as int);
        assert(find_byte_from(rest1, 46, 0) == d2 - (d1 + 1));
    }
    if d2 == to {
        return None;
    }
    let ghost rest2 = rest1.subrange(d2 - d1, rest1.len() as int);
    proof {
        assert(rest2 =~= bytes@.subrange(d2 as int + 1, to as int));
    }
    let d3 = scan_byte(bytes, 46, d2 + 1, to);
    proof {
        lemma_scan_to_find(bytes@, 46, d2 as int + 1, to as int, d3 as int);
        assert(find_byte_from(rest2, 46, 0) == d3 - (d2 + 1));
    }
    if d3 == to {
        return None;
    }
    proof {
        assert(sb.subrange(0, d1 - from) =~= bytes@.subrange(from as int, d1 as int));
        assert(rest1.subrange(0, d2 - (d1 + 1)) =~= bytes@.subrange(d1 as int + 1, d2 as int));
        assert(rest2.subrange(0, d3 - (d2 + 1)) =~= bytes@.subrange(d2 as int + 1, d3 as int));
        assert(rest2.subrange(d3 - (d2 + 1) + 1, rest2.len() as int) =~= bytes@.subrange(
            d3 as int + 1,
            to as int,
        ));
    }
    let o1 = parse_octet(bytes, from, d1);
    let o2 = parse_octet(bytes, d1 + 1, d2);
    let o3 = parse_octet(bytes, d2 + 1, d3);
    let o4 = parse_octet(bytes, d3 + 1, to);
    match (o1, o2, o3, o4) {
        (Some(a), Some(b), Some(c), Some(d)) => Some(
            (a as u32) * 0x1000000 + (b as u32) * 0x10000 + (c as u32) * 0x100 + (d as u32),
        ),
        _ => None,
    }
}

/// Clear the host bits of `ip` for this prefix length.
fn mask_network(ip: u32, prefix: u32) -> (r: u32)
    requires
        prefix <= 32,
    ensures
        r as int == network_of(ip, prefix),
        r as int % block_size(prefix) == 0,
        r <= ip,
{
    proof {
        lemma_pow2_pos((32 - prefix) as nat);
        lemma2_to64();
    }
    if prefix == 0 {
        proof {
            let s = block_size(0);
            assert(s == 0x100000000);
            lemma_fundamental_div_mod(ip as int, s);
            assert(ip as int / s == 0) by (nonlinear_arith)
                requires
                    s == 0x100000000,
                    0 <= ip < s,
                    ip as int == s * (ip as int / s) + ip as int % s,
                    0 <= ip as int % s < s,
            ;
            assert(network_of(ip, 0) == (ip as int / s) * s);
            assert((0int) * s == 0) by (nonlinear_arith);
            assert((0int) % s == 0) by (nonlinear_arith)
                requires
                    s >= 1,
            ;
        }
        0
    } else {
        let k = 32 - prefix;
        let down = ip >> k;
        proof {
            lemma_u32_shr_is_div(ip, k);
            let s = block_size(prefix);
            lemma_fundamental_div_mod(ip as int, s);
            assert(down as int == ip as int / s);
            assert(down as int * s <= ip as int) by (nonlinear_arith)
                requires
                    ip as int == s * (down as int) + ip as int % s,
                    0 <= ip as int % s,
            ;
            assert(down as int * pow2(k as nat) <= u32::MAX as int);
        }
        let up = down << k;
        proof {
            let s = block_size(prefix);
            lemma_u32_shl_is_mul(down, k);
            assert(up as int == down as int * s);
            vstd::arithmetic::div_mod::lemma_mod_multiples_basic(down as int, s);
        }
        up
    }
}

/// Parse CIDR notation `a.b.c.d/p` into its canonical block.
#[verifier::rlimit(30)]
pub fn parse_cidr4(s: &str) -> (r: Result<Cidr4, CidrError>)
    ensures
        ({
            let sb = s.spec_bytes();
            match r {
                Ok(c) => cidr_parse(sb) is Some && c.prefix == (cidr_parse(sb)->0).1 && c.base
                    as int == network_of((cidr_parse(sb)->0).0, c.prefix) && c.wf(),
                Err(_) => cidr_parse(sb) is None,
            }
        }),
{
    let bytes = s.as_bytes();
    let n = bytes.len();
    let ghost sb = s.spec_bytes();
    let sl = scan_byte(bytes, 47, 0, n);
    proof {
        lemma_scan_to_find(bytes@, 47, 0, n as int, sl as int);
        assert(sb.subrange(0, sb.len() as int) =~= sb);
        assert(find_byte_from(sb, 47, 0) == sl);
    }
    if sl == n {
        return Err(CidrError::InvalidCidr);
    }
    proof {
        assert(sb.subrange(0, sl as int) =~= bytes@.subrange(0, sl as int));
        assert(sb.subrange(sl as int + 1, sb.len() as int) =~= bytes@.subrange(
            sl as int + 1,
            n as int,
        ));
    }
    let ip = match parse_ipv4(bytes, 0, sl) {
        Some(v) => v,
        None => {
            return Err(CidrError::InvalidCidr);
        },
    };
    // prefix part: one or two digits, value at most 32
    let ghost pre = sb.subrange(sl as int + 1, sb.len() as int);
    if n - (sl + 1) < 1 || n - (sl + 1) > 2 {
        return Err(CidrError::InvalidCidr);
    }
    let b0 = bytes[sl + 1];
    if !is_digit_b(b0) {
        proof {
            assert(pre[0] == b0);
        }
        return Err(CidrError::InvalidCidr);
    }
    let mut pval: u32 = (b0 - 48) as u32;
    proof {
        assert(pre.subrange(0, 1).drop_last() =~= Seq::<u8>::empty());
        assert(pre.subrange(0, 1).last() == pre[0]);
        assert(pre[0] == b0);
    }
    if n - (sl + 1) == 2 {
        let b1 = bytes[sl + 2];
        if !is_digit_b(b1) {
            proof {
                assert(pre[1] == b1);
            }
            return Err(CidrError::InvalidCidr);
        }
        proof {
            assert(pre.drop_last() =~= pre.subrange(0, 1));
            assert(pre.last() == pre[1]);
            assert(pre[1] == b1);
            assert forall|j: int| 0 <= j < pre.len() implies is_digit_byte(#[trigger] pre[j]) by {
                if j == 0 {
                    assert(pre[0] == b0);
                } else {
                    assert(pre[1] == b1);
                }
            }
        }
        pval = pval * 10 + (b1 - 48) as u32;
    } else {
        proof {
            assert(pre.subrange(0, 1) =~= pre);
            assert forall|j: int| 0 <= j < pre.len() implies is_digit_byte(#[trigger] pre[j]) by {
                assert(pre[0] == b0);
            }
        }
    }
    proof {
        assert(all_digits(pre));
        assert(dec_val(Seq::<u8>::empty()) == 0);
        assert(dec_val(pre.subrange(0, 1)) == b0 - 48);
        assert(pval == dec_val(pre));
    }
    if pval > 32 {
        return Err(CidrError::InvalidCidr);
    }
    let base = mask_network(ip, pval);
    proof {
        assert(cidr_parse(sb) == Some((ip, pval)));
    }
    Ok(Cidr4 { base, prefix: pval })
}

/// Expand a canonical CIDR block into its usable host addresses, ascending.
pub fn expand_hosts(c: Cidr4) -> (r: Vec<u32>)
    requires
        c.wf(),
    ensures
        r@.len() == host_count(c.prefix),
        forall|k: int| 0 <= k < r@.len() ==> r@[k] == first_host(c.base, c.prefix) + k,
{
    let k = 32 - c.prefix;
    let size: u64 = 1u64 << k;
    proof {
        lemma2_to64();
        lemma_pow2_pos(k as nat);
        lemma_pow2_pos(c.prefix as nat);
        if (k as nat) < 32 {
            lemma_pow2_strictly_increases(k as nat, 32);
        }
        assert(1u64 * pow2(k as nat) <= u64::MAX);
        lemma_u64_shl_is_mul(1u64, k as u64);
        assert(size as int == block_size(c.prefix));
        // the block starts aligned, so it ends no later than 2^32
        let s = block_size(c.prefix);
        lemma_pow2_adds(c.prefix as nat, k as nat);
        let m = pow2(c.prefix as nat) as int;
        assert(m * s == 0x100000000);
        lemma_fundamental_div_mod(c.base as int, s);
        let q = c.base as int / s;
        assert(c.base as int == q * s) by (nonlinear_arith)
            requires
                c.base as int == s * q + c.base as int % s,
                c.base as int % s == 0,
        ;
        assert(q >= 0) by (nonlinear_arith)
            requires
                q * s == c.base as int,
                c.base >= 0,
                s >= 1,
        ;
        assert(c.base + size <= 0x100000000) by (nonlinear_arith)
            requires
                c.base as int == q * s,
                m * s == 0x100000000,
                s >= 1,
                m >= 1,
                c.base < 0x100000000,
                size == s,
                q >= 0,
        ;
        if c.prefix <= 30 {
            lemma_pow2_strictly_increases(1, k as nat);
        }
    }
    let first: u64 = if c.prefix <= 30 {
        c.base as u64 + 1
    } else {
        c.base as u64
    };
    let count: u64 = if c.prefix <= 30 {
        size - 2
    } else {
        size
    };
    let mut out: Vec<u32> = Vec::new();
    let mut i: u64 = 0;
    while i < count
        invariant
            i <= count,
            first + count <= 0x100000000,
            first as int == first_host(c.base, c.prefix),
            count as int == host_count(c.prefix),
            out@.len() == i,
            forall|j: int| 0 <= j < i ==> out@[j] == first + j,
        decreases count - i,
    {
        out.push((first + i) as u32);
        i = i + 1;
    }
    out
}

/// Some probed port accepted the connection.
pub open spec fn any_accepted(s: Seq<bool>) -> bool {
    exists|i: int| 0 <= i < s.len() && s[i]
}

/// What the discovery sweep does after probing one port of a candidate.
#[derive(Debug, Clone, Copy, PartialEq, Eq, Structural)]
pub enum LivenessStep {
    /// A port accepted: the host is live, probe no further port.
    Live,
    /// Refused, but ports remain: probe the next one.
    TryNextPort,
    /// Refused and no port remains: the host is not live.
    NotLive,
}

/// Decide after one single-attempt probe (`accepted`) with `remaining` ports
/// still unprobed.
pub fn liveness_step(accepted: bool, remaining: usize) -> (r: LivenessStep)
    ensures
        accepted ==> r == LivenessStep::Live,
        !accepted && remaining > 0 ==> r == LivenessStep::TryNextPort,
        !accepted && remaining == 0 ==> r == LivenessStep::NotLive,
{
    if accepted {
        LivenessStep::Live
    } else if remaining > 0 {
        LivenessStep::TryNextPort
    } else {
        LivenessStep::NotLive
    }
}

/// The live hosts among the candidates, keeping the order in which the
/// candidates (and their probe outcomes) are handed in.
pub open spec fn live_filter(ips: Seq<u32>, outs: Seq<Vec<bool>>, i: int) -> Seq<u32>
    decreases ips.len() - i,
{
    if i < 0 || i >= ips.len() {
        Seq::empty()
    } else if any_accepted(outs[i]@) {
        seq![ips[i]] + live_filter(ips, outs, i + 1)
    } else {
        live_filter(ips, outs, i + 1)
    }
}

/// The sweep's fan-in: given each candidate's probe outcomes, the live
/// candidates, in the order the completions were handed in.
pub fn live_hosts_from_outcomes(ips: &Vec<u32>, outcomes: &Vec<Vec<bool>>) -> (r: Vec<u32>)
    requires
        ips@.len() == outcomes@.len(),
    ensures
        r@ =~= live_filter(ips@, outcomes@, 0),
{
    let mut out: Vec<u32> = Vec::new();
    let mut i: usize = 0;
    while i < ips.len()
        invariant
            ips@.len() == outcomes@.len(),
            0 <= i <= ips@.len(),
            live_filter(ips@, outcomes@, 0) =~= out@ + live_filter(ips@, outcomes@, i as int),
        decreases ips@.len() - i,
    {
        let ghost out_before = out@;
        if host_live_from_outcomes(&outcomes[i]) {
            out.push(ips[i]);
            proof {
                assert(out@ =~= out_before + seq![ips@[i as int]]);
                assert(out_before + (seq![ips@[i as int]] + live_filter(ips@, outcomes@, i + 1))
                    =~= out@ + live_filter(ips@, outcomes@, i + 1));
            }
        }
        i = i + 1;
    }
    out
}

/// The liveness verdict over all probed ports: live exactly when at least one
/// accepted.  Stops at the first acceptance, as the sweep does.
pub fn host_live_from_outcomes(outcomes: &Vec<bool>) -> (r: bool)
    ensures
        r == any_accepted(outcomes@),
{
    let mut i: usize = 0;
    while i < outcomes.len()
        invariant
            0 <= i <= outcomes@.len(),
            forall|j: int| 0 <= j < i ==> !outcomes@[j],
        decreases outcomes@.len() - i,
    {
        if outcomes[i] {
            return true;
        }
        i = i + 1;
    }
    false
}

} // verus!
