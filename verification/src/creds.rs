//! Credential-hash classification and wordlist statistics.
//!
//! A hash string is classified by its scheme prefix (crypt-style `$...$`
//! markers, LDAP `{...}` markers), by the NetNTLMv2 colon layout, or by its
//! length as a bare hexadecimal digest.  The input is examined after
//! stripping surrounding ASCII whitespace.

use vstd::prelude::*;
use vstd::string::StringSliceAdditionalSpecFns;
use crate::ports::{
    all_digits,
    copy_range,
    find_byte_from,
    is_digit_byte,
    lemma_scan_to_find,
    lemma_scan_to_find_from,
    scan_byte,
    trim_bytes,
    trim_range,
};

verus! {

/// The recognized credential-hash schemes.
#[derive(Debug, Clone, Copy, PartialEq, Eq, Structural)]
#[allow(non_camel_case_types)]
pub enum HashKind {
    MD5,
    SHA1,
    SHA256,
    SHA512,
    APR1,
    SHA1_CRYPT,
    SHA256_CRYPT,
    SHA512_CRYPT,
    NTLM,
    Bcrypt,
    Argon2,
    SSHA,
    NetNTLMv2,
    Unknown,
}

/// A hexadecimal digit, either case.
pub open spec fn is_hex_byte(b: u8) -> bool {
    is_digit_byte(b) || (97 <= b && b <= 102) || (65 <= b && b <= 70)
}

/// Entirely hexadecimal digits.
pub open spec fn all_hex(t: Seq<u8>) -> bool {
    forall|i: int| 0 <= i < t.len() ==> is_hex_byte(#[trigger] t[i])
}

/// A bcrypt marker: `$2a$`, `$2b$` or `$2y$`.
pub open spec fn is_bcrypt(t: Seq<u8>) -> bool {
    t.len() >= 4 && t[0] == 36 && t[1] == 50 && (t[2] == 97 || t[2] == 98 || t[2] == 121) && t[3]
        == 36
}

/// An argon2 marker: `$argon2i$`, `$argon2id$` or `$argon2d$`.
pub open spec fn is_argon2(t: Seq<u8>) -> bool {
    t.len() >= 9 && t[0] == 36 && t[1] == 97 && t[2] == 114 && t[3] == 103 && t[4] == 111 && t[5]
        == 110 && t[6] == 50 && ((t[7] == 105 && t[8] == 36) || (t[7] == 100 && t[8] == 36) || (
    t[7] == 105 && t[8] == 100 && t.len() >= 10 && t[9] == 36))
}

/// The LDAP salted-SHA marker `{SSHA}`.
pub open spec fn is_ssha(t: Seq<u8>) -> bool {
    t.len() >= 6 && t[0] == 123 && t[1] == 83 && t[2] == 83 && t[3] == 72 && t[4] == 65 && t[5]
        == 125
}

/// The Apache MD5-crypt marker `$apr1$`.
pub open spec fn is_apr1(t: Seq<u8>) -> bool {
    t.len() >= 6 && t[0] == 36 && t[1] == 97 && t[2] == 112 && t[3] == 114 && t[4] == 49 && t[5]
        == 36
}

/// A short crypt marker `$c$` for the given digit `c`.
pub open spec fn is_crypt_marker(t: Seq<u8>, digit: u8) -> bool {
    t.len() >= 3 && t[0] == 36 && t[1] == digit && t[2] == 36
}

/// The LDAP SHA marker `{SHA}`.
pub open spec fn is_ldap_sha(t: Seq<u8>) -> bool {
    t.len() >= 5 && t[0] == 123 && t[1] == 83 && t[2] == 72 && t[3] == 65 && t[4] == 125
}

/// Two adjacent colons somewhere in the text.
pub open spec fn has_double_colon(t: Seq<u8>) -> bool {
    exists|i: int| 0 <= i && i + 1 < t.len() && t[i] == 58 && #[trigger] t[i + 1] == 58
}

/// The NetNTLMv2 layout: a double colon, at least five colon-separated
/// fields, the third at least 16 hex digits and the fourth at least 32.
pub open spec fn is_netntlmv2(t: Seq<u8>) -> bool {
    let q0 = find_byte_from(t, 58, 0);
    let q1 = find_byte_from(t, 58, (q0 + 1) as nat);
    let q2 = find_byte_from(t, 58, (q1 + 1) as nat);
    let q3 = find_byte_from(t, 58, (q2 + 1) as nat);
    has_double_colon(t) && q3 < t.len() && q2 - q1 - 1 >= 16 && all_hex(
        t.subrange(q1 as int + 1, q2 as int),
    ) && q3 - q2 - 1 >= 32 && all_hex(t.subrange(q2 as int + 1, q3 as int))
}

/// Classification of a trimmed hash string, scheme markers first, then the
/// NetNTLMv2 layout, then bare hex digests by length (a 32-digit digest is
/// reported as NTLM, never as MD5).
pub open spec fn spec_detect(t: Seq<u8>) -> HashKind {
    if is_bcrypt(t) {
        HashKind::Bcrypt
    } else if is_argon2(t) {
        HashKind::Argon2
    } else if is_ssha(t) {
        HashKind::SSHA
    } else if is_apr1(t) {
        HashKind::APR1
    } else if is_crypt_marker(t, 49) {
        HashKind::SHA1_CRYPT
    } else if is_crypt_marker(t, 53) {
        HashKind::SHA256_CRYPT
    } else if is_crypt_marker(t, 54) {
        HashKind::SHA512_CRYPT
    } else if is_ldap_sha(t) {
        HashKind::SHA1
    } else if is_netntlmv2(t) {
        HashKind::NetNTLMv2
    } else if t.len() == 32 && all_hex(t) {
        HashKind::NTLM
    } else if t.len() == 40 && all_hex(t) {
        HashKind::SHA1
    } else if t.len() == 64 && all_hex(t) {
        HashKind::SHA256
    } else if t.len() == 128 && all_hex(t) {
        HashKind::SHA512
    } else {
        HashKind::Unknown
    }
}

fn is_hex_b(b: u8) -> (r: bool)
    ensures
        r == is_hex_byte(b),
{
    (48 <= b && b <= 57) || (97 <= b && b <= 102) || (65 <= b && b <= 70)
}

/// Are the bytes of `bytes[from..to]` all hexadecimal digits?
fn all_hex_range(bytes: &[u8], from: usize, to: usize) -> (r: bool)
    requires
        from <= to <= bytes@.len(),
    ensures
        r == all_hex(bytes@.subrange(from as int, to as int)),
{
    let ghost t = bytes@.subrange(from as int, to as int);
    let mut i: usize = from;
    while i < to
        invariant
            from <= i <= to <= bytes@.len(),
            t == bytes@.subrange(from as int, to as int),
            forall|j: int| 0 <= j < i - from ==> is_hex_byte(#[trigger] t[j]),
        decreases to - i,
    {
        if !is_hex_b(bytes[i]) {
            assert(t[i - from] == bytes@[i as int]);
            return false;
        }
        proof {
            assert(t[i - from] == bytes@[i as int]);
        }
        i = i + 1;
    }
    true
}

/// The NetNTLMv2 layout check on `bytes[ts..te]`.
fn netntlmv2_range(bytes: &[u8], ts: usize, te: usize) -> (r: bool)
    requires
        ts <= te <= bytes@.len(),
    ensures
        r == is_netntlmv2(bytes@.subrange(ts as int, te as int)),
{
    let ghost t = bytes@.subrange(ts as int, te as int);
    // double colon scan
    let mut has_dc = false;
    let mut i: usize = ts;
    if te > ts {
        while i < te - 1 && !has_dc
            invariant
                ts <= i <= te - 1,
                te <= bytes@.len(),
                ts < te,
                t == bytes@.subrange(ts as int, te as int),
                has_dc ==> has_double_colon(t),
                !has_dc ==> !(exists|j: int|
                    0 <= j && j + 1 < i - ts + 1 && t[j] == 58 && #[trigger] t[j + 1] == 58),
            decreases (if has_dc {
                0int
            } else {
                1int
            }), te - i,
        {
            if bytes[i] == 58 && bytes[i + 1] == 58 {
                has_dc = true;
                proof {
                    assert(t[i - ts] == 58 && t[(i - ts) + 1] == 58);
                }
            } else {
                proof {
                    assert forall|j: int|
                        !(0 <= j && j + 1 < i + 1 - ts + 1 && t[j] == 58 && #[trigger] t[j + 1]
                            == 58) by {
                        if 0 <= j && j + 1 < i + 1 - ts + 1 && j + 1 == i + 1 - ts {
                            assert(t[j] == bytes@[i as int] || t[j + 1] == bytes@[i as int + 1]);
                        }
                    }
                }
                i = i + 1;
            }
        }
    }
    if !has_dc {
        proof {
            if has_double_colon(t) {
                let j = choose|j: int|
                    0 <= j && j + 1 < t.len() && t[j] == 58 && #[trigger] t[j + 1] == 58;
                assert(j + 1 < te - ts);
            }
        }
        return false;
    }
    let p0 = scan_byte(bytes, 58, ts, te);
    proof {
        lemma_scan_to_find(bytes@, 58, ts as int, te as int, p0 as int);
    }
    if p0 == te {
        return false;
    }
    let p1 = scan_byte(bytes, 58, p0 + 1, te);
    proof {
        lemma_scan_to_find_from(bytes@, 58, ts as int, te as int, p0 as int + 1, p1 as int);
    }
    if p1 == te {
        return false;
    }
    let p2 = scan_byte(bytes, 58, p1 + 1, te);
    proof {
        lemma_scan_to_find_from(bytes@, 58, ts as int, te as int, p1 as int + 1, p2 as int);
    }
    if p2 == te {
        return false;
    }
    let p3 = scan_byte(bytes, 58, p2 + 1, te);
    proof {
        lemma_scan_to_find_from(bytes@, 58, ts as int, te as int, p2 as int + 1, p3 as int);
    }
    if p3 == te {
        return false;
    }
    proof {
        assert(t.subrange(p1 - ts + 1, p2 - ts as int) =~= bytes@.subrange(
            p1 as int + 1,
            p2 as int,
        ));
        assert(t.subrange(p2 - ts + 1, p3 - ts as int) =~= bytes@.subrange(
            p2 as int + 1,
            p3 as int,
        ));
    }
    if p2 - p1 - 1 < 16 {
        return false;
    }
    if !all_hex_range(bytes, p1 + 1, p2) {
        return false;
    }
    if p3 - p2 - 1 < 32 {
        return false;
    }
    all_hex_range(bytes, p2 + 1, p3)
}

/// Classify a credential-hash string after trimming ASCII whitespace.
#[verifier::rlimit(50)]
pub fn detect_hash(s: &str) -> (r: HashKind)
    ensures
        r == spec_detect(trim_bytes(s.spec_bytes())),
{
    let bytes = s.as_bytes();
    let n = bytes.len();
    let (ts, te) = trim_range(bytes, 0, n);
    let ghost t = trim_bytes(s.spec_bytes());
    proof {
        assert(bytes@.subrange(0, n as int) =~= bytes@);
        assert(t =~= bytes@.subrange(ts as int, te as int));
        assert(forall|k: int| 0 <= k < t.len() ==> #[trigger] t[k] == bytes@[ts + k]);
    }
    let m = te - ts;
    if m >= 4 && bytes[ts] == 36 && bytes[ts + 1] == 50 && (bytes[ts + 2] == 97 || bytes[ts + 2]
        == 98 || bytes[ts + 2] == 121) && bytes[ts + 3] == 36 {
        return HashKind::Bcrypt;
    }
    if m >= 9 && bytes[ts] == 36 && bytes[ts + 1] == 97 && bytes[ts + 2] == 114 && bytes[ts + 3]
        == 103 && bytes[ts + 4] == 111 && bytes[ts + 5] == 110 && bytes[ts + 6] == 50 && ((bytes[ts
        + 7] == 105 && bytes[ts + 8] == 36) || (bytes[ts + 7] == 100 && bytes[ts + 8] == 36) || (
    bytes[ts + 7] == 105 && bytes[ts + 8] == 100 && m >= 10 && bytes[ts + 9] == 36)) {
        return HashKind::Argon2;
    }
    if m >= 6 && bytes[ts] == 123 && bytes[ts + 1] == 83 && bytes[ts + 2] == 83 && bytes[ts + 3]
        == 72 && bytes[ts + 4] == 65 && bytes[ts + 5] == 125 {
        return HashKind::SSHA;
    }
    if m >= 6 && bytes[ts] == 36 && bytes[ts + 1] == 97 && bytes[ts + 2] == 112 && bytes[ts + 3]
        == 114 && bytes[ts + 4] == 49 && bytes[ts + 5] == 36 {
        return HashKind::APR1;
    }
    if m >= 3 && bytes[ts] == 36 && bytes[ts + 1] == 49 && bytes[ts + 2] == 36 {
        return HashKind::SHA1_CRYPT;
    }
    if m >= 3 && bytes[ts] == 36 && bytes[ts + 1] == 53 && bytes[ts + 2] == 36 {
        return HashKind::SHA256_CRYPT;
    }
    if m >= 3 && bytes[ts] == 36 && bytes[ts + 1] == 54 && bytes[ts + 2] == 36 {
        return HashKind::SHA512_CRYPT;
    }
    if m >= 5 && bytes[ts] == 123 && bytes[ts + 1] == 83 && bytes[ts + 2] == 72 && bytes[ts + 3]
        == 65 && bytes[ts + 4] == 125 {
        return HashKind::SHA1;
    }
    if netntlmv2_range(bytes, ts, te) {
        return HashKind::NetNTLMv2;
    }
    if m == 32 && all_hex_range(bytes, ts, te) {
        return HashKind::NTLM;
    }
    if m == 40 && all_hex_range(bytes, ts, te) {
        return HashKind::SHA1;
    }
    if m == 64 && all_hex_range(bytes, ts, te) {
        return HashKind::SHA256;
    }
    if m == 128 && all_hex_range(bytes, ts, te) {
        return HashKind::SHA512;
    }
    HashKind::Unknown
}

/// Whether the string is recognized as any kind of credential hash.
pub fn is_plausible_hash(s: &str) -> (r: bool)
    ensures
        r == (spec_detect(trim_bytes(s.spec_bytes())) != HashKind::Unknown),
{
    detect_hash(s) != HashKind::Unknown
}

/// The words of a wordlist: one candidate per line, trimmed of surrounding
/// ASCII whitespace, with empty lines and `#` comment lines dropped.
pub open spec fn active_words(s: Seq<u8>) -> Seq<Seq<u8>>
    decreases s.len(),
{
    let j = find_byte_from(s, 10, 0);
    if j >= s.len() {
        let w = trim_bytes(s);
        if w.len() > 0 && w[0] != 35 {
            seq![w]
        } else {
            Seq::empty()
        }
    } else {
        let w = trim_bytes(s.subrange(0, j as int));
        let rest = active_words(s.subrange(j as int + 1, s.len() as int));
        if w.len() > 0 && w[0] != 35 {
            seq![w] + rest
        } else {
            rest
        }
    }
}

/// Byte-vector equality.
fn vec_eq_u8(a: &Vec<u8>, b: &Vec<u8>) -> (r: bool)
    ensures
        r == (a@ == b@),
{
    if a.len() != b.len() {
        return false;
    }
    let mut i: usize = 0;
    while i < a.len()
        invariant
            a@.len() == b@.len(),
            0 <= i <= a@.len(),
            forall|j: int| 0 <= j < i ==> a@[j] == b@[j],
        decreases a@.len() - i,
    {
        if a[i] != b[i] {
            return false;
        }
        i = i + 1;
    }
    proof {
        assert(a@ =~= b@);
    }
    true
}

/// Count a wordlist's words: total, and distinct.
pub fn wordlist_stats(content: &str) -> (r: (usize, usize))
    ensures
        r.0 == active_words(content.spec_bytes()).len(),
        r.1 == active_words(content.spec_bytes()).to_set().len(),
{
    broadcast use vstd::set::group_set_axioms, vstd::seq_lib::seq_to_set_is_finite;

    let bytes = content.as_bytes();
    let n = bytes.len();
    let ghost sb = content.spec_bytes();
    let mut words: Vec<Vec<u8>> = Vec::new();
    let mut seen: Vec<Vec<u8>> = Vec::new();
    let ghost mut wdone: Seq<Seq<u8>> = Seq::empty();
    let mut cur: usize = 0;
    let mut done = false;
    proof {
        assert(sb.subrange(0, n as int) =~= sb);
        assert(wdone.to_set() =~= Set::<Seq<u8>>::empty());
    }
    while !done
        invariant
            sb == content.spec_bytes(),
            bytes@ == sb,
            n == sb.len(),
            0 <= cur <= n,
            words@.len() == wdone.len(),
            seen@.len() == wdone.to_set().len(),
            wdone.to_set().finite(),
            forall|x: Seq<u8>|
                #[trigger] wdone.contains(x) <==> (exists|k: int|
                    0 <= k < seen@.len() && (#[trigger] seen@[k])@ == x),
            (if done {
                active_words(sb) =~= wdone
            } else {
                active_words(sb) =~= wdone + active_words(sb.subrange(cur as int, n as int))
            }),
        decreases (if done {
            0int
        } else {
            1int
        }), n - cur,
    {
        let ghost rem = sb.subrange(cur as int, n as int);
        let c = scan_byte(bytes, 10, cur, n);
        proof {
            lemma_scan_to_find(bytes@, 10, cur as int, n as int, c as int);
        }
        let (ts, te) = trim_range(bytes, cur, c);
        proof {
            assert(rem.subrange(0, c - cur) =~= sb.subrange(cur as int, c as int));
            if c < n {
                assert(rem.subrange(c - cur + 1, rem.len() as int) =~= sb.subrange(
                    c + 1 as int,
                    n as int,
                ));
            }
        }
        let ghost w = trim_bytes(sb.subrange(cur as int, c as int));
        let ghost wprev = wdone;
        proof {
            assert(w =~= sb.subrange(ts as int, te as int));
        }
        let is_word = ts < te && bytes[ts] != 35;
        proof {
            if ts < te {
                assert(w[0] == sb[ts as int]);
            }
        }
        if is_word {
            let wv = copy_range(bytes, ts, te);
            let mut found = false;
            let mut k: usize = 0;
            while k < seen.len() && !found
                invariant
                    0 <= k <= seen@.len(),
                    wv@ == w,
                    found ==> (exists|k2: int|
                        0 <= k2 < seen@.len() && (#[trigger] seen@[k2])@ == w),
                    !found ==> (forall|k2: int| 0 <= k2 < k ==> (#[trigger] seen@[k2])@ != w),
                decreases (if found {
                    0int
                } else {
                    1int
                }), seen@.len() - k,
            {
                if vec_eq_u8(&seen[k], &wv) {
                    found = true;
                } else {
                    k = k + 1;
                }
            }
            let ghost seen_before = seen@;
            if !found {
                let wv2 = copy_range(bytes, ts, te);
                seen.push(wv2);
            }
            words.push(wv);
            proof {
                wdone = wprev.push(w);
                if found {
                    assert(seen@ == seen_before);
                    assert(wprev.contains(w)) by {
                        let k2 = choose|k2: int|
                            0 <= k2 < seen_before.len() && (#[trigger] seen_before[k2])@ == w;
                    }
                } else {
                    assert(seen@ == seen_before.push(seen@[seen@.len() - 1]));
                    assert(seen@[seen@.len() - 1]@ == w);
                    assert(!wprev.contains(w)) by {
                        if wprev.contains(w) {
                            let k2 = choose|k2: int|
                                0 <= k2 < seen_before.len() && (#[trigger] seen_before[k2])@ == w;
                            assert(false);
                        }
                    }
                }
                assert forall|x: Seq<u8>| #[trigger] wdone.contains(x) implies (exists|k2: int|
                    0 <= k2 < seen@.len() && (#[trigger] seen@[k2])@ == x) by {
                    let ix = choose|ix: int| 0 <= ix < wdone.len() && wdone[ix] == x;
                    if ix < wprev.len() {
                        assert(wprev[ix] == x);
                        assert(wprev.contains(x));
                        let k2 = choose|k2: int|
                            0 <= k2 < seen_before.len() && (#[trigger] seen_before[k2])@ == x;
                        assert(seen@[k2]@ == x);
                    } else {
                        assert(x == w);
                        if found {
                            let k2 = choose|k2: int|
                                0 <= k2 < seen_before.len() && (#[trigger] seen_before[k2])@ == w;
                            assert(seen@[k2]@ == x);
                        } else {
                            assert(seen@[seen@.len() - 1]@ == x);
                        }
                    }
                }
                assert forall|x: Seq<u8>|
                    (exists|k2: int| 0 <= k2 < seen@.len() && (#[trigger] seen@[k2])@ == x) implies
                    #[trigger] wdone.contains(x) by {
                    let k2 = choose|k2: int| 0 <= k2 < seen@.len() && (#[trigger] seen@[k2])@ == x;
                    if k2 < seen_before.len() {
                        assert(seen_before[k2]@ == x);
                        assert(wprev.contains(x));
                        let ix = choose|ix: int| 0 <= ix < wprev.len() && wprev[ix] == x;
                        assert(wdone[ix] == x);
                    } else {
                        assert(x == w);
                        assert(wdone[wdone.len() - 1] == w);
                    }
                }
                assert(wdone.to_set() =~= wprev.to_set().insert(w)) by {
                    assert forall|x: Seq<u8>| #[trigger] wdone.contains(x) implies wprev.contains(
                        x,
                    ) || x == w by {
                        let ix = choose|ix: int| 0 <= ix < wdone.len() && wdone[ix] == x;
                        if ix < wprev.len() {
                            assert(wprev[ix] == x);
                        }
                    }
                    assert forall|x: Seq<u8>| wprev.contains(x) || x == w implies #[trigger] wdone
                        .contains(x) by {
                        if wprev.contains(x) {
                            let ix = choose|ix: int| 0 <= ix < wprev.len() && wprev[ix] == x;
                            assert(wdone[ix] == x);
                        } else {
                            assert(wdone[wdone.len() - 1] == w);
                        }
                    }
                }
            }
        }
        if c == n {
            done = true;
            proof {
                if is_word {
                    assert(active_words(rem) =~= seq![w]);
                    assert(wprev + seq![w] =~= wdone);
                } else {
                    assert(active_words(rem) =~= Seq::<Seq<u8>>::empty());
                    assert(wprev + Seq::<Seq<u8>>::empty() =~= wdone);
                }
                assert(active_words(sb) =~= wdone);
            }
        } else {
            cur = c + 1;
            proof {
                let rem2 = sb.subrange(cur as int, n as int);
                if is_word {
                    assert(active_words(rem) =~= seq![w] + active_words(rem2));
                    assert(wprev + (seq![w] + active_words(rem2)) =~= wdone + active_words(rem2));
                } else {
                    assert(active_words(rem) =~= active_words(rem2));
                }
                assert(active_words(sb) =~= wdone + active_words(rem2));
            }
        }
    }
    (words.len(), seen.len())
}

} // verus!
