//! Web-surface probe bookkeeping: the scheme plan per port, extraction of
//! the page title and the `generator` meta tag from fetched bodies, and the
//! favicon fingerprint.  All HTTP fetching lives in the unverified front
//! end; the byte-level extraction is verified here.
//!
//! Pattern matching on markup is ASCII-case-insensitive, working directly on
//! the body's bytes.

use vstd::prelude::*;
use vstd::slice::slice_subrange;
use vstd::string::StringSliceAdditionalSpecFns;
use crate::ports::{find_byte_from, lemma_scan_to_find_from, scan_byte, trim_bytes, trim_range};
use crate::udp::{utf8_lossy, utf8_lossy_of};

verus! {

/// Options for the web-surface probe.
#[derive(Debug, Clone)]
pub struct WebProbeOptions {
    pub timeout_ms: u64,
    pub redirects: usize,
    pub user_agent: String,
    pub fetch_favicon: bool,
}

/// What probing one target and port produced.
#[derive(Debug, Clone)]
pub struct WebResult {
    pub target: String,
    pub url: String,
    pub final_url: String,
    pub status: Option<u16>,
    pub server: Option<String>,
    pub title: Option<String>,
    pub fingerprints: Vec<String>,
    pub started_at: String,
    pub ended_at: String,
    pub duration_ms: u128,
    pub favicon_url: Option<String>,
    pub favicon_mmh3: Option<i32>,
    pub error: Option<String>,
}

/// Which schemes to try against a port, in order.
#[derive(Debug, Clone, Copy, PartialEq, Eq, Structural)]
pub enum SchemePlan {
    /// A well-known TLS port: try `https` only.
    HttpsOnly,
    /// A well-known plain port: try `http` only.
    HttpOnly,
    /// Anything else: try `https`, then fall back to `http`.
    HttpsThenHttp,
}

/// The scheme plan for a port.
pub fn scheme_plan(port: u16) -> (r: SchemePlan)
    ensures
        (port == 443 || port == 8443 || port == 9443) ==> r == SchemePlan::HttpsOnly,
        (port == 80 || port == 8080 || port == 8000) ==> r == SchemePlan::HttpOnly,
        !(port == 443 || port == 8443 || port == 9443 || port == 80 || port == 8080 || port
            == 8000) ==> r == SchemePlan::HttpsThenHttp,
{
    if port == 443 || port == 8443 || port == 9443 {
        SchemePlan::HttpsOnly
    } else if port == 80 || port == 8080 || port == 8000 {
        SchemePlan::HttpOnly
    } else {
        SchemePlan::HttpsThenHttp
    }
}

/// ASCII lowercasing of one byte.
pub open spec fn lower_byte(b: u8) -> u8 {
    if 65 <= b && b <= 90 {
        (b + 32) as u8
    } else {
        b
    }
}

/// The (lowercase) pattern matches at position `i` of `h`, ignoring ASCII
/// case.
pub open spec fn ci_match_at(h: Seq<u8>, pat: Seq<u8>, i: int) -> bool {
    0 <= i && i + pat.len() <= h.len() && (forall|k: int|
        0 <= k < pat.len() ==> lower_byte(h[i + k]) == #[trigger] pat[k])
}

/// First position at or after `i` where the pattern matches, ignoring case.
pub open spec fn ci_find_from(h: Seq<u8>, pat: Seq<u8>, i: nat) -> Option<int>
    decreases h.len() + 1 - i,
{
    if i + pat.len() > h.len() {
        None
    } else if ci_match_at(h, pat, i as int) {
        Some(i as int)
    } else {
        ci_find_from(h, pat, (i + 1) as nat)
    }
}

proof fn lemma_ci_find_some(h: Seq<u8>, pat: Seq<u8>, i: nat, k: nat)
    requires
        i <= k,
        ci_match_at(h, pat, k as int),
        forall|j: int| i <= j < k ==> !ci_match_at(h, pat, j),
    ensures
        ci_find_from(h, pat, i) == Some(k as int),
    decreases k - i,
{
    if i < k {
        lemma_ci_find_some(h, pat, (i + 1) as nat, k);
    }
}

proof fn lemma_ci_find_none(h: Seq<u8>, pat: Seq<u8>, i: nat)
    requires
        forall|j: int| i <= j ==> !ci_match_at(h, pat, j),
    ensures
        ci_find_from(h, pat, i) is None,
    decreases h.len() + 1 - i,
{
    if i + pat.len() <= h.len() {
        lemma_ci_find_none(h, pat, (i + 1) as nat);
    }
}

fn lower_b(b: u8) -> (r: u8)
    ensures
        r == lower_byte(b),
{
    if 65 <= b && b <= 90 {
        b + 32
    } else {
        b
    }
}

/// Find the (lowercase) pattern in `h` at or after `from`, ignoring case.
fn ci_find_exec(h: &[u8], pat: &Vec<u8>, from: usize) -> (r: Option<usize>)
    requires
        from <= h@.len(),
    ensures
        match r {
            Some(p) => ci_find_from(h@, pat@, from as nat) == Some(p as int) && from <= p
                && p + pat@.len() <= h@.len(),
            None => ci_find_from(h@, pat@, from as nat) is None,
        },
{
    let n = h.len();
    let plen = pat.len();
    if plen > n || from > n - plen {
        proof {
            assert forall|j: int| from <= j implies !ci_match_at(h@, pat@, j) by {}
            lemma_ci_find_none(h@, pat@, from as nat);
        }
        return None;
    }
    let mut i: usize = from;
    while i <= n - plen
        invariant
            from <= i,
            i <= n - plen + 1,
            plen == pat@.len(),
            plen <= n == h@.len(),
            forall|j: int| from <= j < i ==> !ci_match_at(h@, pat@, j),
        decreases n - i,
    {
        let mut k: usize = 0;
        let mut ok = true;
        while k < plen && ok
            invariant
                0 <= k <= plen,
                plen == pat@.len(),
                i + plen <= n == h@.len(),
                ok ==> (forall|k2: int|
                    0 <= k2 < k ==> lower_byte(h@[i + k2]) == #[trigger] pat@[k2]),
                !ok ==> !ci_match_at(h@, pat@, i as int),
            decreases (if ok {
                1int
            } else {
                0int
            }), plen - k,
        {
            if lower_b(h[i + k]) != pat[k] {
                ok = false;
            } else {
                k = k + 1;
            }
        }
        if ok {
            proof {
                assert(ci_match_at(h@, pat@, i as int));
                lemma_ci_find_some(h@, pat@, from as nat, i as nat);
            }
            return Some(i);
        }
        i = i + 1;
    }
    proof {
        assert forall|j: int| from <= j implies !ci_match_at(h@, pat@, j) by {
            if j < i {
            } else {
                assert(j + pat@.len() > h@.len());
            }
        }
        lemma_ci_find_none(h@, pat@, from as nat);
    }
    None
}

/// The pattern `<title`.
pub open spec fn title_open_pat() -> Seq<u8> {
    seq![60u8, 116, 105, 116, 108, 101]
}

/// The pattern `</title>`.
pub open spec fn title_close_pat() -> Seq<u8> {
    seq![60u8, 47, 116, 105, 116, 108, 101, 62]
}

fn title_open_vec() -> (r: Vec<u8>)
    ensures
        r@ =~= title_open_pat(),
{
    let mut v: Vec<u8> = Vec::new();
    v.push(60);
    v.push(116);
    v.push(105);
    v.push(116);
    v.push(108);
    v.push(101);
    v
}

fn title_close_vec() -> (r: Vec<u8>)
    ensures
        r@ =~= title_close_pat(),
{
    let mut v = title_open_vec();
    v.insert(1, 47);
    v.push(62);
    proof {
        assert(v@ =~= title_close_pat());
    }
    v
}

/// The bytes of the page title, if the body holds one: the text between the
/// first `<title...>` tag and the next `</title>`, trimmed of surrounding
/// ASCII whitespace, when that text is nonempty.
pub open spec fn title_of(sb: Seq<u8>) -> Option<Seq<u8>> {
    match ci_find_from(sb, title_open_pat(), 0) {
        None => None,
        Some(s) => {
            let g = find_byte_from(sb, 62, s as nat);
            if g >= sb.len() {
                None
            } else {
                match ci_find_from(sb, title_close_pat(), (g + 1) as nat) {
                    None => None,
                    Some(e) => {
                        let t = trim_bytes(sb.subrange(g as int + 1, e));
                        if t.len() > 0 {
                            Some(t)
                        } else {
                            None
                        }
                    },
                }
            }
        },
    }
}

/// Extract the page title from an HTML body.
pub fn extract_title(body: &str) -> (r: Option<String>)
    ensures
        ({
            let found = title_of(body.spec_bytes());
            match r {
                Some(s) => found is Some && s@ == utf8_lossy_of(found->0),
                None => found is None,
            }
        }),
{
    let bytes = body.as_bytes();
    let n = bytes.len();
    let ghost sb = body.spec_bytes();
    let open_pat = title_open_vec();
    let s = match ci_find_exec(bytes, &open_pat, 0) {
        None => {
            return None;
        },
        Some(s) => s,
    };
    let g = scan_byte(bytes, 62, s, n);
    proof {
        lemma_scan_to_find_from(bytes@, 62, 0, n as int, s as int, g as int);
        assert(bytes@.subrange(0, n as int) =~= sb);
    }
    if g == n {
        return None;
    }
    let close_pat = title_close_vec();
    let e = match ci_find_exec(bytes, &close_pat, g + 1) {
        None => {
            return None;
        },
        Some(e) => e,
    };
    let (ts, te) = trim_range(bytes, g + 1, e);
    proof {
        assert(trim_bytes(sb.subrange(g as int + 1, e as int)) =~= sb.subrange(
            ts as int,
            te as int,
        ));
    }
    if ts == te {
        return None;
    }
    let content = crate::ports::copy_range(bytes, ts, te);
    let title = utf8_lossy(content.as_slice());
    Some(title)
}

/// The pattern `<meta`.
pub open spec fn meta_pat() -> Seq<u8> {
    seq![60u8, 109, 101, 116, 97]
}

/// The pattern `name="generator"`.
pub open spec fn name_generator_pat() -> Seq<u8> {
    seq![110u8, 97, 109, 101, 61, 34, 103, 101, 110, 101, 114, 97, 116, 111, 114, 34]
}

/// The pattern `content=`.
pub open spec fn content_pat() -> Seq<u8> {
    seq![99u8, 111, 110, 116, 101, 110, 116, 61]
}

fn meta_vec() -> (r: Vec<u8>)
    ensures
        r@ =~= meta_pat(),
{
    let mut v: Vec<u8> = Vec::new();
    v.push(60);
    v.push(109);
    v.push(101);
    v.push(116);
    v.push(97);
    v
}

fn name_generator_vec() -> (r: Vec<u8>)
    ensures
        r@ =~= name_generator_pat(),
{
    let mut v: Vec<u8> = Vec::new();
    v.push(110);
    v.push(97);
    v.push(109);
    v.push(101);
    v.push(61);
    v.push(34);
    v.push(103);
    v.push(101);
    v.push(110);
    v.push(101);
    v.push(114);
    v.push(97);
    v.push(116);
    v.push(111);
    v.push(114);
    v.push(34);
    v
}

fn content_vec() -> (r: Vec<u8>)
    ensures
        r@ =~= content_pat(),
{
    let mut v: Vec<u8> = Vec::new();
    v.push(99);
    v.push(111);
    v.push(110);
    v.push(116);
    v.push(101);
    v.push(110);
    v.push(116);
    v.push(61);
    v
}

/// The value of the first `<meta ... name="generator" content="...">` tag,
/// as the naive scanner reads it: only the 4096 bytes after the body's first
/// `<meta` are examined, and the first quoted `content=` value inside that
/// window is taken.
#[verifier::opaque]
pub open spec fn meta_generator_of(sb: Seq<u8>) -> Option<Seq<u8>> {
    match ci_find_from(sb, meta_pat(), 0) {
        None => None,
        Some(i) => {
            let end = if i + 4096 < sb.len() {
                i + 4096
            } else {
                sb.len() as int
            };
            let chunk = sb.subrange(i, end);
            if ci_find_from(chunk, name_generator_pat(), 0) is Some {
                match ci_find_from(chunk, content_pat(), 0) {
                    None => None,
                    Some(ci) => {
                        let qpos = ci + 8;
                        if qpos >= chunk.len() {
                            None
                        } else {
                            let q = chunk[qpos];
                            if q == 34 || q == 39 {
                                let e = find_byte_from(chunk, q, (qpos + 1) as nat);
                                if e >= chunk.len() {
                                    None
                                } else {
                                    Some(chunk.subrange(qpos + 1, e as int))
                                }
                            } else {
                                None
                            }
                        }
                    },
                }
            } else {
                None
            }
        },
    }
}

/// Extract the `generator` meta value from an HTML body.
pub fn extract_meta_generator(body: &str) -> (r: Option<String>)
    ensures
        ({
            let found = meta_generator_of(body.spec_bytes());
            match r {
                Some(s) => found is Some && s@ == utf8_lossy_of(found->0),
                None => found is None,
            }
        }),
{
    match meta_generator_bytes(body.as_bytes()) {
        None => None,
        Some(g) => Some(utf8_lossy(g.as_slice())),
    }
}

/// The raw bytes of the `generator` meta value.
fn meta_generator_bytes(bytes: &[u8]) -> (r: Option<Vec<u8>>)
    ensures
        ({
            let found = meta_generator_of(bytes@);
            match r {
                Some(g) => found is Some && g@ == found->0,
                None => found is None,
            }
        }),
{
    proof {
        reveal(meta_generator_of);
    }
    let n = bytes.len();
    let ghost sb = bytes@;
    let mv = meta_vec();
    let i = match ci_find_exec(bytes, &mv, 0) {
        None => {
            return None;
        },
        Some(i) => i,
    };
    let end = if n - i > 4096 {
        i + 4096
    } else {
        n
    };
    let chunk = slice_subrange(bytes, i, end);
    let ghost chunk_v = sb.subrange(i as int, end as int);
    proof {
        assert(chunk@ =~= chunk_v);
    }
    let ngv = name_generator_vec();
    match ci_find_exec(chunk, &ngv, 0) {
        None => {
            return None;
        },
        Some(_) => {},
    }
    let cv = content_vec();
    let ci = match ci_find_exec(chunk, &cv, 0) {
        None => {
            return None;
        },
        Some(ci) => ci,
    };
    let qpos = ci + 8;
    if qpos >= chunk.len() {
        return None;
    }
    let q = chunk[qpos];
    if q != 34 && q != 39 {
        return None;
    }
    let e = scan_byte(chunk, q, qpos + 1, chunk.len());
    proof {
        lemma_scan_to_find_from(chunk@, q, 0, chunk@.len() as int, qpos as int + 1, e as int);
        assert(chunk@.subrange(0, chunk@.len() as int) =~= chunk_v);
    }
    if e == chunk.len() {
        return None;
    }
    let content = crate::ports::copy_range(chunk, qpos + 1, e);
    proof {
        assert(content@ =~= chunk_v.subrange(qpos as int + 1, e as int));
    }
    Some(content)
}

/// The name of base64's standard-alphabet encoding of some bytes.
pub uninterp spec fn b64_of(b: Seq<u8>) -> Seq<u8>;

/// Relies on base64's `STANDARD` engine `encode`: the encoding depends on
/// the input bytes alone.
#[verifier::external_body]
fn b64_encode(b: &Vec<u8>) -> (r: Vec<u8>)
    ensures
        r@ == b64_of(b@),
{
    base64::Engine::encode(&base64::engine::general_purpose::STANDARD, b).into_bytes()
}

/// The name of the murmur3 32-bit hash of some bytes under a seed.
pub uninterp spec fn murmur3_32_of(b: Seq<u8>, seed: u32) -> u32;

/// Relies on murmur3's `murmur3_32` over an in-memory cursor: the hash
/// depends on the bytes and the seed alone, and reading a cursor over a byte
/// slice cannot fail.
#[verifier::external_body]
fn murmur3_hash(b: &Vec<u8>, seed: u32) -> (r: u32)
    ensures
        r == murmur3_32_of(b@, seed),
{
    murmur3::murmur3_32(&mut std::io::Cursor::new(b.as_slice()), seed).unwrap()
}

/// The favicon fingerprint: the murmur3 hash (seed 0) of the standard base64
/// encoding of the icon bytes, read as a signed 32-bit value.
pub fn favicon_mmh3(icon: &Vec<u8>) -> (r: i32)
    ensures
        r == murmur3_32_of(b64_of(icon@), 0) as i32,
{
    let b64 = b64_encode(icon);
    let h = murmur3_hash(&b64, 0);
    #[verifier::truncate] (h as i32)
}

} // verus!
