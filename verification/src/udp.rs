//! Minimal UDP probe payloads and reply checks: a fixed DNS query, an SNMP
//! v2c GetRequest for one OID in simple BER encoding, and the light-weight
//! parsing of the replies.  Sending and receiving datagrams is the front
//! end's work; building and reading the bytes is verified here.

use vstd::prelude::*;
use vstd::slice::slice_subrange;
use vstd::string::StringSliceAdditionalSpecFns;

verus! {

/// The UDP services the probe knows.
#[derive(Debug, Clone, Copy, PartialEq, Eq, Structural)]
pub enum UdpService {
    Dns,
    Ntp,
    Snmp,
}

/// The fixed DNS query sent by the probe: ID 0x1234, recursion desired, one
/// question, the A record of `example.com` in class IN.
pub open spec fn dns_query_bytes() -> Seq<u8> {
    seq![
        0x12u8, 0x34, 0x01, 0x00, 0x00, 0x01, 0x00, 0x00, 0x00, 0x00, 0x00, 0x00, 7, 101, 120, 97,
        109, 112, 108, 101, 3, 99, 111, 109, 0, 0x00, 0x01, 0x00, 0x01,
    ]
}

/// Build the probe's DNS query datagram.
pub fn build_dns_query() -> (r: Vec<u8>)
    ensures
        r@ =~= dns_query_bytes(),
{
    let mut q: Vec<u8> = Vec::new();
    q.push(0x12);
    q.push(0x34);
    q.push(0x01);
    q.push(0x00);
    q.push(0x00);
    q.push(0x01);
    q.push(0x00);
    q.push(0x00);
    q.push(0x00);
    q.push(0x00);
    q.push(0x00);
    q.push(0x00);
    q.push(7);
    q.push(101);
    q.push(120);
    q.push(97);
    q.push(109);
    q.push(112);
    q.push(108);
    q.push(101);
    q.push(3);
    q.push(99);
    q.push(111);
    q.push(109);
    q.push(0);
    q.push(0x00);
    q.push(0x01);
    q.push(0x00);
    q.push(0x01);
    q
}

/// A DNS reply of `n` bytes looks like a response: the QR bit of the flags
/// is set.
pub fn dns_reply_is_response(buf: &[u8], n: usize) -> (r: bool)
    requires
        n <= buf@.len(),
    ensures
        r == (n >= 3 && (buf@[2] & 0x80) != 0),
{
    n >= 3 && (buf[2] & 0x80) != 0
}

/// An NTP reply is plausible when a whole 48-byte packet came back.
pub fn ntp_reply_is_plausible(n: usize) -> (r: bool)
    ensures
        r == (n >= 48),
{
    n >= 48
}

/// The continuation bytes of a base-128 arc encoding, high bit set.
pub open spec fn b128_prefix(q: nat) -> Seq<u8>
    decreases q,
{
    if q == 0 {
        Seq::empty()
    } else {
        b128_prefix(q / 128) + seq![(128 + q % 128) as u8]
    }
}

/// Base-128 encoding of one OID arc: seven bits per byte, high bit set on
/// every byte but the last.
pub open spec fn base128(v: nat) -> Seq<u8> {
    b128_prefix(v / 128) + seq![(v % 128) as u8]
}

fn b128_prefix_enc(q: u32) -> (r: Vec<u8>)
    ensures
        r@ =~= b128_prefix(q as nat),
    decreases q,
{
    if q == 0 {
        Vec::new()
    } else {
        let mut r = b128_prefix_enc(q / 128);
        r.push((128 + q % 128) as u8);
        proof {
            assert(b128_prefix((q / 128) as nat).push((128 + q as nat % 128) as u8) =~= b128_prefix(
                q as nat,
            ));
        }
        r
    }
}

/// Encode one OID arc in base 128.
pub fn encode_base128(v: u32) -> (r: Vec<u8>)
    ensures
        r@ =~= base128(v as nat),
{
    let mut r = b128_prefix_enc(v / 128);
    r.push((v % 128) as u8);
    r
}

/// The encodings of the OID arcs from index `i` on, concatenated.
pub open spec fn arcs_bytes(oid: Seq<u32>, i: int) -> Seq<u8>
    decreases oid.len() - i,
{
    if i < 0 || i >= oid.len() {
        Seq::empty()
    } else {
        base128(oid[i] as nat) + arcs_bytes(oid, i + 1)
    }
}

/// Simple BER encoding of an OID: the first two arcs folded into one byte,
/// the remaining arcs in base 128.  Fewer than two arcs encode to nothing.
pub open spec fn oid_bytes(oid: Seq<u32>) -> Seq<u8> {
    if oid.len() < 2 {
        Seq::empty()
    } else {
        seq![(oid[0] * 40 + oid[1]) as u8] + arcs_bytes(oid, 2)
    }
}

/// Encode an OID in simple BER.
pub fn encode_oid(oid: &[u32]) -> (r: Vec<u8>)
    requires
        oid@.len() >= 2 ==> oid@[0] * 40 + oid@[1] <= u32::MAX,
    ensures
        r@ =~= oid_bytes(oid@),
{
    let mut out: Vec<u8> = Vec::new();
    if oid.len() < 2 {
        return out;
    }
    let head: u32 = oid[0] * 40 + oid[1];
    out.push(#[verifier::truncate] (head as u8));
    let mut i: usize = 2;
    proof {
        assert(out@ =~= seq![(oid@[0] * 40 + oid@[1]) as u8]);
    }
    while i < oid.len()
        invariant
            2 <= i <= oid@.len(),
            oid@.len() >= 2,
            oid_bytes(oid@) =~= out@ + arcs_bytes(oid@, i as int),
        decreases oid@.len() - i,
    {
        let mut arc = encode_base128(oid[i]);
        let ghost out_before = out@;
        let ghost arc_view = arc@;
        out.append(&mut arc);
        proof {
            assert(out@ =~= out_before + arc_view);
            assert(out_before + (base128(oid@[i as int] as nat) + arcs_bytes(oid@, i + 1)) =~= (
            out_before + base128(oid@[i as int] as nat)) + arcs_bytes(oid@, i + 1));
        }
        i = i + 1;
    }
    out
}

/// The SNMP v2c GetRequest datagram for one OID, as the probe builds it:
/// version 1 (v2c), the community string, and a GetRequest PDU with
/// request-id 1 and a single null-valued varbind.  Length fields are single
/// bytes, as in the original simple encoder.
pub open spec fn snmp_get_bytes(comm: Seq<u8>, oid: Seq<u32>) -> Seq<u8> {
    let oid_enc = oid_bytes(oid);
    let vb_seq = seq![0x06u8, oid_enc.len() as u8] + oid_enc + seq![0x05u8, 0x00];
    let varbind = seq![0x30u8, vb_seq.len() as u8] + vb_seq;
    let vbl = seq![0x30u8, varbind.len() as u8] + varbind;
    let pdu = seq![0x02u8, 0x01, 0x01, 0x02, 0x01, 0x00, 0x02, 0x01, 0x00] + vbl;
    let pdu_wrap = seq![0xA0u8, pdu.len() as u8] + pdu;
    let comm_enc = seq![0x04u8, comm.len() as u8] + comm;
    let msg_inner = seq![0x02u8, 0x01, 0x01] + comm_enc + pdu_wrap;
    seq![0x30u8, msg_inner.len() as u8] + msg_inner
}

/// Build the SNMP v2c GetRequest for `oid` with the given community.
pub fn build_snmp_get(community: &str, oid: &[u32]) -> (r: Vec<u8>)
    requires
        oid@.len() >= 2 ==> oid@[0] * 40 + oid@[1] <= u32::MAX,
    ensures
        r@ =~= snmp_get_bytes(community.spec_bytes(), oid@),
{
    let comm = community.as_bytes();
    let oid_enc = encode_oid(oid);

    let mut vb_seq: Vec<u8> = Vec::new();
    vb_seq.push(0x06);
    vb_seq.push(#[verifier::truncate] (oid_enc.len() as u8));
    let ghost oid_enc_v = oid_enc@;
    let mut oid_enc_m = oid_enc;
    vb_seq.append(&mut oid_enc_m);
    vb_seq.push(0x05);
    vb_seq.push(0x00);
    proof {
        assert(vb_seq@ =~= seq![0x06u8, oid_bytes(oid@).len() as u8] + oid_bytes(oid@) + seq![
            0x05u8,
            0x00,
        ]);
    }

    let mut varbind: Vec<u8> = Vec::new();
    varbind.push(0x30);
    varbind.push(#[verifier::truncate] (vb_seq.len() as u8));
    let ghost vb_seq_v = vb_seq@;
    let mut vb_seq_m = vb_seq;
    varbind.append(&mut vb_seq_m);
    proof {
        assert(varbind@ =~= seq![0x30u8, vb_seq_v.len() as u8] + vb_seq_v);
    }

    let mut vbl: Vec<u8> = Vec::new();
    vbl.push(0x30);
    vbl.push(#[verifier::truncate] (varbind.len() as u8));
    let ghost varbind_v = varbind@;
    let mut varbind_m = varbind;
    vbl.append(&mut varbind_m);
    proof {
        assert(vbl@ =~= seq![0x30u8, varbind_v.len() as u8] + varbind_v);
    }

    let mut pdu: Vec<u8> = Vec::new();
    pdu.push(0x02);
    pdu.push(0x01);
    pdu.push(0x01);
    pdu.push(0x02);
    pdu.push(0x01);
    pdu.push(0x00);
    pdu.push(0x02);
    pdu.push(0x01);
    pdu.push(0x00);
    let ghost vbl_v = vbl@;
    let mut vbl_m = vbl;
    pdu.append(&mut vbl_m);
    proof {
        assert(pdu@ =~= seq![0x02u8, 0x01, 0x01, 0x02, 0x01, 0x00, 0x02, 0x01, 0x00] + vbl_v);
    }

    let mut pdu_wrap: Vec<u8> = Vec::new();
    pdu_wrap.push(0xA0);
    pdu_wrap.push(#[verifier::truncate] (pdu.len() as u8));
    let ghost pdu_v = pdu@;
    let mut pdu_m = pdu;
    pdu_wrap.append(&mut pdu_m);
    proof {
        assert(pdu_wrap@ =~= seq![0xA0u8, pdu_v.len() as u8] + pdu_v);
    }

    let mut msg_inner: Vec<u8> = Vec::new();
    msg_inner.push(0x02);
    msg_inner.push(0x01);
    msg_inner.push(0x01);
    msg_inner.push(0x04);
    msg_inner.push(#[verifier::truncate] (comm.len() as u8));
    let mut comm_vec: Vec<u8> = crate::ports::copy_range(comm, 0, comm.len());
    msg_inner.append(&mut comm_vec);
    let ghost comm_done = msg_inner@;
    proof {
        assert(comm@ =~= community.spec_bytes());
        assert(comm_done =~= seq![0x02u8, 0x01, 0x01] + (seq![0x04u8, community.spec_bytes().len() as u8]
            + community.spec_bytes()));
    }
    let ghost pdu_wrap_v = pdu_wrap@;
    let mut pdu_wrap_m = pdu_wrap;
    msg_inner.append(&mut pdu_wrap_m);
    proof {
        assert(msg_inner@ =~= comm_done + pdu_wrap_v);
    }

    let mut msg: Vec<u8> = Vec::new();
    msg.push(0x30);
    msg.push(#[verifier::truncate] (msg_inner.len() as u8));
    let ghost msg_inner_v = msg_inner@;
    let mut msg_inner_m = msg_inner;
    msg.append(&mut msg_inner_m);
    proof {
        assert(msg@ =~= seq![0x30u8, msg_inner_v.len() as u8] + msg_inner_v);
        assert(msg@ =~= snmp_get_bytes(community.spec_bytes(), oid@));
    }
    msg
}

/// The name of the decoding `String::from_utf8_lossy` gives some bytes; the
/// result depends on the bytes alone.
pub uninterp spec fn utf8_lossy_of(b: Seq<u8>) -> Seq<char>;

/// Relies on String::from_utf8_lossy: the decoding depends on the bytes
/// alone, and nonempty input decodes to a nonempty string.
#[verifier::external_body]
pub(crate) fn utf8_lossy(b: &[u8]) -> (r: String)
    ensures
        r@ == utf8_lossy_of(b@),
        b@.len() > 0 ==> r@.len() > 0,
{
    String::from_utf8_lossy(b).into_owned()
}

/// A plausible printable-string varbind at position `i`: an OCTET STRING tag
/// with a nonzero single-byte length that fits in the datagram.
pub open spec fn sysdescr_at(d: Seq<u8>, i: int) -> bool {
    i + 2 < d.len() && d[i] == 0x04 && d[i + 1] > 0 && i + 2 + d[i + 1] <= d.len()
}

/// The first plausible octet string of the reply, scanning left to right.
pub open spec fn sysdescr_find(d: Seq<u8>, i: nat) -> Option<int>
    decreases d.len() - i,
{
    if i + 2 >= d.len() {
        None
    } else if sysdescr_at(d, i as int) {
        Some(i as int)
    } else {
        sysdescr_find(d, (i + 1) as nat)
    }
}

proof fn lemma_sysdescr_some(d: Seq<u8>, i: nat, k: nat)
    requires
        i <= k,
        sysdescr_at(d, k as int),
        forall|j: int| i <= j < k ==> !sysdescr_at(d, j),
    ensures
        sysdescr_find(d, i) == Some(k as int),
    decreases k - i,
{
    if i < k {
        lemma_sysdescr_some(d, (i + 1) as nat, k);
    }
}

proof fn lemma_sysdescr_none(d: Seq<u8>, i: nat)
    requires
        forall|j: int| i <= j ==> !sysdescr_at(d, j),
    ensures
        sysdescr_find(d, i) is None,
    decreases d.len() - i,
{
    if i + 2 < d.len() {
        lemma_sysdescr_none(d, (i + 1) as nat);
    }
}

/// Pull the system description out of an SNMP reply: the first plausible
/// octet string, decoded leniently from UTF-8.  `None` when no such varbind
/// is present.
pub fn parse_snmp_sysdescr(data: &[u8]) -> (r: Option<String>)
    ensures
        ({
            let found = sysdescr_find(data@, 0);
            match r {
                Some(s) => found is Some && s@ == utf8_lossy_of(
                    data@.subrange(found->0 + 2, found->0 + 2 + data@[found->0 + 1]),
                ),
                None => found is None,
            }
        }),
{
    let n = data.len();
    if n < 3 {
        proof {
            assert forall|j: int| 0 <= j implies !sysdescr_at(data@, j) by {}
            lemma_sysdescr_none(data@, 0);
        }
        return None;
    }
    let mut i: usize = 0;
    while i < n - 2
        invariant
            n == data@.len(),
            3 <= n,
            0 <= i <= n - 2,
            forall|j: int| 0 <= j < i ==> !sysdescr_at(data@, j),
        decreases n - i,
    {
        let len_ok = data[i] == 0x04 && data[i + 1] > 0 && (data[i + 1] as usize) <= n - (i + 2);
        if len_ok {
            proof {
                lemma_sysdescr_some(data@, 0, i as nat);
            }
            let l = data[i + 1] as usize;
            let part = slice_subrange(data, i + 2, i + 2 + l);
            let s = utf8_lossy(part);
            return Some(s);
        }
        proof {
            assert(!sysdescr_at(data@, i as int));
        }
        i = i + 1;
    }
    proof {
        assert forall|j: int| 0 <= j implies !sysdescr_at(data@, j) by {
            if j < i {
            } else {
                assert(j + 2 >= n);
            }
        }
        lemma_sysdescr_none(data@, 0);
    }
    None
}

} // verus!
