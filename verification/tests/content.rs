use base64::Engine;
use std::io::Cursor;
use toolbox_core::creds::{detect_hash, is_plausible_hash, wordlist_stats, HashKind};
use toolbox_core::forensics::file_info_from_bytes;
use toolbox_core::udp::{
    build_dns_query, build_snmp_get, dns_reply_is_response, encode_base128, encode_oid,
    ntp_reply_is_plausible, parse_snmp_sysdescr, UdpService,
};
use toolbox_core::web::{
    extract_meta_generator, extract_title, favicon_mmh3, scheme_plan, SchemePlan,
};

#[test]
fn detect_hash_prefixes() {
    assert_eq!(detect_hash("$2b$12$abcdefghij"), HashKind::Bcrypt);
    assert_eq!(detect_hash("$2y$10$x"), HashKind::Bcrypt);
    assert_eq!(detect_hash("$argon2id$v=19$m=65536"), HashKind::Argon2);
    assert_eq!(detect_hash("$argon2i$v=19"), HashKind::Argon2);
    assert_eq!(detect_hash("{SSHA}base64here"), HashKind::SSHA);
    assert_eq!(detect_hash("$apr1$salt$hash"), HashKind::APR1);
    assert_eq!(detect_hash("$1$salt$hash"), HashKind::SHA1_CRYPT);
    assert_eq!(detect_hash("$5$salt$hash"), HashKind::SHA256_CRYPT);
    assert_eq!(detect_hash("$6$salt$hash"), HashKind::SHA512_CRYPT);
    assert_eq!(detect_hash("{SHA}base64here"), HashKind::SHA1);
}

#[test]
fn detect_hash_hex_lengths() {
    assert_eq!(detect_hash(&"a1".repeat(16)), HashKind::NTLM);
    assert_eq!(detect_hash(&"A1".repeat(20)), HashKind::SHA1);
    assert_eq!(detect_hash(&"b2".repeat(32)), HashKind::SHA256);
    assert_eq!(detect_hash(&"c3".repeat(64)), HashKind::SHA512);
    assert_eq!(detect_hash("  DEADBEEFDEADBEEFDEADBEEFDEADBEEF  "), HashKind::NTLM);
    assert_eq!(detect_hash("zzz"), HashKind::Unknown);
    assert_eq!(detect_hash(&"a1".repeat(17)), HashKind::Unknown);
}

#[test]
fn detect_hash_netntlmv2_layout() {
    let h = format!(
        "user::{}:{}:blobdata",
        "1122334455667788",
        "aabbccddeeff00112233445566778899"
    );
    assert_eq!(detect_hash(&h), HashKind::NetNTLMv2);
    // no double colon: not NetNTLMv2
    let h2 = format!(
        "user:x:{}:{}:blob",
        "1122334455667788", "aabbccddeeff00112233445566778899"
    );
    assert_eq!(detect_hash(&h2), HashKind::Unknown);
    // third field too short
    assert_eq!(detect_hash("user::abcd:aabbccddeeff00112233445566778899:b"), HashKind::Unknown);
}

#[test]
fn plausible_hash_follows_detection() {
    assert!(is_plausible_hash("$2a$04$x"));
    assert!(!is_plausible_hash("hello world"));
}

#[test]
fn wordlist_counts_total_and_unique() {
    let content = "alpha\nbeta\nalpha\n# comment\n\n  beta  \ngamma\r\n";
    let (total, unique) = wordlist_stats(content);
    assert_eq!(total, 5);
    assert_eq!(unique, 3);
    assert_eq!(wordlist_stats(""), (0, 0));
    assert_eq!(wordlist_stats("# only\n#comments\n"), (0, 0));
}

#[test]
fn dns_query_layout() {
    let q = build_dns_query();
    let expected: Vec<u8> = vec![
        0x12, 0x34, 0x01, 0x00, 0x00, 0x01, 0x00, 0x00, 0x00, 0x00, 0x00, 0x00, 7, b'e', b'x',
        b'a', b'm', b'p', b'l', b'e', 3, b'c', b'o', b'm', 0, 0x00, 0x01, 0x00, 0x01,
    ];
    assert_eq!(q, expected);
}

#[test]
fn reply_checks() {
    assert!(dns_reply_is_response(&[0x12, 0x34, 0x81, 0x80], 4));
    assert!(!dns_reply_is_response(&[0x12, 0x34, 0x01, 0x00], 4));
    assert!(!dns_reply_is_response(&[0x12, 0x34], 2));
    assert!(ntp_reply_is_plausible(48));
    assert!(!ntp_reply_is_plausible(47));
    let _ = UdpService::Dns;
}

#[test]
fn base128_arcs() {
    assert_eq!(encode_base128(0), vec![0]);
    assert_eq!(encode_base128(127), vec![127]);
    assert_eq!(encode_base128(128), vec![0x81, 0x00]);
    assert_eq!(encode_base128(300), vec![0x82, 0x2c]);
    assert_eq!(encode_base128(16384), vec![0x81, 0x80, 0x00]);
}

#[test]
fn oid_encoding() {
    let oid = [1u32, 3, 6, 1, 2, 1, 1, 1, 0];
    assert_eq!(encode_oid(&oid), vec![43, 6, 1, 2, 1, 1, 1, 0]);
    assert_eq!(encode_oid(&[1u32]), Vec::<u8>::new());
}

#[test]
fn snmp_get_layout() {
    let oid = [1u32, 3, 6, 1, 2, 1, 1, 1, 0];
    let msg = build_snmp_get("public", &oid);
    // assembled exactly as the simple encoder lays it out
    let oid_enc = vec![43u8, 6, 1, 2, 1, 1, 1, 0];
    let mut vb_seq = vec![0x06u8, oid_enc.len() as u8];
    vb_seq.extend_from_slice(&oid_enc);
    vb_seq.extend_from_slice(&[0x05, 0x00]);
    let mut varbind = vec![0x30u8, vb_seq.len() as u8];
    varbind.extend_from_slice(&vb_seq);
    let mut vbl = vec![0x30u8, varbind.len() as u8];
    vbl.extend_from_slice(&varbind);
    let mut pdu = vec![0x02u8, 0x01, 0x01, 0x02, 0x01, 0x00, 0x02, 0x01, 0x00];
    pdu.extend_from_slice(&vbl);
    let mut pdu_wrap = vec![0xA0u8, pdu.len() as u8];
    pdu_wrap.extend_from_slice(&pdu);
    let mut msg_inner = vec![0x02u8, 0x01, 0x01, 0x04, b"public".len() as u8];
    msg_inner.extend_from_slice(b"public");
    msg_inner.extend_from_slice(&pdu_wrap);
    let mut expected = vec![0x30u8, msg_inner.len() as u8];
    expected.extend_from_slice(&msg_inner);
    assert_eq!(msg, expected);
}

#[test]
fn sysdescr_extraction() {
    let data = [0x30u8, 0x06, 0x04, 0x03, b'a', b'b', b'c'];
    assert_eq!(parse_snmp_sysdescr(&data), Some("abc".to_string()));
    // zero-length octet string is skipped; later one wins
    let data2 = [0x04u8, 0x00, 0x04, 0x02, b'h', b'i'];
    assert_eq!(parse_snmp_sysdescr(&data2), Some("hi".to_string()));
    // length runs past the end: nothing plausible
    let data3 = [0x04u8, 0x09, b'x'];
    assert_eq!(parse_snmp_sysdescr(&data3), None);
    assert_eq!(parse_snmp_sysdescr(&[]), None);
}

#[test]
fn scheme_plans() {
    assert_eq!(scheme_plan(443), SchemePlan::HttpsOnly);
    assert_eq!(scheme_plan(8443), SchemePlan::HttpsOnly);
    assert_eq!(scheme_plan(80), SchemePlan::HttpOnly);
    assert_eq!(scheme_plan(8000), SchemePlan::HttpOnly);
    assert_eq!(scheme_plan(3000), SchemePlan::HttpsThenHttp);
}

#[test]
fn title_extraction() {
    let body = "<html><head><TITLE>  Login Portal </title></head></html>";
    assert_eq!(extract_title(body), Some("Login Portal".to_string()));
    assert_eq!(extract_title("<title lang=\"en\">Hi</title>"), Some("Hi".to_string()));
    assert_eq!(extract_title("<title>   </title>"), None);
    assert_eq!(extract_title("no markup at all"), None);
    assert_eq!(extract_title("<title>unterminated"), None);
    assert_eq!(extract_title("<title>H\u{e9}llo</title>"), Some("H\u{e9}llo".to_string()));
}

#[test]
fn meta_generator_extraction() {
    let body = "<html><META NAME=\"generator\" CONTENT=\"WordPress 6.4\"></html>";
    assert_eq!(extract_meta_generator(body), Some("WordPress 6.4".to_string()));
    let single = "<meta name=\"generator\" content='Joomla!'>";
    assert_eq!(extract_meta_generator(single), Some("Joomla!".to_string()));
    assert_eq!(extract_meta_generator("<meta charset=\"utf-8\">"), None);
    assert_eq!(extract_meta_generator("nothing here"), None);
}

#[test]
fn favicon_hash_matches_direct_computation() {
    let icon: Vec<u8> = vec![0, 1, 2, 3, 4, 5, 6, 7, 8, 9, 250, 251, 252, 253, 254, 255];
    let b64 = base64::engine::general_purpose::STANDARD.encode(&icon);
    let expected = murmur3::murmur3_32(&mut Cursor::new(b64.as_bytes()), 0).unwrap() as i32;
    assert_eq!(favicon_mmh3(&icon), expected);
    assert_eq!(favicon_mmh3(&Vec::new()), 0);
}

#[test]
fn file_info_digests() {
    let data: Vec<u8> = b"abc".to_vec();
    let info = file_info_from_bytes(
        "/tmp/sample".to_string(),
        &data,
        Some("text/plain".to_string()),
        None,
    );
    assert_eq!(info.size, 3);
    assert_eq!(
        info.sha256,
        "ba7816bf8f01cfea414140de5dae2223b00361a396177a9cb410ff61f20015ad"
    );
    assert_eq!(info.blake3, blake3::hash(b"abc").to_hex().to_string());
    assert_eq!(info.path, "/tmp/sample");
    assert_eq!(info.mime, Some("text/plain".to_string()));
    assert_eq!(info.ext, None);
}
