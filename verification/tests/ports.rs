use toolbox_core::ports::{default_top_ports, parse_ports, top_ports, PortSpecError};

#[test]
fn parse_simple_list() {
    let v = parse_ports("22,80,443").unwrap();
    assert_eq!(v, vec![22, 80, 443]);
}

#[test]
fn parse_ranges_and_list() {
    let v = parse_ports("1-3,5,3").unwrap();
    assert_eq!(v, vec![1, 2, 3, 5]);
}

#[test]
fn reject_invalid() {
    assert!(parse_ports("0").is_err());
    assert!(parse_ports("10-5").is_err());
}

#[test]
fn parse_overlapping_ranges_dedups_and_sorts() {
    let v = parse_ports("8080,1-5,3-8").unwrap();
    assert_eq!(v, vec![1, 2, 3, 4, 5, 6, 7, 8, 8080]);
}

#[test]
fn parse_ignores_whitespace_and_empty_tokens() {
    let v = parse_ports(" 443 ,, 22 ,").unwrap();
    assert_eq!(v, vec![22, 443]);
}

#[test]
fn parse_error_kinds_name_the_token() {
    match parse_ports("22,weird,80") {
        Err(PortSpecError::InvalidToken { token }) => assert_eq!(token, b"weird".to_vec()),
        other => panic!("expected InvalidToken, got {:?}", other),
    }
    match parse_ports("22,0,80") {
        Err(PortSpecError::ZeroPort { token }) => assert_eq!(token, b"0".to_vec()),
        other => panic!("expected ZeroPort, got {:?}", other),
    }
    match parse_ports("10-5") {
        Err(PortSpecError::RangeOrderInverted { token }) => assert_eq!(token, b"10-5".to_vec()),
        other => panic!("expected RangeOrderInverted, got {:?}", other),
    }
    assert!(matches!(
        parse_ports("65536"),
        Err(PortSpecError::InvalidToken { .. })
    ));
    assert!(matches!(
        parse_ports("1-65536"),
        Err(PortSpecError::InvalidToken { .. })
    ));
    assert!(matches!(
        parse_ports("0-5"),
        Err(PortSpecError::ZeroPort { .. })
    ));
}

#[test]
fn parse_full_range_bounds() {
    let v = parse_ports("65535,1").unwrap();
    assert_eq!(v, vec![1, 65535]);
}

#[test]
fn parse_output_strictly_ascending() {
    let v = parse_ports("443,22,443,80,22").unwrap();
    for w in v.windows(2) {
        assert!(w[0] < w[1]);
    }
    assert_eq!(v, vec![22, 80, 443]);
}

#[test]
fn top_ports_takes_curated_prefix() {
    assert_eq!(top_ports(3), vec![21, 22, 23]);
    assert_eq!(top_ports(0), Vec::<u16>::new());
    let all = top_ports(1000);
    assert_eq!(all.len(), 66);
    assert_eq!(all[0], 21);
    assert_eq!(all[65], 27017);
}

#[test]
fn default_top_ports_is_first_64() {
    let d = default_top_ports();
    assert_eq!(d.len(), 64);
    assert_eq!(d, top_ports(64));
    assert_eq!(d[0], 21);
    assert_eq!(d[63], 11211);
}
