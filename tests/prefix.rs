use bgp::errors::BgpError;
use bgp::prefix::{compile_prefixes, extract_prefixes, Prefix};

#[test]
fn test_extract_prefixes1() {
    let data = [32 as u8, 1, 2, 3, 4];
    let prefixes = extract_prefixes(&data[..]).unwrap();
    assert_eq!(prefixes.len(), 1);
    assert_eq!(prefixes[0], Prefix { length: 32, prefix: [1, 2, 3, 4] });
}

#[test]
fn test_extract_prefixes2() {
    let data = [32 as u8, 1, 2, 3, 4, 12, 172, 16];
    let prefixes = extract_prefixes(&data[..]).unwrap();
    assert_eq!(prefixes.len(), 2);
    assert_eq!(prefixes[1], Prefix { length: 12, prefix: [172, 16, 0, 0] });
}

#[test]
fn compile_prefixes1() {
    let prefixes = vec![Prefix { length: 32, prefix: [1, 2, 3, 4] }];
    let data = compile_prefixes(prefixes).unwrap();
    assert_eq!(data, vec![32 as u8, 1, 2, 3, 4]);
}

#[test]
fn compile_prefixes2() {
    let prefixes = vec![
        Prefix { length: 32, prefix: [1, 2, 3, 4] },
        Prefix { length: 12, prefix: [172, 16, 0, 0] },
    ];
    let data = compile_prefixes(prefixes).unwrap();
    assert_eq!(data, vec![32 as u8, 1, 2, 3, 4, 12, 172, 16]);
}

#[test]
fn default_route_encodes_to_length_byte_only() {
    let data = compile_prefixes(vec![Prefix { length: 0, prefix: [0, 0, 0, 0] }]).unwrap();
    assert_eq!(data, vec![0]);
}

#[test]
fn prefix_boundaries_encode() {
    assert_eq!(compile_prefixes(vec![Prefix { length: 32, prefix: [1, 2, 3, 4] }]).unwrap(), vec![32, 1, 2, 3, 4]);
    assert_eq!(compile_prefixes(vec![Prefix { length: 12, prefix: [172, 16, 0, 0] }]).unwrap(), vec![12, 172, 16]);
}

#[test]
fn only_covered_octets_are_emitted() {
    let data = compile_prefixes(vec![Prefix { length: 9, prefix: [10, 128, 7, 7] }]).unwrap();
    assert_eq!(data, vec![9, 10, 128]);
}

#[test]
fn empty_prefix_list() {
    assert_eq!(extract_prefixes(&[]).unwrap(), vec![]);
    assert_eq!(compile_prefixes(vec![]).unwrap(), Vec::<u8>::new());
}

#[test]
fn prefix_round_trip() {
    let prefixes = vec![
        Prefix { length: 0, prefix: [0, 0, 0, 0] },
        Prefix { length: 24, prefix: [192, 168, 1, 0] },
        Prefix { length: 31, prefix: [10, 0, 0, 254] },
    ];
    let data = compile_prefixes(prefixes.clone()).unwrap();
    assert_eq!(data, vec![0, 24, 192, 168, 1, 31, 10, 0, 0, 254]);
    assert_eq!(extract_prefixes(&data).unwrap(), prefixes);
}

#[test]
fn prefix_too_long_is_rejected_on_encode() {
    let r = compile_prefixes(vec![Prefix { length: 33, prefix: [1, 2, 3, 4] }]);
    assert_eq!(r, Err(BgpError::InvalidPrefixLength));
}

#[test]
fn prefix_too_long_is_rejected_on_decode() {
    assert_eq!(extract_prefixes(&[40, 1, 2, 3, 4, 5]), Err(BgpError::InvalidPrefixLength));
}

#[test]
fn prefix_missing_octets_is_truncated() {
    assert_eq!(extract_prefixes(&[24, 10, 0]), Err(BgpError::Truncated));
    assert_eq!(extract_prefixes(&[8, 10, 32]), Err(BgpError::Truncated));
}
