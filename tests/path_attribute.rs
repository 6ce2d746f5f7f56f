use bgp::errors::BgpError;
use bgp::path_attribute::{
    compile_attribute_flags, compile_path_attributes, extract_attribute_flags, extract_path_attributes,
    AttributeFlag, AttributeType, PathAttribute,
};

#[test]
fn test_extract_attribute_flags() {
    assert_eq!(extract_attribute_flags(0), vec![]);
    assert_eq!(extract_attribute_flags(0b1000 << 4), vec![AttributeFlag::Optional]);
    assert_eq!(extract_attribute_flags(0b0100 << 4), vec![AttributeFlag::Transitive]);
    assert_eq!(extract_attribute_flags(0b0010 << 4), vec![AttributeFlag::Partial]);
    assert_eq!(extract_attribute_flags(0b0001 << 4), vec![AttributeFlag::ExtendedLength]);
    assert_eq!(extract_attribute_flags(0b1111 << 4), vec![
        AttributeFlag::ExtendedLength,
        AttributeFlag::Partial,
        AttributeFlag::Transitive,
        AttributeFlag::Optional,
    ]);
}

#[test]
fn test_compile_attribute_flags() {
    assert_eq!(0, compile_attribute_flags(&vec![]));
    assert_eq!(0b1000 << 4, compile_attribute_flags(&vec![AttributeFlag::Optional]));
    assert_eq!(0b0100 << 4, compile_attribute_flags(&vec![AttributeFlag::Transitive]));
    assert_eq!(0b0010 << 4, compile_attribute_flags(&vec![AttributeFlag::Partial]));
    assert_eq!(0b0001 << 4, compile_attribute_flags(&vec![AttributeFlag::ExtendedLength]));
    assert_eq!(0b1111 << 4, compile_attribute_flags(&vec![
        AttributeFlag::ExtendedLength,
        AttributeFlag::Partial,
        AttributeFlag::Transitive,
        AttributeFlag::Optional,
    ]));
}

#[test]
fn test_extract_path_attributes() {
    assert_eq!(extract_path_attributes(&[]).unwrap(), vec![]);

    assert_eq!(
        extract_path_attributes(&[/* flags */ 0, /* type code */ 0, /* length */ 0]).unwrap(),
        vec![PathAttribute { type_code: AttributeType::Unknown(0), value: vec![], flags: vec![] }]
    );

    assert_eq!(
        extract_path_attributes(&[/* flags */ 0b0100 << 4, /* type code */ 1, /* length */ 1, /* value */ 2]).unwrap(),
        vec![PathAttribute { type_code: AttributeType::Origin, value: vec![2], flags: vec![AttributeFlag::Transitive] }]
    );

    assert_eq!(
        extract_path_attributes(&[
            /* flags */ 0b0101 << 4, /* type code */ 2, /* length */ 0, 0,
            /* flags */ 0b1000 << 4, /* type code */ 4, /* length */ 4, /* value */ 0, 0, 0, 0
        ]).unwrap(),
        vec![
            PathAttribute { type_code: AttributeType::ASPath, value: vec![], flags: vec![AttributeFlag::ExtendedLength, AttributeFlag::Transitive] },
            PathAttribute { type_code: AttributeType::MultiExitDisc, value: vec![0, 0, 0, 0], flags: vec![AttributeFlag::Optional]},
        ]
    );
}

#[test]
fn test_compile_path_attributes() {
    assert_eq!(compile_path_attributes(vec![]).unwrap(), vec![]);

    assert_eq!(
        compile_path_attributes(vec![PathAttribute { type_code: AttributeType::Unknown(0), value: vec![], flags: vec![] }]).unwrap(),
        vec![/* flags */ 0, /* type code */ 0, /* length */ 0]
    );

    assert_eq!(
        compile_path_attributes(vec![PathAttribute { type_code: AttributeType::Origin, value: vec![2], flags: vec![AttributeFlag::Transitive] }]).unwrap(),
        vec![/* flags */ 0b0100 << 4, /* type code */ 1, /* length */ 1, /* value */ 2]
    );

    assert_eq!(
        compile_path_attributes(vec![
            PathAttribute { type_code: AttributeType::ASPath, value: vec![], flags: vec![AttributeFlag::ExtendedLength, AttributeFlag::Transitive] },
            PathAttribute { type_code: AttributeType::MultiExitDisc, value: vec![0, 0, 0, 0], flags: vec![AttributeFlag::Optional]},
        ]).unwrap(),
        vec![
            /* flags */ 0b0101 << 4, /* type code */ 2, /* length */ 0, 0,
            /* flags */ 0b1000 << 4, /* type code */ 4, /* length */ 4, /* value */ 0, 0, 0, 0
        ]
    )
}

#[test]
fn full_and_empty_flag_bytes() {
    assert_eq!(extract_attribute_flags(0b11110000).len(), 4);
    assert_eq!(extract_attribute_flags(0b00000000), vec![]);
}

#[test]
fn reserved_flag_bits_are_ignored() {
    assert_eq!(extract_attribute_flags(0b0100_1111), vec![AttributeFlag::Transitive]);
}

#[test]
fn type_codes_map_both_ways() {
    assert_eq!(AttributeType::from_code(5), AttributeType::LocalPref);
    assert_eq!(AttributeType::from_code(7), AttributeType::Aggregator);
    assert_eq!(AttributeType::from_code(200), AttributeType::Unknown(200));
    assert_eq!(AttributeType::NextHop.code(), 3);
    assert_eq!(AttributeType::Unknown(99).code(), 99);
}

#[test]
fn attribute_round_trip_with_extended_length() {
    let attrs = vec![
        PathAttribute { type_code: AttributeType::Unknown(42), value: vec![7; 300], flags: vec![AttributeFlag::ExtendedLength, AttributeFlag::Optional] },
        PathAttribute { type_code: AttributeType::NextHop, value: vec![192, 168, 10, 5], flags: vec![AttributeFlag::Transitive] },
    ];
    let bytes = compile_path_attributes(attrs.clone()).unwrap();
    assert_eq!(&bytes[0..4], &[0b1001_0000, 42, 1, 44]);
    assert_eq!(bytes.len(), 4 + 300 + 3 + 4);
    assert_eq!(extract_path_attributes(&bytes).unwrap(), attrs);
}

#[test]
fn long_value_without_extended_length_is_refused() {
    let attrs = vec![PathAttribute { type_code: AttributeType::Origin, value: vec![0; 256], flags: vec![AttributeFlag::Transitive] }];
    assert_eq!(compile_path_attributes(attrs), Err(BgpError::LengthFlagMismatch));
}

#[test]
fn value_of_255_bytes_fits_one_length_byte() {
    let attrs = vec![PathAttribute { type_code: AttributeType::Origin, value: vec![1; 255], flags: vec![] }];
    let bytes = compile_path_attributes(attrs).unwrap();
    assert_eq!(&bytes[0..3], &[0, 1, 255]);
}

#[test]
fn truncated_attributes_are_reported() {
    assert_eq!(extract_path_attributes(&[0x40, 1]), Err(BgpError::Truncated));
    assert_eq!(extract_path_attributes(&[0x40, 1, 2, 9]), Err(BgpError::Truncated));
    assert_eq!(extract_path_attributes(&[0x10, 2, 0]), Err(BgpError::Truncated));
}
