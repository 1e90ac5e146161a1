use fitparse::profile::{
    base_type_to_rust_type, parse_profile, process_messages, process_types, Cell, ProfileError,
    F64_ONE_BITS, F64_ZERO_BITS,
};

fn text(s: &str) -> Cell {
    Cell::Text(s.to_string())
}

fn int_cell(v: i64) -> Cell {
    Cell::Int {
        int_val: v,
        float_bits: (v as f64).to_bits(),
    }
}

fn float(v: f64) -> Cell {
    Cell::Float {
        int_val: v as i64,
        float_bits: v.to_bits(),
    }
}

fn pad(mut row: Vec<Cell>, width: usize) -> Vec<Cell> {
    while row.len() < width {
        row.push(Cell::Empty);
    }
    row
}

fn types_header() -> Vec<Cell> {
    pad(vec![text("Type Name"), text("Base Type")], 5)
}

fn messages_rows(body: Vec<Vec<Cell>>) -> Vec<Vec<Cell>> {
    let mut rows = vec![pad(vec![], 9), pad(vec![], 9)];
    rows.extend(body);
    rows
}

#[test]
fn types_section_two_variants_ascending() {
    let rows = vec![
        types_header(),
        pad(vec![text("mesg_num"), text("uint16")], 5),
        pad(vec![Cell::Empty, Cell::Empty, text("record"), int_cell(1)], 5),
        pad(
            vec![Cell::Empty, Cell::Empty, text("session"), text("0x1F")],
            5,
        ),
    ];
    let out = process_types(&rows).unwrap();
    assert_eq!(out.len(), 1);
    assert_eq!(out[0].name, "mesg_num");
    assert_eq!(out[0].base_type, "u16");
    assert_eq!(out[0].variant_map.len(), 2);
    assert_eq!(out[0].variant_map[0].value, 1);
    assert_eq!(out[0].variant_map[0].name, "record");
    assert_eq!(out[0].variant_map[1].value, 31);
    assert_eq!(out[0].variant_map[1].name, "session");
}

#[test]
fn types_variants_stay_sorted_and_last_wins() {
    let rows = vec![
        types_header(),
        pad(vec![text("t"), text("enum")], 5),
        pad(vec![Cell::Empty, Cell::Empty, text("c"), int_cell(30)], 5),
        pad(vec![Cell::Empty, Cell::Empty, text("a"), int_cell(10)], 5),
        pad(vec![Cell::Empty, Cell::Empty, text("b"), int_cell(20)], 5),
        pad(vec![Cell::Empty, Cell::Empty, text("a2"), int_cell(10)], 5),
    ];
    let out = process_types(&rows).unwrap();
    let values: Vec<i64> = out[0].variant_map.iter().map(|v| v.value).collect();
    assert_eq!(values, vec![10, 20, 30]);
    assert_eq!(out[0].variant_map[0].name, "a2");
}

#[test]
fn types_float_cell_value_and_comment() {
    let rows = vec![
        types_header(),
        pad(vec![text("t"), text("sint8")], 5),
        pad(
            vec![
                Cell::Empty,
                Cell::Empty,
                text("v"),
                float(4.0),
                text("a remark"),
            ],
            5,
        ),
    ];
    let out = process_types(&rows).unwrap();
    assert_eq!(out[0].base_type, "i8");
    assert_eq!(out[0].variant_map[0].value, 4);
    assert_eq!(out[0].variant_map[0].comment.as_deref(), Some("a remark"));
}

#[test]
fn types_errors() {
    let hdr = types_header();
    let bad_name = vec![hdr.clone(), pad(vec![int_cell(1), text("uint8")], 5)];
    assert_eq!(
        process_types(&bad_name),
        Err(ProfileError::ExpectedTypeName { row: 1 })
    );

    let bad_base = vec![hdr.clone(), pad(vec![text("t"), int_cell(2)], 5)];
    assert_eq!(
        process_types(&bad_base),
        Err(ProfileError::ExpectedBaseTypeName { row: 1 })
    );

    let unknown_base = vec![hdr.clone(), pad(vec![text("t"), text("float32")], 5)];
    assert_eq!(
        process_types(&unknown_base),
        Err(ProfileError::UnknownBaseType { row: 1 })
    );

    let no_open = vec![
        hdr.clone(),
        pad(vec![Cell::Empty, Cell::Empty, text("v"), int_cell(1)], 5),
    ];
    assert_eq!(
        process_types(&no_open),
        Err(ProfileError::NoOpenTypeDefinition { row: 1 })
    );

    let bad_variant_name = vec![
        hdr.clone(),
        pad(vec![text("t"), text("enum")], 5),
        pad(vec![Cell::Empty, Cell::Empty, int_cell(1), int_cell(1)], 5),
    ];
    assert_eq!(
        process_types(&bad_variant_name),
        Err(ProfileError::ExpectedVariantName { row: 2 })
    );

    let bad_value = vec![
        hdr.clone(),
        pad(vec![text("t"), text("enum")], 5),
        pad(vec![Cell::Empty, Cell::Empty, text("v"), Cell::Other], 5),
    ];
    assert_eq!(
        process_types(&bad_value),
        Err(ProfileError::BadVariantValue { row: 2 })
    );

    let bad_hex = vec![
        hdr.clone(),
        pad(vec![text("t"), text("enum")], 5),
        pad(vec![Cell::Empty, Cell::Empty, text("v"), text("0xZZ")], 5),
    ];
    assert_eq!(
        process_types(&bad_hex),
        Err(ProfileError::BadVariantValue { row: 2 })
    );

    let short = vec![hdr, vec![text("t")]];
    assert_eq!(
        process_types(&short),
        Err(ProfileError::ShortRow { row: 1 })
    );
}

#[test]
fn hex_values_parse_to_the_signed_limit() {
    let ok = vec![
        types_header(),
        pad(vec![text("t"), text("enum")], 5),
        pad(
            vec![
                Cell::Empty,
                Cell::Empty,
                text("big"),
                text("0x7FFFFFFFFFFFFFFF"),
            ],
            5,
        ),
    ];
    let out = process_types(&ok).unwrap();
    assert_eq!(out[0].variant_map[0].value, i64::MAX);

    let over = vec![
        types_header(),
        pad(vec![text("t"), text("enum")], 5),
        pad(
            vec![
                Cell::Empty,
                Cell::Empty,
                text("big"),
                text("0x8000000000000000"),
            ],
            5,
        ),
    ];
    assert_eq!(
        process_types(&over),
        Err(ProfileError::BadVariantValue { row: 2 })
    );
}

#[test]
fn messages_section_builds_field_slots() {
    let rows = messages_rows(vec![
        pad(vec![text("record")], 9),
        pad(
            vec![
                Cell::Empty,
                int_cell(3),
                text("heart_rate"),
                text("uint8"),
                Cell::Empty,
                Cell::Empty,
                float(2.0),
                float(1.0),
                text("bpm"),
            ],
            9,
        ),
        pad(
            vec![
                Cell::Empty,
                int_cell(7),
                text("power"),
                text("uint16"),
            ],
            9,
        ),
    ]);
    let out = process_messages(&rows).unwrap();
    assert_eq!(out.len(), 1);
    assert_eq!(out[0].name, "record");
    assert_eq!(out[0].field_map.len(), 2);
    let hr = &out[0].field_map[0];
    assert_eq!(hr.def_number, 3);
    assert_eq!(hr.name, "heart_rate");
    assert_eq!(hr.field_type, "uint8");
    assert_eq!(hr.scale_bits, 2.0f64.to_bits());
    assert_eq!(hr.offset_bits, 1.0f64.to_bits());
    assert_eq!(hr.units, "bpm");
    let pw = &out[0].field_map[1];
    assert_eq!(pw.def_number, 7);
    assert_eq!(pw.scale_bits, F64_ONE_BITS);
    assert_eq!(pw.offset_bits, F64_ZERO_BITS);
    assert_eq!(pw.units, "");
}

#[test]
fn messages_two_messages_and_last_wins_on_duplicate_numbers() {
    let rows = messages_rows(vec![
        pad(vec![text("one")], 9),
        pad(vec![Cell::Empty, int_cell(1), text("a"), text("uint8")], 9),
        pad(vec![Cell::Empty, int_cell(1), text("b"), text("uint8")], 9),
        pad(vec![text("two")], 9),
        pad(vec![Cell::Empty, int_cell(2), text("c"), text("uint8")], 9),
    ]);
    let out = process_messages(&rows).unwrap();
    assert_eq!(out.len(), 2);
    assert_eq!(out[0].name, "one");
    assert_eq!(out[0].field_map.len(), 1);
    assert_eq!(out[0].field_map[0].name, "b");
    assert_eq!(out[1].name, "two");
    assert_eq!(out[1].field_map[0].def_number, 2);
}

#[test]
fn messages_subfield_row_is_an_explicit_unsupported_feature() {
    let rows = messages_rows(vec![
        pad(vec![text("record")], 9),
        pad(
            vec![Cell::Empty, Cell::Empty, text("sub_field"), text("uint8")],
            9,
        ),
    ]);
    assert_eq!(
        process_messages(&rows),
        Err(ProfileError::UnsupportedSpecFeature { row: 3 })
    );
}

#[test]
fn messages_errors() {
    assert_eq!(
        process_messages(&vec![]),
        Err(ProfileError::EmptyMessagesSection)
    );
    assert_eq!(
        process_messages(&vec![pad(vec![], 9), pad(vec![], 9)]),
        Err(ProfileError::EmptyMessagesSection)
    );
    assert_eq!(
        process_messages(&messages_rows(vec![pad(vec![int_cell(1)], 9)])),
        Err(ProfileError::ExpectedMessageName { row: 2 })
    );
    assert_eq!(
        process_messages(&messages_rows(vec![
            pad(vec![text("m")], 9),
            pad(vec![int_cell(2), int_cell(1)], 9),
        ])),
        Err(ProfileError::ExpectedMessageName { row: 3 })
    );
    assert_eq!(
        process_messages(&messages_rows(vec![
            pad(vec![text("m")], 9),
            pad(vec![Cell::Empty, text("x")], 9),
        ])),
        Err(ProfileError::BadFieldDefNumber { row: 3 })
    );
    assert_eq!(
        process_messages(&messages_rows(vec![
            pad(vec![text("m")], 9),
            pad(vec![Cell::Empty, int_cell(1), int_cell(2)], 9),
        ])),
        Err(ProfileError::ExpectedFieldName { row: 3 })
    );
    assert_eq!(
        process_messages(&messages_rows(vec![
            pad(vec![text("m")], 9),
            pad(vec![Cell::Empty, int_cell(1), text("a"), int_cell(2)], 9),
        ])),
        Err(ProfileError::ExpectedFieldType { row: 3 })
    );
    assert_eq!(
        process_messages(&messages_rows(vec![
            pad(vec![text("m")], 9),
            vec![Cell::Empty, int_cell(1)],
        ])),
        Err(ProfileError::ShortRow { row: 3 })
    );
}

#[test]
fn base_type_catalog() {
    assert_eq!(base_type_to_rust_type("enum"), Some("u8"));
    assert_eq!(base_type_to_rust_type("sint8"), Some("i8"));
    assert_eq!(base_type_to_rust_type("uint8"), Some("u8"));
    assert_eq!(base_type_to_rust_type("uint8z"), Some("u8"));
    assert_eq!(base_type_to_rust_type("sint16"), Some("i16"));
    assert_eq!(base_type_to_rust_type("uint16"), Some("u16"));
    assert_eq!(base_type_to_rust_type("uint16z"), Some("u16"));
    assert_eq!(base_type_to_rust_type("sint32"), Some("i32"));
    assert_eq!(base_type_to_rust_type("uint32"), Some("u32"));
    assert_eq!(base_type_to_rust_type("uint32z"), Some("u32"));
    assert_eq!(base_type_to_rust_type("string"), None);
    assert_eq!(base_type_to_rust_type("float32"), None);
}

#[test]
fn parse_profile_combines_both_sections() {
    let types = vec![
        types_header(),
        pad(vec![text("mesg_num"), text("uint16")], 5),
    ];
    let messages = messages_rows(vec![pad(vec![text("record")], 9)]);
    let p = parse_profile(&types, &messages).unwrap();
    assert_eq!(p.field_types.len(), 1);
    assert_eq!(p.messages.len(), 1);

    let bad_types = vec![types_header(), pad(vec![text("t"), text("bogus")], 5)];
    assert_eq!(
        parse_profile(&bad_types, &messages),
        Err(ProfileError::UnknownBaseType { row: 1 })
    );
    assert_eq!(
        parse_profile(&types, &vec![]),
        Err(ProfileError::EmptyMessagesSection)
    );
}
