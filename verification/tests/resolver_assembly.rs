use fitparse::profile::{parse_profile, Cell, F64_ONE_BITS, F64_ZERO_BITS};
use fitparse::resolver::{
    find_field_type, find_message, find_variant, unknown_field_name, Ast, FitFile, FitFileHeader,
    RawField, RawRecord,
};
use fitparse::values::DataFieldValue;

fn text(s: &str) -> Cell {
    Cell::Text(s.to_string())
}

fn int_cell(v: i64) -> Cell {
    Cell::Int {
        int_val: v,
        float_bits: (v as f64).to_bits(),
    }
}

fn float(v: f64) -> Cell {
    Cell::Float {
        int_val: v as i64,
        float_bits: v.to_bits(),
    }
}

fn pad(mut row: Vec<Cell>, width: usize) -> Vec<Cell> {
    while row.len() < width {
        row.push(Cell::Empty);
    }
    row
}

fn sample_profile() -> fitparse::profile::FitProfile {
    let types = vec![
        pad(vec![text("Type Name"), text("Base Type")], 5),
        pad(vec![text("sport"), text("enum")], 5),
        pad(vec![Cell::Empty, Cell::Empty, text("running"), int_cell(1)], 5),
        pad(vec![Cell::Empty, Cell::Empty, text("cycling"), int_cell(2)], 5),
    ];
    let messages = vec![
        pad(vec![], 9),
        pad(vec![], 9),
        pad(vec![text("record")], 9),
        pad(
            vec![
                Cell::Empty,
                int_cell(3),
                text("heart_rate"),
                text("uint8"),
                Cell::Empty,
                Cell::Empty,
                float(2.0),
                float(0.0),
                text("bpm"),
            ],
            9,
        ),
        pad(
            vec![
                Cell::Empty,
                int_cell(7),
                text("sport"),
                text("sport"),
            ],
            9,
        ),
    ];
    parse_profile(&types, &messages).unwrap()
}

#[test]
fn known_and_unknown_fields_resolve() {
    let profile = sample_profile();
    let raw = RawRecord {
        kind: "record".to_string(),
        time_offset: None,
        fields: vec![
            RawField {
                def_number: 3,
                value: DataFieldValue::UInt8(150),
            },
            RawField {
                def_number: 7,
                value: DataFieldValue::Enum(2),
            },
            RawField {
                def_number: 9,
                value: DataFieldValue::UInt16(42),
            },
        ],
    };
    let ast = Ast {
        header: FitFileHeader {
            header_size: 14,
            protocol_ver_enc: 0,
            profile_ver_enc: 0,
            data_size: 100,
            crc: Some(7),
        },
        records: vec![raw],
        crc: 0xBEEF,
    };
    let file = FitFile::from_ast(ast, &profile);
    assert_eq!(file.crc, 0xBEEF);
    assert_eq!(file.header.header_size, 14);
    assert_eq!(file.records.len(), 1);
    let rec = &file.records[0];
    assert_eq!(rec.kind, "record");
    assert_eq!(rec.time_offset, None);
    assert_eq!(rec.fields.len(), 3);

    let hr = &rec.fields[0];
    assert_eq!(hr.name, "heart_rate");
    assert_eq!(hr.units, "bpm");
    assert_eq!(hr.scale_bits, 2.0f64.to_bits());
    assert_eq!(hr.offset_bits, 0.0f64.to_bits());
    assert_eq!(hr.value, DataFieldValue::UInt8(150));
    assert_eq!(hr.raw_value, DataFieldValue::UInt8(150));

    let sport = &rec.fields[1];
    assert_eq!(sport.name, "sport");
    assert_eq!(sport.value, DataFieldValue::Enum(2));

    let unknown = &rec.fields[2];
    assert_eq!(unknown.name, "unknown_field_9");
    assert_eq!(unknown.units, "");
    assert_eq!(unknown.scale_bits, F64_ONE_BITS);
    assert_eq!(unknown.offset_bits, F64_ZERO_BITS);
    assert_eq!(unknown.value, DataFieldValue::UInt16(42));
}

#[test]
fn invalid_raw_value_still_resolves() {
    let profile = sample_profile();
    let raw = RawRecord {
        kind: "record".to_string(),
        time_offset: None,
        fields: vec![RawField {
            def_number: 3,
            value: DataFieldValue::UInt8(0xFF),
        }],
    };
    let ast = Ast {
        header: FitFileHeader {
            header_size: 12,
            protocol_ver_enc: 0,
            profile_ver_enc: 0,
            data_size: 0,
            crc: None,
        },
        records: vec![raw],
        crc: 0,
    };
    let file = FitFile::from_ast(ast, &profile);
    let field = &file.records[0].fields[0];
    assert_eq!(field.value, DataFieldValue::UInt8(255));
    assert_eq!(field.value.as_i64(), Some(255));
    assert!(!field.value.is_valid());
    assert!(!field.raw_value.is_valid());
}

#[test]
fn unknown_message_degrades_every_field() {
    let profile = sample_profile();
    let raw = RawRecord {
        kind: "lap".to_string(),
        time_offset: Some(3),
        fields: vec![RawField {
            def_number: 3,
            value: DataFieldValue::UInt8(1),
        }],
    };
    let ast = Ast {
        header: FitFileHeader {
            header_size: 12,
            protocol_ver_enc: 0,
            profile_ver_enc: 0,
            data_size: 0,
            crc: None,
        },
        records: vec![raw],
        crc: 0,
    };
    let file = FitFile::from_ast(ast, &profile);
    let rec = &file.records[0];
    assert_eq!(rec.time_offset, Some(3));
    assert_eq!(rec.fields[0].name, "unknown_field_3");
    assert_eq!(rec.fields[0].scale_bits, F64_ONE_BITS);
}

#[test]
fn catalog_lookups() {
    let profile = sample_profile();
    assert!(find_message(&profile, "record").is_some());
    assert!(find_message(&profile, "lap").is_none());

    let sport = find_field_type(&profile, "sport").unwrap();
    assert_eq!(sport.base_type, "u8");
    let v = find_variant(sport, 2).unwrap();
    assert_eq!(v.name, "cycling");
    assert!(find_variant(sport, 9).is_none());
    assert!(find_field_type(&profile, "nope").is_none());
}

#[test]
fn fallback_names_cover_the_digit_range() {
    assert_eq!(unknown_field_name(0), "unknown_field_0");
    assert_eq!(unknown_field_name(7), "unknown_field_7");
    assert_eq!(unknown_field_name(10), "unknown_field_10");
    assert_eq!(unknown_field_name(99), "unknown_field_99");
    assert_eq!(unknown_field_name(100), "unknown_field_100");
    assert_eq!(unknown_field_name(255), "unknown_field_255");
}
