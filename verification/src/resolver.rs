//! The field resolver and the assembly step: projects each raw decoded field
//! through the compiled catalog to a named, unit-carrying field, degrading
//! gracefully where the catalog does not know a message or a field slot.
//!
//! The physical rescaling of numeric payloads is floating-point work and is
//! done by the surrounding tooling; here every resolved field keeps its raw
//! payload, carries the declared scale and offset bit patterns, and the
//! unscaled fields (scale one, offset zero) are final as they stand.
//!
//! The catalog lookups below also cover enumerations: a consumer that wants
//! the named variant of an enum payload finds it through `find_field_type`
//! and `find_variant`. The decoded field itself keeps the raw integer as its
//! payload and carries no variant-name slot, so attaching display names is
//! left to the consumer of the decoded document.
use vstd::prelude::*;

use crate::profile::{
    F64_ONE_BITS, F64_ZERO_BITS, FieldTypeDefintion, FieldTypeModel, FitProfile,
    MessageDefinition, MessageFieldDefinition, MessageFieldModel, MessageModel, VariantModel,
    field_type_models, message_models, str_eq,
};
use crate::values::{DataFieldValue, value_model};

verus! {

/// One raw field of a raw record: its definition number and its decoded
/// payload (whose tag is its base type).
#[derive(Debug, PartialEq)]
pub struct RawField {
    pub def_number: u8,
    pub value: DataFieldValue,
}

/// One raw record of the raw decode result.
#[derive(Debug, PartialEq)]
pub struct RawRecord {
    pub kind: String,
    pub time_offset: Option<u8>,
    pub fields: Vec<RawField>,
}

/// Describes an arbitrary data field within a `FitDataRecord`.
#[derive(Debug, PartialEq)]
pub struct DataField {
    pub name: String,
    pub units: String,
    /// Double-precision bit pattern of the declared scale.
    pub scale_bits: u64,
    /// Double-precision bit pattern of the declared offset.
    pub offset_bits: u64,
    pub value: DataFieldValue,
    pub raw_value: DataFieldValue,
}

/// A set of data derived from one raw data message. A present time offset
/// means the raw record carried a compressed-timestamp header.
#[derive(Debug, PartialEq)]
pub struct FitDataRecord {
    pub kind: String,
    pub time_offset: Option<u8>,
    pub fields: Vec<DataField>,
}

/// The file header: size, version encodings (carried as the wire's
/// single-precision bit patterns), data size, and optional stored checksum.
#[derive(Clone, Copy, Debug, PartialEq, Eq, Structural)]
pub struct FitFileHeader {
    pub header_size: u8,
    pub protocol_ver_enc: u32,
    pub profile_ver_enc: u32,
    pub data_size: u32,
    pub crc: Option<u16>,
}

/// The raw decode result handed in by the byte-stream tokenizer: header, raw
/// records, trailing checksum.
#[derive(Debug, PartialEq)]
pub struct Ast {
    pub header: FitFileHeader,
    pub records: Vec<RawRecord>,
    pub crc: u16,
}

/// A fully decoded file.
#[derive(Debug, PartialEq)]
pub struct FitFile {
    pub header: FitFileHeader,
    pub records: Vec<FitDataRecord>,
    pub crc: u16,
}

/// The character of one decimal digit.
pub open spec fn dec_digit_char(d: int) -> char {
    (0x30 + d) as char
}

/// The decimal digit string of a non-negative number.
pub open spec fn spec_dec_string(n: int) -> Seq<char>
    decreases n,
{
    if n < 0 {
        Seq::empty()
    } else if n < 10 {
        seq![dec_digit_char(n)]
    } else {
        spec_dec_string(n / 10).push(dec_digit_char(n % 10))
    }
}

/// The name synthesized for a field slot the catalog does not know.
pub open spec fn spec_unknown_field_name(def_number: u8) -> Seq<char> {
    "unknown_field_"@ + spec_dec_string(def_number as int)
}

fn digit_str(d: u8) -> (r: &'static str)
    requires
        d < 10,
    ensures
        r@ == seq![dec_digit_char(d as int)],
{
    proof {
        reveal_strlit("0");
        reveal_strlit("1");
        reveal_strlit("2");
        reveal_strlit("3");
        reveal_strlit("4");
        reveal_strlit("5");
        reveal_strlit("6");
        reveal_strlit("7");
        reveal_strlit("8");
        reveal_strlit("9");
    }
    let r = match d {
        0 => "0",
        1 => "1",
        2 => "2",
        3 => "3",
        4 => "4",
        5 => "5",
        6 => "6",
        7 => "7",
        8 => "8",
        _ => "9",
    };
    proof {
        assert(r@ =~= seq![dec_digit_char(d as int)]);
    }
    r
}

fn u8_to_dec_string(n: u8) -> (r: String)
    ensures
        r@ == spec_dec_string(n as int),
{
    proof {
        reveal_with_fuel(spec_dec_string, 4);
    }
    if n < 10 {
        let r = digit_str(n).to_owned();
        r
    } else if n < 100 {
        let s = digit_str(n / 10).to_owned();
        let r = s.concat(digit_str(n % 10));
        proof {
            assert(r@ =~= spec_dec_string(n as int));
        }
        r
    } else {
        proof {
            vstd::arithmetic::div_mod::lemma_div_denominator(n as int, 10, 10);
        }
        let s = digit_str(n / 100).to_owned();
        let s2 = s.concat(digit_str((n / 10) % 10));
        let r = s2.concat(digit_str(n % 10));
        proof {
            assert((n / 10) / 10 == n / 100);
            assert(r@ =~= spec_dec_string(n as int));
        }
        r
    }
}

/// Synthesizes the fallback name for an unknown field slot.
pub fn unknown_field_name(def_number: u8) -> (r: String)
    ensures
        r@ == spec_unknown_field_name(def_number),
{
    let base = String::from_str("unknown_field_");
    let digits = u8_to_dec_string(def_number);
    let r = base.concat(digits.as_str());
    proof {
        assert(r@ =~= spec_unknown_field_name(def_number));
    }
    r
}

/// The first message of the catalog with the given name.
pub open spec fn spec_find_message(msgs: Seq<MessageModel>, kind: Seq<char>) -> Option<MessageModel>
    decreases msgs.len(),
{
    if msgs.len() == 0 {
        None
    } else if msgs[0].name == kind {
        Some(msgs[0])
    } else {
        spec_find_message(msgs.drop_first(), kind)
    }
}

/// Looks a message definition up by name.
pub fn find_message<'a>(profile: &'a FitProfile, kind: &str) -> (r: Option<&'a MessageDefinition>)
    ensures
        match r {
            Some(m) => spec_find_message(message_models(profile.messages@), kind@) == Some(
                m.model(),
            ),
            None => spec_find_message(message_models(profile.messages@), kind@) is None,
        },
{
    let ghost msgs = message_models(profile.messages@);
    let n = profile.messages.len();
    let mut i: usize = 0;
    proof {
        assert(msgs.skip(0) =~= msgs);
    }
    while i < n
        invariant
            msgs == message_models(profile.messages@),
            n == profile.messages@.len(),
            i <= n,
            spec_find_message(msgs, kind@) == spec_find_message(msgs.skip(i as int), kind@),
        decreases n - i,
    {
        proof {
            assert(msgs.skip(i as int)[0] == msgs[i as int]);
        }
        if str_eq(profile.messages[i].name.as_str(), kind) {
            return Some(&profile.messages[i]);
        }
        proof {
            assert(msgs.skip(i as int).drop_first() =~= msgs.skip(i + 1));
        }
        i = i + 1;
    }
    proof {
        assert(msgs.skip(n as int) =~= Seq::<MessageModel>::empty());
    }
    None
}

/// The first field slot of a message with the given definition number.
pub open spec fn spec_find_field(fields: Seq<MessageFieldModel>, def_number: u8) -> Option<
    MessageFieldModel,
>
    decreases fields.len(),
{
    if fields.len() == 0 {
        None
    } else if fields[0].def_number == def_number {
        Some(fields[0])
    } else {
        spec_find_field(fields.drop_first(), def_number)
    }
}

/// Looks a field slot up by definition number within one message.
pub fn find_field<'a>(msg: &'a MessageDefinition, def_number: u8) -> (r: Option<
    &'a MessageFieldDefinition,
>)
    ensures
        match r {
            Some(f) => spec_find_field(msg.model().fields, def_number) == Some(f.model()),
            None => spec_find_field(msg.model().fields, def_number) is None,
        },
{
    let ghost fields = msg.model().fields;
    let n = msg.field_map.len();
    let mut i: usize = 0;
    proof {
        assert(fields.skip(0) =~= fields);
    }
    while i < n
        invariant
            fields == msg.model().fields,
            n == msg.field_map@.len(),
            i <= n,
            spec_find_field(fields, def_number) == spec_find_field(
                fields.skip(i as int),
                def_number,
            ),
        decreases n - i,
    {
        proof {
            assert(fields.skip(i as int)[0] == fields[i as int]);
        }
        if msg.field_map[i].def_number == def_number {
            return Some(&msg.field_map[i]);
        }
        proof {
            assert(fields.skip(i as int).drop_first() =~= fields.skip(i + 1));
        }
        i = i + 1;
    }
    proof {
        assert(fields.skip(n as int) =~= Seq::<MessageFieldModel>::empty());
    }
    None
}

/// The first field type of the catalog with the given name.
pub open spec fn spec_find_field_type(fts: Seq<FieldTypeModel>, name: Seq<char>) -> Option<
    FieldTypeModel,
>
    decreases fts.len(),
{
    if fts.len() == 0 {
        None
    } else if fts[0].name == name {
        Some(fts[0])
    } else {
        spec_find_field_type(fts.drop_first(), name)
    }
}

/// Looks a field-type definition (an enumeration) up by name.
pub fn find_field_type<'a>(profile: &'a FitProfile, name: &str) -> (r: Option<
    &'a FieldTypeDefintion,
>)
    ensures
        match r {
            Some(t) => spec_find_field_type(field_type_models(profile.field_types@), name@)
                == Some(t.model()),
            None => spec_find_field_type(field_type_models(profile.field_types@), name@) is None,
        },
{
    let ghost fts = field_type_models(profile.field_types@);
    let n = profile.field_types.len();
    let mut i: usize = 0;
    proof {
        assert(fts.skip(0) =~= fts);
    }
    while i < n
        invariant
            fts == field_type_models(profile.field_types@),
            n == profile.field_types@.len(),
            i <= n,
            spec_find_field_type(fts, name@) == spec_find_field_type(fts.skip(i as int), name@),
        decreases n - i,
    {
        proof {
            assert(fts.skip(i as int)[0] == fts[i as int]);
        }
        if str_eq(profile.field_types[i].name.as_str(), name) {
            return Some(&profile.field_types[i]);
        }
        proof {
            assert(fts.skip(i as int).drop_first() =~= fts.skip(i + 1));
        }
        i = i + 1;
    }
    proof {
        assert(fts.skip(n as int) =~= Seq::<FieldTypeModel>::empty());
    }
    None
}

/// The first variant of a field type with the given value.
pub open spec fn spec_find_variant(vs: Seq<VariantModel>, value: i64) -> Option<VariantModel>
    decreases vs.len(),
{
    if vs.len() == 0 {
        None
    } else if vs[0].value == value {
        Some(vs[0])
    } else {
        spec_find_variant(vs.drop_first(), value)
    }
}

/// Looks the named variant of an enumeration up by its raw integer value;
/// an unknown raw integer stays unnamed, and is not an error.
pub fn find_variant<'a>(ft: &'a FieldTypeDefintion, value: i64) -> (r: Option<
    &'a crate::profile::FieldTypeVariant,
>)
    ensures
        match r {
            Some(v) => spec_find_variant(ft.model().variants, value) == Some(v.model()),
            None => spec_find_variant(ft.model().variants, value) is None,
        },
{
    let ghost vs = ft.model().variants;
    let n = ft.variant_map.len();
    let mut i: usize = 0;
    proof {
        assert(vs.skip(0) =~= vs);
    }
    while i < n
        invariant
            vs == ft.model().variants,
            n == ft.variant_map@.len(),
            i <= n,
            spec_find_variant(vs, value) == spec_find_variant(vs.skip(i as int), value),
        decreases n - i,
    {
        proof {
            assert(vs.skip(i as int)[0] == vs[i as int]);
        }
        if ft.variant_map[i].value == value {
            return Some(&ft.variant_map[i]);
        }
        proof {
            assert(vs.skip(i as int).drop_first() =~= vs.skip(i + 1));
        }
        i = i + 1;
    }
    proof {
        assert(vs.skip(n as int) =~= Seq::<VariantModel>::empty());
    }
    None
}

} // verus!

verus! {

/// The shape of a field the catalog does not know: a name synthesized from
/// the definition number, no unit, scale one, offset zero.
pub open spec fn spec_unknown_shape(def_number: u8, out: DataField) -> bool {
    &&& out.name@ == spec_unknown_field_name(def_number)
    &&& out.units@.len() == 0
    &&& out.scale_bits == F64_ONE_BITS
    &&& out.offset_bits == F64_ZERO_BITS
}

/// How one resolved field relates to its raw field: the payload is carried
/// through unscaled (raw and resolved alike), and name, unit, scale and
/// offset come from the catalog's field slot where one is known, from the
/// fallback rule where none is.
pub open spec fn spec_resolved_field(
    fields_opt: Option<Seq<MessageFieldModel>>,
    raw: RawField,
    out: DataField,
) -> bool {
    &&& out.value == raw.value
    &&& value_model(out.raw_value) == value_model(raw.value)
    &&& match fields_opt {
        Some(fields) => match spec_find_field(fields, raw.def_number) {
            Some(fd) => out.name@ == fd.name && out.units@ == fd.units && out.scale_bits
                == fd.scale_bits && out.offset_bits == fd.offset_bits,
            None => spec_unknown_shape(raw.def_number, out),
        },
        None => spec_unknown_shape(raw.def_number, out),
    }
}

/// Resolves one raw field against the message definition it belongs to, or
/// against nothing where the message is unknown. Raw data is never dropped:
/// the raw payload is retained beside the (here unscaled) resolved payload,
/// and its validity stays a question of the sentinel rule alone.
pub fn resolve_field(msg: Option<&MessageDefinition>, raw: RawField) -> (r: DataField)
    ensures
        spec_resolved_field(
            match msg {
                Some(m) => Some(m.model().fields),
                None => None,
            },
            raw,
            r,
        ),
{
    let raw_copy = raw.value.clone();
    let RawField { def_number, value } = raw;
    match msg {
        Some(m) => match find_field(m, def_number) {
            Some(fd) => DataField {
                name: fd.name.clone(),
                units: fd.units.clone(),
                scale_bits: fd.scale_bits,
                offset_bits: fd.offset_bits,
                value,
                raw_value: raw_copy,
            },
            None => DataField {
                name: unknown_field_name(def_number),
                units: String::new(),
                scale_bits: F64_ONE_BITS,
                offset_bits: F64_ZERO_BITS,
                value,
                raw_value: raw_copy,
            },
        },
        None => DataField {
            name: unknown_field_name(def_number),
            units: String::new(),
            scale_bits: F64_ONE_BITS,
            offset_bits: F64_ZERO_BITS,
            value,
            raw_value: raw_copy,
        },
    }
}

/// How one decoded record relates to its raw record: kind and time offset
/// are carried through, and the fields are resolved one by one, in the raw
/// record's own order.
pub open spec fn spec_resolved_record(
    msgs: Seq<MessageModel>,
    raw: RawRecord,
    out: FitDataRecord,
) -> bool {
    &&& out.kind == raw.kind
    &&& out.time_offset == raw.time_offset
    &&& out.fields@.len() == raw.fields@.len()
    &&& forall|i: int|
        0 <= i < raw.fields@.len() ==> spec_resolved_field(
            match spec_find_message(msgs, raw.kind@) {
                Some(m) => Some(m.fields),
                None => None,
            },
            raw.fields@[i],
            out.fields@[i],
        )
}

/// Resolves one raw record against the catalog. An unknown message is a
/// legitimate degrade, not an error: every field then falls back to the
/// unknown-field rule.
pub fn resolve_record(profile: &FitProfile, raw: RawRecord) -> (r: FitDataRecord)
    ensures
        spec_resolved_record(message_models(profile.messages@), raw, r),
{
    let ghost rawv = raw;
    let RawRecord { kind, time_offset, fields } = raw;
    let msg = find_message(profile, kind.as_str());
    let ghost fieldsv = fields@;
    let n = fields.len();
    let mut rest = fields;
    let mut out_fields: Vec<DataField> = Vec::new();
    let mut i: usize = 0;
    while i < n
        invariant
            n == fieldsv.len(),
            i <= n,
            kind == rawv.kind,
            fieldsv == rawv.fields@,
            rest@ == fieldsv.subrange(i as int, n as int),
            out_fields@.len() == i,
            match msg {
                Some(m) => spec_find_message(message_models(profile.messages@), kind@) == Some(
                    m.model(),
                ),
                None => spec_find_message(message_models(profile.messages@), kind@) is None,
            },
            forall|j: int|
                0 <= j < i ==> spec_resolved_field(
                    match spec_find_message(message_models(profile.messages@), rawv.kind@) {
                        Some(m) => Some(m.fields),
                        None => None,
                    },
                    fieldsv[j],
                    out_fields@[j],
                ),
        decreases n - i,
    {
        let f = rest.remove(0);
        proof {
            assert(f == fieldsv[i as int]);
            assert(rest@ =~= fieldsv.subrange(i + 1, n as int));
        }
        let df = resolve_field(msg, f);
        out_fields.push(df);
        i = i + 1;
    }
    FitDataRecord { kind, time_offset, fields: out_fields }
}

/// Applies the catalog to every raw record, keeping record order.
pub fn apply_data_profile(profile: &FitProfile, records: Vec<RawRecord>) -> (r: Vec<FitDataRecord>)
    ensures
        r@.len() == records@.len(),
        forall|i: int|
            0 <= i < records@.len() ==> spec_resolved_record(
                message_models(profile.messages@),
                records@[i],
                r@[i],
            ),
{
    let ghost recsv = records@;
    let n = records.len();
    let mut rest = records;
    let mut out: Vec<FitDataRecord> = Vec::new();
    let mut i: usize = 0;
    while i < n
        invariant
            n == recsv.len(),
            recsv == records@,
            i <= n,
            rest@ == recsv.subrange(i as int, n as int),
            out@.len() == i,
            forall|j: int|
                0 <= j < i ==> spec_resolved_record(
                    message_models(profile.messages@),
                    recsv[j],
                    out@[j],
                ),
        decreases n - i,
    {
        let rec = rest.remove(0);
        proof {
            assert(rec == recsv[i as int]);
            assert(rest@ =~= recsv.subrange(i + 1, n as int));
        }
        let dr = resolve_record(profile, rec);
        out.push(dr);
        i = i + 1;
    }
    out
}

impl FitFile {
    /// Converts a raw decode result into a decoded file by applying the
    /// given catalog to every record; header and checksum carry through.
    pub fn from_ast(ast: Ast, profile: &FitProfile) -> (r: Self)
        ensures
            r.header == ast.header,
            r.crc == ast.crc,
            r.records@.len() == ast.records@.len(),
            forall|i: int|
                0 <= i < ast.records@.len() ==> spec_resolved_record(
                    message_models(profile.messages@),
                    ast.records@[i],
                    r.records@[i],
                ),
    {
        let Ast { header, records, crc } = ast;
        FitFile { header, records: apply_data_profile(profile, records), crc }
    }
}

} // verus!
