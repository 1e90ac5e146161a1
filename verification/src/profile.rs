//! The profile compiler: turns the tabular specification source into the
//! catalog of field-type and message definitions.
//!
//! The source is handed in as plain rows of cells (the surrounding tooling
//! reads the spreadsheet and converts each cell). Each section is a two-state
//! row scanner: a row with its leading columns populated starts a new
//! definition, a row with only its continuation columns populated appends to
//! the definition most recently started. Any malformed row aborts the whole
//! compilation; no partial catalog is ever produced.
use vstd::prelude::*;

verus! {

/// The bit pattern of the double-precision value one, the default scale.
pub const F64_ONE_BITS: u64 = 0x3ff0000000000000;

/// The bit pattern of the double-precision value zero, the default offset.
pub const F64_ZERO_BITS: u64 = 0;

/// One cell of the tabular source. Numeric cells carry both their integer
/// coercion and their double-precision bit pattern, supplied by the caller
/// that read the source; the scanner picks the reading that the column's
/// declared type asks for.
#[derive(Clone, Debug, PartialEq)]
pub enum Cell {
    Empty,
    Text(String),
    Int { int_val: i64, float_bits: u64 },
    Float { int_val: i64, float_bits: u64 },
    Other,
}

/// A fatal compilation failure, carrying the offending row's index.
#[derive(Clone, Copy, Debug, PartialEq, Eq, Structural)]
pub enum ProfileError {
    /// A row has fewer cells than its column roles require.
    ShortRow { row: usize },
    /// A type header row whose name cell is not text.
    ExpectedTypeName { row: usize },
    /// A type header row whose base-type cell is not text.
    ExpectedBaseTypeName { row: usize },
    /// A base-type name outside the fixed catalog.
    UnknownBaseType { row: usize },
    /// A variant row whose name cell is not text.
    ExpectedVariantName { row: usize },
    /// A variant value cell of an unsupported kind, or an unparsable or
    /// out-of-range hexadecimal value.
    BadVariantValue { row: usize },
    /// A variant row before any type definition was started.
    NoOpenTypeDefinition { row: usize },
    /// A message header row whose name cell is not text.
    ExpectedMessageName { row: usize },
    /// A field row whose definition-number cell is not numeric.
    BadFieldDefNumber { row: usize },
    /// A field row whose name cell is not text.
    ExpectedFieldName { row: usize },
    /// A field row whose field-type cell is not text.
    ExpectedFieldType { row: usize },
    /// A sub-field continuation row: recognized, and explicitly unsupported.
    UnsupportedSpecFeature { row: usize },
    /// The messages section holds no message header row at all.
    EmptyMessagesSection,
}

/// One named variant of an enumerated field type.
#[derive(Clone, Debug, PartialEq)]
pub struct FieldTypeVariant {
    pub name: String,
    pub value: i64,
    pub comment: Option<String>,
}

/// A named field type: its base type's language-level name and its variants,
/// kept unique by value in ascending order.
#[derive(Clone, Debug, PartialEq)]
pub struct FieldTypeDefintion {
    pub name: String,
    pub base_type: &'static str,
    pub variant_map: Vec<FieldTypeVariant>,
}

/// One field slot of a message definition.
#[derive(Clone, Debug, PartialEq)]
pub struct MessageFieldDefinition {
    pub def_number: u8,
    pub name: String,
    pub field_type: String,
    /// Double-precision bit pattern of the declared scale.
    pub scale_bits: u64,
    /// Double-precision bit pattern of the declared offset.
    pub offset_bits: u64,
    pub units: String,
    pub comment: Option<String>,
}

/// A named message: its field slots, kept unique by definition number in
/// ascending order.
#[derive(Clone, Debug, PartialEq)]
pub struct MessageDefinition {
    pub name: String,
    pub field_map: Vec<MessageFieldDefinition>,
}

/// The compiled catalog: every known field type and message definition.
#[derive(Clone, Debug, PartialEq)]
pub struct FitProfile {
    pub field_types: Vec<FieldTypeDefintion>,
    pub messages: Vec<MessageDefinition>,
}

// Mathematical models of the catalog, used by every contract below.

pub struct VariantModel {
    pub name: Seq<char>,
    pub value: i64,
    pub comment: Option<Seq<char>>,
}

pub struct FieldTypeModel {
    pub name: Seq<char>,
    pub base_type: Seq<char>,
    pub variants: Seq<VariantModel>,
}

pub struct MessageFieldModel {
    pub def_number: u8,
    pub name: Seq<char>,
    pub field_type: Seq<char>,
    pub scale_bits: u64,
    pub offset_bits: u64,
    pub units: Seq<char>,
    pub comment: Option<Seq<char>>,
}

pub struct MessageModel {
    pub name: Seq<char>,
    pub fields: Seq<MessageFieldModel>,
}

pub open spec fn comment_model(c: Option<String>) -> Option<Seq<char>> {
    match c {
        Some(s) => Some(s@),
        None => None,
    }
}

impl FieldTypeVariant {
    pub open spec fn model(self) -> VariantModel {
        VariantModel { name: self.name@, value: self.value, comment: comment_model(self.comment) }
    }
}

impl FieldTypeDefintion {
    pub open spec fn model(self) -> FieldTypeModel {
        FieldTypeModel {
            name: self.name@,
            base_type: self.base_type@,
            variants: self.variant_map@.map_values(|v: FieldTypeVariant| v.model()),
        }
    }

    /// Starts a fresh definition with no variants.
    pub fn new(name: String, base_type: &'static str) -> (r: Self)
        ensures
            r.model() == (FieldTypeModel {
                name: name@,
                base_type: base_type@,
                variants: Seq::<VariantModel>::empty(),
            }),
    {
        let r = FieldTypeDefintion { name, base_type, variant_map: Vec::new() };
        proof {
            assert(r.model().variants =~= Seq::<VariantModel>::empty());
        }
        r
    }
}

impl MessageFieldDefinition {
    pub open spec fn model(self) -> MessageFieldModel {
        MessageFieldModel {
            def_number: self.def_number,
            name: self.name@,
            field_type: self.field_type@,
            scale_bits: self.scale_bits,
            offset_bits: self.offset_bits,
            units: self.units@,
            comment: comment_model(self.comment),
        }
    }
}

impl MessageDefinition {
    pub open spec fn model(self) -> MessageModel {
        MessageModel {
            name: self.name@,
            fields: self.field_map@.map_values(|f: MessageFieldDefinition| f.model()),
        }
    }

    /// Starts a fresh message definition with no field slots.
    pub fn new(name: &str) -> (r: Self)
        ensures
            r.model() == (MessageModel {
                name: name@,
                fields: Seq::<MessageFieldModel>::empty(),
            }),
    {
        let r = MessageDefinition { name: name.to_owned(), field_map: Vec::new() };
        proof {
            assert(r.model().fields =~= Seq::<MessageFieldModel>::empty());
        }
        r
    }
}

pub open spec fn field_type_models(v: Seq<FieldTypeDefintion>) -> Seq<FieldTypeModel> {
    v.map_values(|d: FieldTypeDefintion| d.model())
}

pub open spec fn message_models(v: Seq<MessageDefinition>) -> Seq<MessageModel> {
    v.map_values(|d: MessageDefinition| d.model())
}

} // verus!

verus! {

/// Equality of two string slices, by their character sequences.
pub(crate) fn str_eq(a: &str, b: &str) -> (r: bool)
    ensures
        r == (a@ == b@),
{
    let sa = a.to_owned();
    let sb = b.to_owned();
    sa == sb
}

/// The fixed base-type catalog of the enumerated field types, mapping each
/// wire name to its language-level type name.
pub open spec fn spec_base_rust_type(s: Seq<char>) -> Option<Seq<char>> {
    if s == "enum"@ {
        Some("u8"@)
    } else if s == "sint8"@ {
        Some("i8"@)
    } else if s == "uint8"@ {
        Some("u8"@)
    } else if s == "uint8z"@ {
        Some("u8"@)
    } else if s == "sint16"@ {
        Some("i16"@)
    } else if s == "uint16"@ {
        Some("u16"@)
    } else if s == "uint16z"@ {
        Some("u16"@)
    } else if s == "sint32"@ {
        Some("i32"@)
    } else if s == "uint32"@ {
        Some("u32"@)
    } else if s == "uint32z"@ {
        Some("u32"@)
    } else {
        None
    }
}

/// Matches a base type string to a language-level type name for enumerated
/// field types; `None` for a name outside the fixed catalog.
pub fn base_type_to_rust_type(base_type_str: &str) -> (r: Option<&'static str>)
    ensures
        match r {
            Some(t) => spec_base_rust_type(base_type_str@) == Some(t@),
            None => spec_base_rust_type(base_type_str@) is None,
        },
{
    if str_eq(base_type_str, "enum") {
        Some("u8")
    } else if str_eq(base_type_str, "sint8") {
        Some("i8")
    } else if str_eq(base_type_str, "uint8") {
        Some("u8")
    } else if str_eq(base_type_str, "uint8z") {
        Some("u8")
    } else if str_eq(base_type_str, "sint16") {
        Some("i16")
    } else if str_eq(base_type_str, "uint16") {
        Some("u16")
    } else if str_eq(base_type_str, "uint16z") {
        Some("u16")
    } else if str_eq(base_type_str, "sint32") {
        Some("i32")
    } else if str_eq(base_type_str, "uint32") {
        Some("u32")
    } else if str_eq(base_type_str, "uint32z") {
        Some("u32")
    } else {
        None
    }
}

/// The value of one hexadecimal digit character.
pub open spec fn spec_hex_digit(c: char) -> Option<int> {
    let u = c as int;
    if 0x30 <= u <= 0x39 {
        Some(u - 0x30)
    } else if 0x61 <= u <= 0x66 {
        Some(u - 0x61 + 10)
    } else if 0x41 <= u <= 0x46 {
        Some(u - 0x41 + 10)
    } else {
        None
    }
}

/// Base-16 left fold over a digit sequence, failing on a non-digit or on a
/// value beyond the signed 64-bit range.
pub open spec fn spec_hex_fold(s: Seq<char>, acc: int) -> Option<int>
    decreases s.len(),
{
    if s.len() == 0 {
        Some(acc)
    } else {
        match spec_hex_digit(s[0]) {
            Some(d) => if acc * 16 + d > 0x7fffffffffffffff {
                None
            } else {
                spec_hex_fold(s.drop_first(), acc * 16 + d)
            },
            None => None,
        }
    }
}

/// The value of a non-empty hexadecimal digit string, within the signed
/// 64-bit range.
pub open spec fn spec_hex_value(s: Seq<char>) -> Option<int> {
    if s.len() == 0 {
        None
    } else {
        spec_hex_fold(s, 0)
    }
}

/// Parses the hexadecimal digits of `s` starting at character `from`.
fn parse_hex_from(s: &str, from: usize) -> (r: Option<i64>)
    requires
        from <= s@.len(),
    ensures
        match r {
            Some(v) => spec_hex_value(s@.skip(from as int)) == Some(v as int) && v >= 0,
            None => spec_hex_value(s@.skip(from as int)) is None,
        },
{
    let n = s.unicode_len();
    if from == n {
        return None;
    }
    let mut acc: u64 = 0;
    let mut i: usize = from;
    while i < n
        invariant
            from <= i <= n,
            n == s@.len(),
            from < n,
            acc <= 0x7fffffffffffffff,
            spec_hex_fold(s@.skip(from as int), 0) == spec_hex_fold(s@.skip(i as int), acc as int),
        decreases n - i,
    {
        let c = s.get_char(i);
        let u = c as u32;
        let d: u64 = if 0x30 <= u && u <= 0x39 {
            (u - 0x30) as u64
        } else if 0x61 <= u && u <= 0x66 {
            (u - 0x61 + 10) as u64
        } else if 0x41 <= u && u <= 0x46 {
            (u - 0x41 + 10) as u64
        } else {
            proof {
                assert(s@.skip(i as int)[0] == c);
                assert(spec_hex_digit(c) is None);
            }
            return None;
        };
        proof {
            assert(s@.skip(i as int)[0] == c);
            assert(spec_hex_digit(c) == Some(d as int));
        }
        if acc >= 0x0800000000000000 {
            proof {
                assert(acc * 16 + d > 0x7fffffffffffffff) by (nonlinear_arith)
                    requires
                        acc >= 0x0800000000000000,
                        d >= 0,
                ;
            }
            return None;
        }
        proof {
            assert(acc * 16 + d <= 0x7fffffffffffffff) by (nonlinear_arith)
                requires
                    acc < 0x0800000000000000,
                    0 <= d < 16,
            ;
            assert(s@.skip(i as int).drop_first() =~= s@.skip(i + 1));
        }
        acc = acc * 16 + d;
        i = i + 1;
    }
    proof {
        assert(s@.skip(n as int) =~= Seq::<char>::empty());
    }
    Some(acc as i64)
}

} // verus!

verus! {

/// Insertion of a variant into a value-keyed list: placed before the first
/// entry with a key at least as large, replacing that entry on an equal key
/// (the last occurrence wins).
pub open spec fn spec_insert_variant(vs: Seq<VariantModel>, v: VariantModel) -> Seq<VariantModel>
    decreases vs.len(),
{
    if vs.len() == 0 {
        seq![v]
    } else if v.value < vs[0].value {
        seq![v] + vs
    } else if v.value == vs[0].value {
        seq![v] + vs.drop_first()
    } else {
        seq![vs[0]] + spec_insert_variant(vs.drop_first(), v)
    }
}

/// Strictly ascending keys: unique, iterated in ascending order.
pub open spec fn variants_sorted(vs: Seq<VariantModel>) -> bool {
    forall|i: int, j: int| 0 <= i < j < vs.len() ==> vs[i].value < vs[j].value
}

/// Law: inserting into a strictly ascending variant list keeps it strictly
/// ascending — keys stay unique and iteration order stays ascending by value.
pub proof fn lemma_insert_variant_sorted(vs: Seq<VariantModel>, v: VariantModel)
    requires
        variants_sorted(vs),
    ensures
        variants_sorted(spec_insert_variant(vs, v)),
    decreases vs.len(),
{
    if vs.len() == 0 {
    } else if v.value < vs[0].value {
    } else if v.value == vs[0].value {
    } else {
        assert(variants_sorted(vs.drop_first()));
        lemma_insert_variant_sorted(vs.drop_first(), v);
        let r = seq![vs[0]] + spec_insert_variant(vs.drop_first(), v);
        lemma_insert_variant_members(vs.drop_first(), v);
        assert forall|i: int, j: int| 0 <= i < j < r.len() implies r[i].value < r[j].value by {
            if i == 0 {
                assert(r[j] == spec_insert_variant(vs.drop_first(), v)[j - 1]);
            }
        }
    }
}

/// Every entry of an insertion result is the new entry or one of the old.
pub proof fn lemma_insert_variant_members(vs: Seq<VariantModel>, v: VariantModel)
    ensures
        forall|i: int|
            0 <= i < spec_insert_variant(vs, v).len() ==> (spec_insert_variant(vs, v)[i] == v
                || vs.contains(spec_insert_variant(vs, v)[i])),
    decreases vs.len(),
{
    if vs.len() == 0 {
    } else if v.value < vs[0].value {
        assert forall|i: int|
            0 <= i < spec_insert_variant(vs, v).len() implies (spec_insert_variant(vs, v)[i] == v
            || vs.contains(spec_insert_variant(vs, v)[i])) by {
            if i > 0 {
                assert(spec_insert_variant(vs, v)[i] == vs[i - 1]);
            }
        }
    } else if v.value == vs[0].value {
        assert forall|i: int|
            0 <= i < spec_insert_variant(vs, v).len() implies (spec_insert_variant(vs, v)[i] == v
            || vs.contains(spec_insert_variant(vs, v)[i])) by {
            if i > 0 {
                assert(spec_insert_variant(vs, v)[i] == vs.drop_first()[i - 1]);
                assert(vs.drop_first()[i - 1] == vs[i]);
            }
        }
    } else {
        lemma_insert_variant_members(vs.drop_first(), v);
        assert forall|i: int|
            0 <= i < spec_insert_variant(vs, v).len() implies (spec_insert_variant(vs, v)[i] == v
            || vs.contains(spec_insert_variant(vs, v)[i])) by {
            if i == 0 {
                assert(vs.contains(vs[0]));
            } else {
                let tail = spec_insert_variant(vs.drop_first(), v);
                assert(spec_insert_variant(vs, v)[i] == tail[i - 1]);
                if tail[i - 1] != v {
                    let k = choose|k: int| 0 <= k < vs.drop_first().len() && vs.drop_first()[k]
                        == tail[i - 1];
                    assert(vs[k + 1] == tail[i - 1]);
                }
            }
        }
    }
}

impl FieldTypeVariant {
    /// Stores the variant in its type's value-keyed list, keeping ascending
    /// order; an equal key replaces the earlier entry.
    fn insert_into(self, vs: Vec<FieldTypeVariant>) -> (r: Vec<FieldTypeVariant>)
        ensures
            r@.map_values(|x: FieldTypeVariant| x.model()) == spec_insert_variant(
                vs@.map_values(|x: FieldTypeVariant| x.model()),
                self.model(),
            ),
        decreases vs@.len(),
    {
        let ghost vsm = vs@.map_values(|x: FieldTypeVariant| x.model());
        let mut vs = vs;
        if vs.len() == 0 {
            vs.push(self);
            proof {
                assert(vs@.map_values(|x: FieldTypeVariant| x.model()) =~= seq![self.model()]);
            }
            vs
        } else if self.value < vs[0].value {
            vs.insert(0, self);
            proof {
                assert(vs@.map_values(|x: FieldTypeVariant| x.model()) =~= seq![self.model()]
                    + vsm);
            }
            vs
        } else if self.value == vs[0].value {
            let _ = vs.remove(0);
            vs.insert(0, self);
            proof {
                assert(vs@.map_values(|x: FieldTypeVariant| x.model()) =~= seq![self.model()]
                    + vsm.drop_first());
            }
            vs
        } else {
            let head = vs.remove(0);
            proof {
                assert(vs@.map_values(|x: FieldTypeVariant| x.model()) =~= vsm.drop_first());
            }
            let mut rest = self.insert_into(vs);
            rest.insert(0, head);
            proof {
                assert(rest@.map_values(|x: FieldTypeVariant| x.model()) =~= seq![head.model()]
                    + spec_insert_variant(vsm.drop_first(), self.model()));
            }
            rest
        }
    }
}

/// Insertion of a field slot into a number-keyed list: placed before the
/// first entry with a definition number at least as large, replacing it on an
/// equal number (the last occurrence wins).
pub open spec fn spec_insert_field(
    fs: Seq<MessageFieldModel>,
    f: MessageFieldModel,
) -> Seq<MessageFieldModel>
    decreases fs.len(),
{
    if fs.len() == 0 {
        seq![f]
    } else if f.def_number < fs[0].def_number {
        seq![f] + fs
    } else if f.def_number == fs[0].def_number {
        seq![f] + fs.drop_first()
    } else {
        seq![fs[0]] + spec_insert_field(fs.drop_first(), f)
    }
}

impl MessageFieldDefinition {
    /// Stores the slot in its message's number-keyed list, keeping ascending
    /// order; an equal key replaces the earlier entry.
    fn insert_into(self, fs: Vec<MessageFieldDefinition>) -> (r: Vec<MessageFieldDefinition>)
        ensures
            r@.map_values(|x: MessageFieldDefinition| x.model()) == spec_insert_field(
                fs@.map_values(|x: MessageFieldDefinition| x.model()),
                self.model(),
            ),
        decreases fs@.len(),
    {
        let ghost fsm = fs@.map_values(|x: MessageFieldDefinition| x.model());
        let mut fs = fs;
        if fs.len() == 0 {
            fs.push(self);
            proof {
                assert(fs@.map_values(|x: MessageFieldDefinition| x.model()) =~= seq![
                    self.model(),
                ]);
            }
            fs
        } else if self.def_number < fs[0].def_number {
            fs.insert(0, self);
            proof {
                assert(fs@.map_values(|x: MessageFieldDefinition| x.model()) =~= seq![self.model()]
                    + fsm);
            }
            fs
        } else if self.def_number == fs[0].def_number {
            let _ = fs.remove(0);
            fs.insert(0, self);
            proof {
                assert(fs@.map_values(|x: MessageFieldDefinition| x.model()) =~= seq![self.model()]
                    + fsm.drop_first());
            }
            fs
        } else {
            let head = fs.remove(0);
            proof {
                assert(fs@.map_values(|x: MessageFieldDefinition| x.model()) =~= fsm.drop_first());
            }
            let mut rest = self.insert_into(fs);
            rest.insert(0, head);
            proof {
                assert(rest@.map_values(|x: MessageFieldDefinition| x.model()) =~= seq![
                    head.model(),
                ] + spec_insert_field(fsm.drop_first(), self.model()));
            }
            rest
        }
    }
}

} // verus!

verus! {

/// The text payload of a cell, if it is a text cell.
pub open spec fn spec_cell_text_opt(c: Cell) -> Option<Seq<char>> {
    match c {
        Cell::Text(s) => Some(s@),
        _ => None,
    }
}

/// The text payload of a cell, or the empty string for any other cell kind.
pub open spec fn spec_cell_text_or_empty(c: Cell) -> Seq<char> {
    match c {
        Cell::Text(s) => s@,
        _ => Seq::empty(),
    }
}

/// The double-precision bit pattern of a numeric cell, or the given default
/// for any other cell kind.
pub open spec fn spec_cell_float_bits(c: Cell, default_bits: u64) -> u64 {
    match c {
        Cell::Int { float_bits, .. } => float_bits,
        Cell::Float { float_bits, .. } => float_bits,
        _ => default_bits,
    }
}

/// A variant value cell: numeric cells give their integer coercion, text
/// cells are read as a marker prefix of two characters followed by
/// hexadecimal digits; anything else is unsupported.
pub open spec fn spec_variant_value(c: Cell) -> Option<i64> {
    match c {
        Cell::Int { int_val, .. } => Some(int_val),
        Cell::Float { int_val, .. } => Some(int_val),
        Cell::Text(s) => if s@.len() >= 2 {
            match spec_hex_value(s@.skip(2)) {
                Some(x) => Some(x as i64),
                None => None,
            }
        } else {
            None
        },
        _ => None,
    }
}

fn cell_variant_value(c: &Cell) -> (r: Option<i64>)
    ensures
        r == spec_variant_value(*c),
{
    match c {
        Cell::Int { int_val, .. } => Some(*int_val),
        Cell::Float { int_val, .. } => Some(*int_val),
        Cell::Text(s) => {
            let st = s.as_str();
            if st.unicode_len() < 2 {
                None
            } else {
                parse_hex_from(st, 2)
            }
        },
        _ => None,
    }
}

fn cell_text_opt(c: &Cell) -> (r: Option<String>)
    ensures
        comment_model(r) == spec_cell_text_opt(*c),
{
    match c {
        Cell::Text(s) => Some(s.clone()),
        _ => None,
    }
}

/// One step of the Types-section scanner: a row with its name and base-type
/// columns populated starts a new definition; a row with only its
/// variant-name column populated appends a variant to the definition most
/// recently started; any other row is skipped.
pub open spec fn spec_types_step(
    acc: Seq<FieldTypeModel>,
    row: Seq<Cell>,
    idx: usize,
) -> Result<Seq<FieldTypeModel>, ProfileError> {
    if row.len() < 5 {
        Err(ProfileError::ShortRow { row: idx })
    } else if !(row[0] is Empty) {
        match row[0] {
            Cell::Text(name) => match row[1] {
                Cell::Text(bt) => match spec_base_rust_type(bt@) {
                    Some(rt) => Ok(
                        acc.push(
                            FieldTypeModel {
                                name: name@,
                                base_type: rt,
                                variants: Seq::empty(),
                            },
                        ),
                    ),
                    None => Err(ProfileError::UnknownBaseType { row: idx }),
                },
                _ => Err(ProfileError::ExpectedBaseTypeName { row: idx }),
            },
            _ => Err(ProfileError::ExpectedTypeName { row: idx }),
        }
    } else if !(row[2] is Empty) {
        if acc.len() == 0 {
            Err(ProfileError::NoOpenTypeDefinition { row: idx })
        } else {
            match row[2] {
                Cell::Text(vname) => match spec_variant_value(row[3]) {
                    Some(value) => {
                        let vm = VariantModel {
                            name: vname@,
                            value,
                            comment: spec_cell_text_opt(row[4]),
                        };
                        let last = acc.last();
                        Ok(
                            acc.update(
                                acc.len() - 1,
                                FieldTypeModel {
                                    variants: spec_insert_variant(last.variants, vm),
                                    ..last
                                },
                            ),
                        )
                    },
                    None => Err(ProfileError::BadVariantValue { row: idx }),
                },
                _ => Err(ProfileError::ExpectedVariantName { row: idx }),
            }
        }
    } else {
        Ok(acc)
    }
}

/// The Types-section scanner from row `i` on, folding each row into the
/// catalog built so far.
pub open spec fn spec_process_types_from(
    rows: Seq<Vec<Cell>>,
    i: int,
    acc: Seq<FieldTypeModel>,
) -> Result<Seq<FieldTypeModel>, ProfileError>
    decreases rows.len() - i,
{
    if !(0 <= i < rows.len()) {
        Ok(acc)
    } else {
        match spec_types_step(acc, rows[i]@, i as usize) {
            Ok(acc2) => spec_process_types_from(rows, i + 1, acc2),
            Err(e) => Err(e),
        }
    }
}

/// The whole Types section: every row after the heading row, starting from
/// an empty catalog.
pub open spec fn spec_process_types(rows: Seq<Vec<Cell>>) -> Result<
    Seq<FieldTypeModel>,
    ProfileError,
> {
    spec_process_types_from(rows, 1, Seq::empty())
}

/// Compiles the Types section: one field-type definition per header row, its
/// variants collected from the continuation rows that follow it.
pub fn process_types(rows: &Vec<Vec<Cell>>) -> (r: Result<Vec<FieldTypeDefintion>, ProfileError>)
    ensures
        match r {
            Ok(v) => spec_process_types(rows@) == Ok::<_, ProfileError>(field_type_models(v@)),
            Err(e) => spec_process_types(rows@) == Err::<Seq<FieldTypeModel>, _>(e),
        },
{
    let n = rows.len();
    let mut field_types: Vec<FieldTypeDefintion> = Vec::new();
    if n <= 1 {
        proof {
            assert(field_type_models(field_types@) =~= Seq::<FieldTypeModel>::empty());
        }
        return Ok(field_types);
    }
    proof {
        assert(field_type_models(field_types@) =~= Seq::<FieldTypeModel>::empty());
    }
    let mut i: usize = 1;
    while i < n
        invariant
            n == rows@.len(),
            1 <= i <= n,
            spec_process_types(rows@) == spec_process_types_from(
                rows@,
                i as int,
                field_type_models(field_types@),
            ),
        decreases n - i,
    {
        let ghost acc = field_type_models(field_types@);
        let row = &rows[i];
        if row.len() < 5 {
            return Err(ProfileError::ShortRow { row: i });
        }
        match &row[0] {
            Cell::Empty => {
                match &row[2] {
                    Cell::Empty => {
                        // neither a header nor a variant row: skipped
                    },
                    Cell::Text(vname) => {
                        if field_types.len() == 0 {
                            return Err(ProfileError::NoOpenTypeDefinition { row: i });
                        }
                        match cell_variant_value(&row[3]) {
                            Some(value) => {
                                let comment = cell_text_opt(&row[4]);
                                let v = FieldTypeVariant { name: vname.clone(), value, comment };
                                let ft = field_types.pop().unwrap();
                                let FieldTypeDefintion { name: tname, base_type, variant_map } =
                                    ft;
                                let vm2 = v.insert_into(variant_map);
                                field_types.push(
                                    FieldTypeDefintion {
                                        name: tname,
                                        base_type,
                                        variant_map: vm2,
                                    },
                                );
                                proof {
                                    let last = acc.last();
                                    let vm = VariantModel {
                                        name: vname@,
                                        value,
                                        comment: spec_cell_text_opt(rows@[i as int]@[4]),
                                    };
                                    assert(field_type_models(field_types@) =~= acc.update(
                                        acc.len() - 1,
                                        FieldTypeModel {
                                            variants: spec_insert_variant(last.variants, vm),
                                            ..last
                                        },
                                    ));
                                }
                            },
                            None => {
                                return Err(ProfileError::BadVariantValue { row: i });
                            },
                        }
                    },
                    _ => {
                        if field_types.len() == 0 {
                            return Err(ProfileError::NoOpenTypeDefinition { row: i });
                        }
                        return Err(ProfileError::ExpectedVariantName { row: i });
                    },
                }
            },
            Cell::Text(name) => {
                match &row[1] {
                    Cell::Text(bt) => match base_type_to_rust_type(bt.as_str()) {
                        Some(rt) => {
                            field_types.push(FieldTypeDefintion::new(name.clone(), rt));
                            proof {
                                assert(field_type_models(field_types@) =~= acc.push(
                                    FieldTypeModel {
                                        name: name@,
                                        base_type: rt@,
                                        variants: Seq::empty(),
                                    },
                                ));
                            }
                        },
                        None => {
                            return Err(ProfileError::UnknownBaseType { row: i });
                        },
                    },
                    _ => {
                        return Err(ProfileError::ExpectedBaseTypeName { row: i });
                    },
                }
            },
            _ => {
                return Err(ProfileError::ExpectedTypeName { row: i });
            },
        }
        i = i + 1;
    }
    Ok(field_types)
}

} // verus!

verus! {

/// A field-slot row of the Messages section, read with declared-type
/// coercion: a numeric definition number (truncated to its eight-bit range),
/// text name and field type, a numeric scale defaulting to one, a numeric
/// offset defaulting to zero, a text unit defaulting to empty.
pub open spec fn spec_field_def(row: Seq<Cell>, idx: usize) -> Result<
    MessageFieldModel,
    ProfileError,
> {
    match row[1] {
        Cell::Int { int_val, .. } | Cell::Float { int_val, .. } => match row[2] {
            Cell::Text(name) => match row[3] {
                Cell::Text(ft) => Ok(
                    MessageFieldModel {
                        def_number: crate::values::wrap_u8(int_val as int),
                        name: name@,
                        field_type: ft@,
                        scale_bits: spec_cell_float_bits(row[6], F64_ONE_BITS),
                        offset_bits: spec_cell_float_bits(row[7], F64_ZERO_BITS),
                        units: spec_cell_text_or_empty(row[8]),
                        comment: spec_cell_text_opt(row[4]),
                    },
                ),
                _ => Err(ProfileError::ExpectedFieldType { row: idx }),
            },
            _ => Err(ProfileError::ExpectedFieldName { row: idx }),
        },
        _ => Err(ProfileError::BadFieldDefNumber { row: idx }),
    }
}

fn cell_float_bits(c: &Cell, default_bits: u64) -> (r: u64)
    ensures
        r == spec_cell_float_bits(*c, default_bits),
{
    match c {
        Cell::Int { float_bits, .. } => *float_bits,
        Cell::Float { float_bits, .. } => *float_bits,
        _ => default_bits,
    }
}

/// Reads one field-slot row into its definition.
pub fn new_message_field_definition(row: &Vec<Cell>, idx: usize) -> (r: Result<
    MessageFieldDefinition,
    ProfileError,
>)
    requires
        row@.len() >= 9,
    ensures
        match r {
            Ok(f) => spec_field_def(row@, idx) == Ok::<_, ProfileError>(f.model()),
            Err(e) => spec_field_def(row@, idx) == Err::<MessageFieldModel, _>(e),
        },
{
    let int_val: i64 = match &row[1] {
        Cell::Int { int_val, .. } => *int_val,
        Cell::Float { int_val, .. } => *int_val,
        _ => {
            return Err(ProfileError::BadFieldDefNumber { row: idx });
        },
    };
    let def_number = crate::values::add_wrap_u8(0, int_val);
    let name = match &row[2] {
        Cell::Text(s) => s.clone(),
        _ => {
            return Err(ProfileError::ExpectedFieldName { row: idx });
        },
    };
    let field_type = match &row[3] {
        Cell::Text(s) => s.clone(),
        _ => {
            return Err(ProfileError::ExpectedFieldType { row: idx });
        },
    };
    let comment = cell_text_opt(&row[4]);
    let scale_bits = cell_float_bits(&row[6], F64_ONE_BITS);
    let offset_bits = cell_float_bits(&row[7], F64_ZERO_BITS);
    let units = match &row[8] {
        Cell::Text(s) => s.clone(),
        _ => String::new(),
    };
    Ok(MessageFieldDefinition { def_number, name, field_type, scale_bits, offset_bits, units, comment })
}

/// One step of the Messages-section scanner: a row with its message-name
/// column populated closes the open message and starts a new one; a row with
/// only its definition-number column populated appends a field slot to the
/// open message; a row with neither populated is a sub-field continuation,
/// recognized and refused rather than silently dropped.
pub open spec fn spec_messages_step(
    msgs: Seq<MessageModel>,
    open_msg: MessageModel,
    row: Seq<Cell>,
    idx: usize,
) -> Result<(Seq<MessageModel>, MessageModel), ProfileError> {
    if row.len() < 9 {
        Err(ProfileError::ShortRow { row: idx })
    } else if !(row[0] is Empty) {
        match row[0] {
            Cell::Text(name) => Ok(
                (msgs.push(open_msg), MessageModel { name: name@, fields: Seq::empty() }),
            ),
            _ => Err(ProfileError::ExpectedMessageName { row: idx }),
        }
    } else if !(row[1] is Empty) {
        match spec_field_def(row, idx) {
            Ok(f) => Ok(
                (
                    msgs,
                    MessageModel {
                        name: open_msg.name,
                        fields: spec_insert_field(open_msg.fields, f),
                    },
                ),
            ),
            Err(e) => Err(e),
        }
    } else {
        Err(ProfileError::UnsupportedSpecFeature { row: idx })
    }
}

/// The Messages-section scanner from row `i` on; at the end of the rows the
/// open message is closed and appended.
pub open spec fn spec_process_messages_from(
    rows: Seq<Vec<Cell>>,
    i: int,
    msgs: Seq<MessageModel>,
    open_msg: MessageModel,
) -> Result<Seq<MessageModel>, ProfileError>
    decreases rows.len() - i,
{
    if !(0 <= i < rows.len()) {
        Ok(msgs.push(open_msg))
    } else {
        match spec_messages_step(msgs, open_msg, rows[i]@, i as usize) {
            Ok(st) => spec_process_messages_from(rows, i + 1, st.0, st.1),
            Err(e) => Err(e),
        }
    }
}

/// The whole Messages section: two heading rows are skipped, the first
/// remaining row must open a message, and the rows after it fold as above.
pub open spec fn spec_process_messages(rows: Seq<Vec<Cell>>) -> Result<
    Seq<MessageModel>,
    ProfileError,
> {
    if rows.len() <= 2 {
        Err(ProfileError::EmptyMessagesSection)
    } else if rows[2]@.len() < 1 {
        Err(ProfileError::ShortRow { row: 2 })
    } else {
        match rows[2]@[0] {
            Cell::Text(name) => spec_process_messages_from(
                rows,
                3,
                Seq::empty(),
                MessageModel { name: name@, fields: Seq::empty() },
            ),
            _ => Err(ProfileError::ExpectedMessageName { row: 2 }),
        }
    }
}

/// Compiles the Messages section: one message definition per header row, its
/// field slots collected from the continuation rows that follow it.
pub fn process_messages(rows: &Vec<Vec<Cell>>) -> (r: Result<Vec<MessageDefinition>, ProfileError>)
    ensures
        match r {
            Ok(v) => spec_process_messages(rows@) == Ok::<_, ProfileError>(message_models(v@)),
            Err(e) => spec_process_messages(rows@) == Err::<Seq<MessageModel>, _>(e),
        },
{
    let n = rows.len();
    if n <= 2 {
        return Err(ProfileError::EmptyMessagesSection);
    }
    let first = &rows[2];
    if first.len() < 1 {
        return Err(ProfileError::ShortRow { row: 2 });
    }
    let mut msg: MessageDefinition = match &first[0] {
        Cell::Text(name) => MessageDefinition::new(name.as_str()),
        _ => {
            return Err(ProfileError::ExpectedMessageName { row: 2 });
        },
    };
    let mut messages: Vec<MessageDefinition> = Vec::new();
    let mut i: usize = 3;
    proof {
        assert(message_models(messages@) =~= Seq::<MessageModel>::empty());
        assert(msg.model().fields =~= Seq::<MessageFieldModel>::empty());
    }
    while i < n
        invariant
            n == rows@.len(),
            3 <= i <= n,
            spec_process_messages(rows@) == spec_process_messages_from(
                rows@,
                i as int,
                message_models(messages@),
                msg.model(),
            ),
        decreases n - i,
    {
        let ghost acc = message_models(messages@);
        let ghost open_model = msg.model();
        let row = &rows[i];
        if row.len() < 9 {
            return Err(ProfileError::ShortRow { row: i });
        }
        match &row[0] {
            Cell::Empty => {
                match &row[1] {
                    Cell::Empty => {
                        return Err(ProfileError::UnsupportedSpecFeature { row: i });
                    },
                    _ => {
                        match new_message_field_definition(row, i) {
                            Ok(f) => {
                                let ghost fm = f.model();
                                let MessageDefinition { name: mname, field_map } = msg;
                                let fm2 = f.insert_into(field_map);
                                msg = MessageDefinition { name: mname, field_map: fm2 };
                                proof {
                                    assert(msg.model() == (MessageModel {
                                        name: open_model.name,
                                        fields: spec_insert_field(open_model.fields, fm),
                                    }));
                                }
                            },
                            Err(e) => {
                                return Err(e);
                            },
                        }
                    },
                }
            },
            Cell::Text(name) => {
                messages.push(msg);
                msg = MessageDefinition::new(name.as_str());
                proof {
                    assert(message_models(messages@) =~= acc.push(open_model));
                }
            },
            _ => {
                return Err(ProfileError::ExpectedMessageName { row: i });
            },
        }
        i = i + 1;
    }
    let ghost acc_end = message_models(messages@);
    let ghost open_end = msg.model();
    messages.push(msg);
    proof {
        assert(message_models(messages@) =~= acc_end.push(open_end));
    }
    Ok(messages)
}

/// Compiles the two sections of the tabular source into the catalog. Fails
/// exactly where either section's scanner fails, the Types section first; no
/// partial catalog is ever produced.
pub fn parse_profile(types_rows: &Vec<Vec<Cell>>, messages_rows: &Vec<Vec<Cell>>) -> (r: Result<
    FitProfile,
    ProfileError,
>)
    ensures
        match r {
            Ok(p) => spec_process_types(types_rows@) == Ok::<_, ProfileError>(
                field_type_models(p.field_types@),
            ) && spec_process_messages(messages_rows@) == Ok::<_, ProfileError>(
                message_models(p.messages@),
            ),
            Err(e) => spec_process_types(types_rows@) == Err::<Seq<FieldTypeModel>, _>(e) || (
            spec_process_types(types_rows@) is Ok && spec_process_messages(messages_rows@)
                == Err::<Seq<MessageModel>, _>(e)),
        },
{
    let field_types = match process_types(types_rows) {
        Ok(v) => v,
        Err(e) => {
            return Err(e);
        },
    };
    let messages = match process_messages(messages_rows) {
        Ok(v) => v,
        Err(e) => {
            return Err(e);
        },
    };
    Ok(FitProfile { field_types, messages })
}

} // verus!

verus! {

/// Strictly ascending definition numbers: unique, iterated in ascending
/// order.
pub open spec fn fields_sorted(fs: Seq<MessageFieldModel>) -> bool {
    forall|i: int, j: int| 0 <= i < j < fs.len() ==> fs[i].def_number < fs[j].def_number
}

/// Every entry of a field insertion result is the new entry or one of the
/// old.
pub proof fn lemma_insert_field_members(fs: Seq<MessageFieldModel>, f: MessageFieldModel)
    ensures
        forall|i: int|
            0 <= i < spec_insert_field(fs, f).len() ==> (spec_insert_field(fs, f)[i] == f
                || fs.contains(spec_insert_field(fs, f)[i])),
    decreases fs.len(),
{
    if fs.len() == 0 {
    } else if f.def_number < fs[0].def_number {
        assert forall|i: int|
            0 <= i < spec_insert_field(fs, f).len() implies (spec_insert_field(fs, f)[i] == f
            || fs.contains(spec_insert_field(fs, f)[i])) by {
            if i > 0 {
                assert(spec_insert_field(fs, f)[i] == fs[i - 1]);
            }
        }
    } else if f.def_number == fs[0].def_number {
        assert forall|i: int|
            0 <= i < spec_insert_field(fs, f).len() implies (spec_insert_field(fs, f)[i] == f
            || fs.contains(spec_insert_field(fs, f)[i])) by {
            if i > 0 {
                assert(spec_insert_field(fs, f)[i] == fs.drop_first()[i - 1]);
                assert(fs.drop_first()[i - 1] == fs[i]);
            }
        }
    } else {
        lemma_insert_field_members(fs.drop_first(), f);
        assert forall|i: int|
            0 <= i < spec_insert_field(fs, f).len() implies (spec_insert_field(fs, f)[i] == f
            || fs.contains(spec_insert_field(fs, f)[i])) by {
            if i == 0 {
                assert(fs.contains(fs[0]));
            } else {
                let tail = spec_insert_field(fs.drop_first(), f);
                assert(spec_insert_field(fs, f)[i] == tail[i - 1]);
                if tail[i - 1] != f {
                    let k = choose|k: int|
                        0 <= k < fs.drop_first().len() && fs.drop_first()[k] == tail[i - 1];
                    assert(fs[k + 1] == tail[i - 1]);
                }
            }
        }
    }
}

/// Law: inserting into a strictly ascending field-slot list keeps it strictly
/// ascending — definition numbers stay unique and iteration order stays
/// ascending.
pub proof fn lemma_insert_field_sorted(fs: Seq<MessageFieldModel>, f: MessageFieldModel)
    requires
        fields_sorted(fs),
    ensures
        fields_sorted(spec_insert_field(fs, f)),
    decreases fs.len(),
{
    if fs.len() == 0 {
    } else if f.def_number < fs[0].def_number {
    } else if f.def_number == fs[0].def_number {
    } else {
        assert(fields_sorted(fs.drop_first()));
        lemma_insert_field_sorted(fs.drop_first(), f);
        let r = seq![fs[0]] + spec_insert_field(fs.drop_first(), f);
        lemma_insert_field_members(fs.drop_first(), f);
        assert forall|i: int, j: int| 0 <= i < j < r.len() implies r[i].def_number
            < r[j].def_number by {
            if i == 0 {
                assert(r[j] == spec_insert_field(fs.drop_first(), f)[j - 1]);
            }
        }
    }
}

/// Every field type keeps its variant map strictly ascending by value.
pub open spec fn all_types_sorted(ts: Seq<FieldTypeModel>) -> bool {
    forall|k: int| 0 <= k < ts.len() ==> variants_sorted(ts[k].variants)
}

proof fn lemma_types_fold_sorted(rows: Seq<Vec<Cell>>, i: int, acc: Seq<FieldTypeModel>)
    requires
        all_types_sorted(acc),
    ensures
        match spec_process_types_from(rows, i, acc) {
            Ok(ts) => all_types_sorted(ts),
            Err(_) => true,
        },
    decreases rows.len() - i,
{
    if 0 <= i < rows.len() {
        match spec_types_step(acc, rows[i]@, i as usize) {
            Ok(acc2) => {
                assert(all_types_sorted(acc2)) by {
                    let row = rows[i]@;
                    if row.len() >= 5 && row[0] is Empty && !(row[2] is Empty) && acc.len() > 0 {
                        match row[2] {
                            Cell::Text(vname) => match spec_variant_value(row[3]) {
                                Some(value) => {
                                    let vm = VariantModel {
                                        name: vname@,
                                        value,
                                        comment: spec_cell_text_opt(row[4]),
                                    };
                                    lemma_insert_variant_sorted(acc.last().variants, vm);
                                },
                                None => {},
                            },
                            _ => {},
                        }
                    }
                };
                lemma_types_fold_sorted(rows, i + 1, acc2);
            },
            Err(_) => {},
        }
    }
}

/// Law: every field-type definition that the compiler produces has its
/// variant map keyed uniquely, iterated in ascending order by value.
pub proof fn lemma_compiled_types_sorted(rows: Seq<Vec<Cell>>)
    ensures
        match spec_process_types(rows) {
            Ok(ts) => all_types_sorted(ts),
            Err(_) => true,
        },
{
    lemma_types_fold_sorted(rows, 1, Seq::empty());
}

/// Every message keeps its field map strictly ascending by definition number.
pub open spec fn all_messages_sorted(ms: Seq<MessageModel>) -> bool {
    forall|k: int| 0 <= k < ms.len() ==> fields_sorted(ms[k].fields)
}

proof fn lemma_messages_fold_sorted(
    rows: Seq<Vec<Cell>>,
    i: int,
    msgs: Seq<MessageModel>,
    open_msg: MessageModel,
)
    requires
        all_messages_sorted(msgs),
        fields_sorted(open_msg.fields),
    ensures
        match spec_process_messages_from(rows, i, msgs, open_msg) {
            Ok(ms) => all_messages_sorted(ms),
            Err(_) => true,
        },
    decreases rows.len() - i,
{
    if !(0 <= i < rows.len()) {
        assert(all_messages_sorted(msgs.push(open_msg)));
    } else {
        match spec_messages_step(msgs, open_msg, rows[i]@, i as usize) {
            Ok(st) => {
                assert(all_messages_sorted(st.0) && fields_sorted(st.1.fields)) by {
                    let row = rows[i]@;
                    if row.len() >= 9 && row[0] is Empty && !(row[1] is Empty) {
                        match spec_field_def(row, i as usize) {
                            Ok(f) => {
                                lemma_insert_field_sorted(open_msg.fields, f);
                            },
                            Err(_) => {},
                        }
                    }
                };
                lemma_messages_fold_sorted(rows, i + 1, st.0, st.1);
            },
            Err(_) => {},
        }
    }
}

/// Law: every message definition that the compiler produces has its field
/// map keyed uniquely, iterated in ascending order by definition number.
pub proof fn lemma_compiled_messages_sorted(rows: Seq<Vec<Cell>>)
    ensures
        match spec_process_messages(rows) {
            Ok(ms) => all_messages_sorted(ms),
            Err(_) => true,
        },
{
    if rows.len() > 2 && rows[2]@.len() >= 1 {
        match rows[2]@[0] {
            Cell::Text(name) => {
                lemma_messages_fold_sorted(
                    rows,
                    3,
                    Seq::empty(),
                    MessageModel { name: name@, fields: Seq::empty() },
                );
            },
            _ => {},
        }
    }
}

} // verus!
