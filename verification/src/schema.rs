//! The schema: an ordered list of named, typed fields.
//!
//! A field's position in the schema fixes both its bit in every row of the
//! presence bitmap and the position of its column.

use vstd::prelude::*;
use vstd::string::StringExecFns;

verus! {

/// The type of the values in one column.
#[derive(Clone, Copy, Debug, PartialEq, Eq, Structural)]
pub enum DataType {
    I64,
    /// A decimal number stored as an integer `v` that stands for
    /// `v / 10^scale`.
    F64 { scale: u8 },
    U64,
    Bool,
    String,
    BoolArray,
    U64Array,
    ByteArray,
}

/// One field of a schema.
#[derive(Clone, Debug)]
pub struct FieldDefinition {
    name: String,
    data_type: DataType,
}

impl FieldDefinition {
    pub closed spec fn spec_name(&self) -> Seq<char> {
        self.name@
    }

    pub closed spec fn spec_data_type(&self) -> DataType {
        self.data_type
    }

    pub fn new(name: String, data_type: DataType) -> (field: Self)
        ensures
            field.spec_name() == name@,
            field.spec_data_type() == data_type,
    {
        FieldDefinition { name, data_type }
    }

    pub fn name(&self) -> (name: &str)
        ensures
            name@ == self.spec_name(),
    {
        self.name.as_str()
    }

    pub fn data_type(&self) -> (data_type: &DataType)
        ensures
            *data_type == self.spec_data_type(),
    {
        &self.data_type
    }
}

/// No two of `fields` share a name.
pub open spec fn names_distinct(fields: Seq<FieldDefinition>) -> bool {
    forall|i: int, j: int|
        0 <= i < j < fields.len() ==> fields[i].spec_name() != fields[j].spec_name()
}

/// An ordered sequence of fields with pairwise distinct names.
#[derive(Clone, Debug)]
pub struct Schema {
    fields: Vec<FieldDefinition>,
}

impl View for Schema {
    type V = Seq<FieldDefinition>;

    closed spec fn view(&self) -> Seq<FieldDefinition> {
        self.fields@
    }
}

impl Schema {
    /// The invariant of a schema: field names are unique.
    pub open spec fn wf(&self) -> bool {
        names_distinct(self@)
    }

    /// Builds a schema from fields whose names are pairwise distinct,
    /// keeping their order.
    pub fn with_fields(fields: Vec<FieldDefinition>) -> (schema: Self)
        requires
            names_distinct(fields@),
        ensures
            schema@ == fields@,
            schema.wf(),
    {
        Schema { fields }
    }

    pub fn fields(&self) -> (fields: &[FieldDefinition])
        ensures
            fields@ == self@,
    {
        self.fields.as_slice()
    }
}

/// One entry of a schema description as a caller supplies it: the field's
/// name, the tag that names its type, and the scale where one was given.
#[derive(Clone, Debug)]
pub struct SchemaEntry {
    pub name: String,
    pub type_tag: String,
    pub scale: Option<u64>,
}

/// Why a schema description was rejected. `index` is the position of the
/// offending entry.
#[derive(Clone, Debug)]
pub enum SchemaError {
    /// The type tag names no data type.
    UnknownDataType { index: usize, type_tag: String },
    /// The type needs a scale and the entry has none.
    MissingScale { index: usize },
    /// The scale does not fit in eight bits.
    ScaleOutOfRange { index: usize, scale: u64 },
    /// An earlier entry already uses this name.
    DuplicateFieldName { index: usize, name: String },
}

/// What can come of reading one type tag.
pub enum TagReading {
    Known(DataType),
    Unknown,
    MissingScale,
    ScaleOutOfRange(u64),
}

/// The data type that a type tag names, given the entry's scale.
pub open spec fn read_type_tag(type_tag: Seq<char>, scale: Option<u64>) -> TagReading {
    if type_tag == "i64"@ {
        TagReading::Known(DataType::I64)
    } else if type_tag == "f64"@ {
        match scale {
            None => TagReading::MissingScale,
            Some(s) => if s <= 255 {
                TagReading::Known(DataType::F64 { scale: s as u8 })
            } else {
                TagReading::ScaleOutOfRange(s)
            },
        }
    } else if type_tag == "u64"@ {
        TagReading::Known(DataType::U64)
    } else if type_tag == "bool"@ {
        TagReading::Known(DataType::Bool)
    } else if type_tag == "string"@ {
        TagReading::Known(DataType::String)
    } else if type_tag == "bool_array"@ {
        TagReading::Known(DataType::BoolArray)
    } else if type_tag == "u64_array"@ {
        TagReading::Known(DataType::U64Array)
    } else if type_tag == "byte_array"@ {
        TagReading::Known(DataType::ByteArray)
    } else {
        TagReading::Unknown
    }
}

fn tag_is(type_tag: &String, literal: &str) -> (same: bool)
    ensures
        same == (type_tag@ == literal@),
{
    let other = String::from_str(literal);
    *type_tag == other
}

/// Reads one type tag.
pub fn data_type_from_tag(type_tag: &String, scale: Option<u64>) -> (reading: TagReading)
    ensures
        reading == read_type_tag(type_tag@, scale),
{
    if tag_is(type_tag, "i64") {
        TagReading::Known(DataType::I64)
    } else if tag_is(type_tag, "f64") {
        match scale {
            None => TagReading::MissingScale,
            Some(s) => if s <= 255 {
                TagReading::Known(DataType::F64 { scale: s as u8 })
            } else {
                TagReading::ScaleOutOfRange(s)
            },
        }
    } else if tag_is(type_tag, "u64") {
        TagReading::Known(DataType::U64)
    } else if tag_is(type_tag, "bool") {
        TagReading::Known(DataType::Bool)
    } else if tag_is(type_tag, "string") {
        TagReading::Known(DataType::String)
    } else if tag_is(type_tag, "bool_array") {
        TagReading::Known(DataType::BoolArray)
    } else if tag_is(type_tag, "u64_array") {
        TagReading::Known(DataType::U64Array)
    } else if tag_is(type_tag, "byte_array") {
        TagReading::Known(DataType::ByteArray)
    } else {
        TagReading::Unknown
    }
}

/// Whether an entry before position `i` has the name of entry `i`.
pub open spec fn name_taken(entries: Seq<SchemaEntry>, i: int) -> bool {
    exists|j: int| 0 <= j < i && entries[j].name@ == entries[i].name@
}

/// What can come of reading one entry of a schema description.
pub enum EntryReading {
    Field(DataType),
    UnknownDataType,
    MissingScale,
    ScaleOutOfRange(u64),
    DuplicateFieldName,
}

/// What entry `i` of a schema description comes to: its type tag is read
/// first, then its name is held against the entries before it.
pub open spec fn read_entry(entries: Seq<SchemaEntry>, i: int) -> EntryReading {
    match read_type_tag(entries[i].type_tag@, entries[i].scale) {
        TagReading::Known(data_type) => if name_taken(entries, i) {
            EntryReading::DuplicateFieldName
        } else {
            EntryReading::Field(data_type)
        },
        TagReading::Unknown => EntryReading::UnknownDataType,
        TagReading::MissingScale => EntryReading::MissingScale,
        TagReading::ScaleOutOfRange(s) => EntryReading::ScaleOutOfRange(s),
    }
}

impl SchemaError {
    /// The position of the entry that was rejected.
    pub open spec fn index(&self) -> int {
        match *self {
            SchemaError::UnknownDataType { index, .. } => index as int,
            SchemaError::MissingScale { index } => index as int,
            SchemaError::ScaleOutOfRange { index, .. } => index as int,
            SchemaError::DuplicateFieldName { index, .. } => index as int,
        }
    }

    /// Whether this error is the one that reporting `reading` for `entry`
    /// calls for.
    pub open spec fn reports(&self, entry: SchemaEntry, reading: EntryReading) -> bool {
        match reading {
            EntryReading::Field(_) => false,
            EntryReading::UnknownDataType => *self matches SchemaError::UnknownDataType {
                type_tag,
                ..
            } && type_tag@ == entry.type_tag@,
            EntryReading::MissingScale => *self is MissingScale,
            EntryReading::ScaleOutOfRange(s) => *self matches SchemaError::ScaleOutOfRange {
                scale,
                ..
            } && scale == s,
            EntryReading::DuplicateFieldName => *self matches SchemaError::DuplicateFieldName {
                name,
                ..
            } && name@ == entry.name@,
        }
    }

    /// The text of the error message.
    pub open spec fn spec_message(&self) -> Seq<char> {
        match *self {
            SchemaError::UnknownDataType { type_tag, .. } => "Schema Data Type '"@ + type_tag@
                + "' unknown"@,
            SchemaError::MissingScale { .. } => "Schema Data Type 'f64' needs a scale"@,
            SchemaError::ScaleOutOfRange { .. } => "out of range integral type conversion attempted"@,
            SchemaError::DuplicateFieldName { name, .. } => "Schema Field Name '"@ + name@
                + "' used twice"@,
        }
    }

    /// A description of the error for the caller.
    pub fn message(&self) -> (text: String)
        ensures
            text@ == self.spec_message(),
    {
        match self {
            SchemaError::UnknownDataType { type_tag, .. } => {
                let mut text = String::from_str("Schema Data Type '");
                text.append(type_tag.as_str());
                text.append("' unknown");
                text
            },
            SchemaError::MissingScale { .. } => String::from_str(
                "Schema Data Type 'f64' needs a scale",
            ),
            SchemaError::ScaleOutOfRange { .. } => String::from_str(
                "out of range integral type conversion attempted",
            ),
            SchemaError::DuplicateFieldName { name, .. } => {
                let mut text = String::from_str("Schema Field Name '");
                text.append(name.as_str());
                text.append("' used twice");
                text
            },
        }
    }
}

/// Whether one of `fields` is named `name`.
fn name_among(fields: &Vec<FieldDefinition>, name: &String) -> (found: bool)
    ensures
        found == exists|j: int| 0 <= j < fields@.len() && fields@[j].spec_name() == name@,
{
    let mut j: usize = 0;
    while j < fields.len()
        invariant
            j <= fields@.len(),
            forall|k: int| 0 <= k < j ==> fields@[k].spec_name() != name@,
        decreases fields@.len() - j,
    {
        if fields[j].name == *name {
            return true;
        }
        j += 1;
    }
    false
}

/// Builds the schema that a caller's description stands for.
///
/// Entries are read in order. The first entry whose type tag is unknown,
/// whose scale is missing or out of range, or whose name an earlier entry
/// already has, is reported and no schema is built. Otherwise the schema has
/// one field per entry, in the same order.
pub fn create_schema(entries: &[SchemaEntry]) -> (r: Result<Schema, SchemaError>)
    ensures
        match r {
            Ok(schema) => {
                &&& schema.wf()
                &&& schema@.len() == entries@.len()
                &&& forall|i: int|
                    0 <= i < entries@.len() ==> {
                        &&& #[trigger] read_entry(entries@, i) == EntryReading::Field(
                            schema@[i].spec_data_type(),
                        )
                        &&& schema@[i].spec_name() == entries@[i].name@
                    }
            },
            Err(e) => {
                &&& 0 <= e.index() < entries@.len()
                &&& forall|j: int| 0 <= j < e.index() ==> #[trigger] read_entry(entries@, j) is Field
                &&& e.reports(entries@[e.index()], read_entry(entries@, e.index()))
            },
        },
{
    let mut fields: Vec<FieldDefinition> = Vec::new();
    let mut i: usize = 0;
    while i < entries.len()
        invariant
            i <= entries@.len(),
            fields@.len() == i,
            names_distinct(fields@),
            forall|k: int|
                0 <= k < i ==> #[trigger] read_entry(entries@, k) == EntryReading::Field(
                    fields@[k].spec_data_type(),
                ),
            forall|k: int| 0 <= k < i ==> (#[trigger] fields@[k]).spec_name() == entries@[k].name@,
        decreases entries@.len() - i,
    {
        let entry = &entries[i];
        let data_type = match data_type_from_tag(&entry.type_tag, entry.scale) {
            TagReading::Known(data_type) => data_type,
            TagReading::Unknown => {
                return Err(
                    SchemaError::UnknownDataType { index: i, type_tag: entry.type_tag.clone() },
                );
            },
            TagReading::MissingScale => {
                return Err(SchemaError::MissingScale { index: i });
            },
            TagReading::ScaleOutOfRange(scale) => {
                return Err(SchemaError::ScaleOutOfRange { index: i, scale });
            },
        };
        let taken = name_among(&fields, &entry.name);
        proof {
            if taken {
                let j = choose|j: int| 0 <= j < fields@.len() && fields@[j].spec_name() == entry.name@;
                assert(entries@[j].name@ == entries@[i as int].name@);
            } else {
                let this = entries@[i as int];
                assert forall|j: int| 0 <= j < i implies entries@[j].name@ != this.name@ by {
                    assert(fields@[j].spec_name() == entries@[j].name@);
                }
            }
            assert(taken == name_taken(entries@, i as int));
        }
        if taken {
            return Err(SchemaError::DuplicateFieldName { index: i, name: entry.name.clone() });
        }
        let ghost before = fields@;
        fields.push(FieldDefinition::new(entry.name.clone(), data_type));
        proof {
            assert forall|a: int, b: int| 0 <= a < b < fields@.len() implies fields@[a].spec_name()
                != fields@[b].spec_name() by {
                if b < i {
                    assert(before[a].spec_name() != before[b].spec_name());
                }
            }
        }
        i += 1;
    }
    Ok(Schema::with_fields(fields))
}

} // verus!
