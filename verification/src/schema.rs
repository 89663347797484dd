//! The relation schema and its mapping to the columnar type system an
//! encoder writes: every SQL column type is sent to the arrow-style data
//! type the parquet output uses for it.  The mapping follows the engine's
//! own value encodings; building the writer's native schema objects from
//! this model is the collaborator's part.

use vstd::prelude::*;

verus! {

/// The unit of a SQL interval type.
#[derive(PartialEq, Eq, Structural, Clone, Copy, Debug)]
pub enum IntervalUnit {
    Year,
    YearToMonth,
    Month,
    Day,
    DayToHour,
    DayToMinute,
    DayToSecond,
    Hour,
    HourToMinute,
    HourToSecond,
    Minute,
    MinuteToSecond,
    Second,
}

/// The SQL column types a relation can carry.
#[derive(PartialEq, Eq, Structural, Clone, Copy, Debug)]
pub enum SqlType {
    Boolean,
    TinyInt,
    SmallInt,
    Int,
    BigInt,
    Real,
    Double,
    Decimal,
    Char,
    Varchar,
    Time,
    Timestamp,
    Date,
    Null,
    Uuid,
    Binary,
    Varbinary,
    Variant,
    Interval(IntervalUnit),
    Array,
    Struct,
    MapType,
}

/// One column's type, with the nested types a composite carries.
pub struct ColumnType {
    pub typ: SqlType,
    pub nullable: bool,
    pub precision: Option<u32>,
    pub scale: Option<u32>,
    pub component: Option<Box<ColumnType>>,
    pub fields: Option<Vec<Field>>,
    pub key: Option<Box<ColumnType>>,
    pub value: Option<Box<ColumnType>>,
}

/// One named column of a relation.
pub struct Field {
    pub name: String,
    pub columntype: ColumnType,
}

/// The columnar data types the parquet output is written with.
pub enum ArrowDataType {
    Boolean,
    Int8,
    Int16,
    Int32,
    Int64,
    Float32,
    Float64,
    Decimal128(u8, u8),
    Utf8,
    Time64Nanosecond,
    /// Microsecond timestamps, marked UTC for the delta-lake flavour.
    TimestampMicrosecondUtc,
    TimestampMicrosecond,
    Date32,
    Null,
    LargeBinary,
    IntervalYearMonth,
    IntervalDayTime,
    /// A large list of one element type, with the element's nullability.
    LargeList(Box<ArrowDataType>, bool),
    Struct(Vec<ArrowField>),
    /// A map from a key type to a value type, each with its nullability.
    MapType(Box<ArrowDataType>, bool, Box<ArrowDataType>, bool),
}

/// One column of the written schema.
pub struct ArrowField {
    pub name: String,
    pub data_type: ArrowDataType,
    pub nullable: bool,
}

/// A column type whose composite parts are all present and whose decimal
/// bounds fit the written type; anything else is a schema bug rejected
/// before encoding.
pub open spec fn wf_columntype(c: ColumnType) -> bool
    decreases c,
{
    match c.typ {
        SqlType::Decimal => (match c.precision {
            Option::Some(p) => p <= 255,
            Option::None => true,
        }) && (match c.scale {
            Option::Some(s) => s <= 255,
            Option::None => true,
        }),
        SqlType::Array => c.component matches Option::Some(t) && wf_columntype(*t),
        SqlType::Struct => c.fields matches Option::Some(fs) && (forall|i: int|
            0 <= i < fs@.len() ==> wf_columntype((#[trigger] fs@[i]).columntype)),
        SqlType::MapType => c.key matches Option::Some(k) && wf_columntype(*k) && (c.value
            matches Option::Some(v) && wf_columntype(*v)),
        _ => true,
    }
}

/// Whether `a` is the written data type of the column type `c`.  The
/// delta-lake flavour forces nullability and UTC timestamps.
pub open spec fn arrow_matches(c: ColumnType, delta_lake: bool, a: ArrowDataType) -> bool
    decreases c,
{
    match c.typ {
        SqlType::Boolean => a == ArrowDataType::Boolean,
        SqlType::TinyInt => a == ArrowDataType::Int8,
        SqlType::SmallInt => a == ArrowDataType::Int16,
        SqlType::Int => a == ArrowDataType::Int32,
        SqlType::BigInt => a == ArrowDataType::Int64,
        SqlType::Real => a == ArrowDataType::Float32,
        SqlType::Double => a == ArrowDataType::Float64,
        SqlType::Decimal => a == ArrowDataType::Decimal128(
            (match c.precision {
                Option::Some(p) => p
                ,
                Option::None => 0,
            }) as u8,
            (match c.scale {
                Option::Some(s) => s,
                Option::None => 0,
            }) as u8,
        ),
        SqlType::Char => a == ArrowDataType::Utf8,
        SqlType::Varchar => a == ArrowDataType::Utf8,
        SqlType::Time => a == ArrowDataType::Time64Nanosecond,
        SqlType::Timestamp => a == (if delta_lake {
            ArrowDataType::TimestampMicrosecondUtc
        } else {
            ArrowDataType::TimestampMicrosecond
        }),
        SqlType::Date => a == ArrowDataType::Date32,
        SqlType::Null => a == ArrowDataType::Null,
        SqlType::Uuid => a == ArrowDataType::Utf8,
        SqlType::Binary => a == ArrowDataType::LargeBinary,
        SqlType::Varbinary => a == ArrowDataType::LargeBinary,
        SqlType::Variant => a == ArrowDataType::Utf8,
        SqlType::Interval(u) => a == (match u {
            IntervalUnit::Year => ArrowDataType::IntervalYearMonth,
            IntervalUnit::YearToMonth => ArrowDataType::IntervalYearMonth,
            IntervalUnit::Month => ArrowDataType::IntervalYearMonth,
            _ => ArrowDataType::IntervalDayTime,
        }),
        SqlType::Array => (match c.component {
            Option::Some(t) => a matches ArrowDataType::LargeList(et, en) && arrow_matches(
                *t,
                delta_lake,
                *et,
            ) && en == (delta_lake || t.nullable),
            Option::None => false,
        }),
        SqlType::Struct => (match c.fields {
            Option::Some(fs) => a matches ArrowDataType::Struct(afs) && afs@.len() == fs@.len()
                && (forall|i: int|
                0 <= i < fs@.len() ==> field_matches(
                    #[trigger] fs@[i],
                    delta_lake,
                    afs@[i],
                )),
            Option::None => false,
        }),
        SqlType::MapType => (match (c.key, c.value) {
            (Option::Some(k), Option::Some(v)) => a matches ArrowDataType::MapType(
                ak,
                akn,
                av,
                avn,
            ) && arrow_matches(*k, delta_lake, *ak) && akn == k.nullable && arrow_matches(
                *v,
                delta_lake,
                *av,
            ) && avn == v.nullable,
            _ => false,
        }),
    }
}

/// Whether `a` is the written column of the relation field `f`.
pub open spec fn field_matches(f: Field, delta_lake: bool, a: ArrowField) -> bool
    decreases f,
{
    a.name@ == f.name@ && a.nullable == (delta_lake || f.columntype.nullable) && arrow_matches(
        f.columntype,
        delta_lake,
        a.data_type,
    )
}

/// Maps one column type to the data type it is written as.
fn columntype_to_datatype(c: &ColumnType, delta_lake: bool) -> (r: ArrowDataType)
    requires
        wf_columntype(*c),
    ensures
        arrow_matches(*c, delta_lake, r),
    decreases *c, 0int,
{
    match c.typ {
        SqlType::Boolean => ArrowDataType::Boolean,
        SqlType::TinyInt => ArrowDataType::Int8,
        SqlType::SmallInt => ArrowDataType::Int16,
        SqlType::Int => ArrowDataType::Int32,
        SqlType::BigInt => ArrowDataType::Int64,
        SqlType::Real => ArrowDataType::Float32,
        SqlType::Double => ArrowDataType::Float64,
        SqlType::Decimal => {
            let p: u32 = match &c.precision {
                Option::Some(p) => *p,
                Option::None => 0,
            };
            let s: u32 = match &c.scale {
                Option::Some(s) => *s,
                Option::None => 0,
            };
            ArrowDataType::Decimal128(p as u8, s as u8)
        },
        SqlType::Char => ArrowDataType::Utf8,
        SqlType::Varchar => ArrowDataType::Utf8,
        SqlType::Time => ArrowDataType::Time64Nanosecond,
        SqlType::Timestamp => {
            if delta_lake {
                ArrowDataType::TimestampMicrosecondUtc
            } else {
                ArrowDataType::TimestampMicrosecond
            }
        },
        SqlType::Date => ArrowDataType::Date32,
        SqlType::Null => ArrowDataType::Null,
        SqlType::Uuid => ArrowDataType::Utf8,
        SqlType::Binary => ArrowDataType::LargeBinary,
        SqlType::Varbinary => ArrowDataType::LargeBinary,
        SqlType::Variant => ArrowDataType::Utf8,
        SqlType::Interval(u) => {
            match u {
                IntervalUnit::Year => ArrowDataType::IntervalYearMonth,
                IntervalUnit::YearToMonth => ArrowDataType::IntervalYearMonth,
                IntervalUnit::Month => ArrowDataType::IntervalYearMonth,
                _ => ArrowDataType::IntervalDayTime,
            }
        },
        SqlType::Array => {
            let component = match &c.component {
                Option::Some(t) => t,
                Option::None => unreached(),
            };
            let inner = columntype_to_datatype(component, delta_lake);
            ArrowDataType::LargeList(Box::new(inner), delta_lake || component.nullable)
        },
        SqlType::Struct => {
            let fs = match &c.fields {
                Option::Some(fs) => fs,
                Option::None => unreached(),
            };
            let mut afs: Vec<ArrowField> = Vec::new();
            let n = fs.len();
            for i in 0..n
                invariant
                    n == fs@.len(),
                    c.fields matches Option::Some(cfs) && cfs@ == fs@,
                    wf_columntype(*c),
                    c.typ == SqlType::Struct,
                    afs@.len() == i as int,
                    forall|j: int|
                        0 <= j < i ==> field_matches(#[trigger] fs@[j], delta_lake, afs@[j]),
            {
                proof {
                    assert(decreases_to!(*c => fs@[i as int].columntype));
                }
                let af = field_to_arrow_field(&fs[i], delta_lake);
                afs.push(af);
            }
            ArrowDataType::Struct(afs)
        },
        SqlType::MapType => {
            let k = match &c.key {
                Option::Some(k) => k,
                Option::None => unreached(),
            };
            let v = match &c.value {
                Option::Some(v) => v,
                Option::None => unreached(),
            };
            let ak = columntype_to_datatype(k, delta_lake);
            let av = columntype_to_datatype(v, delta_lake);
            ArrowDataType::MapType(Box::new(ak), k.nullable, Box::new(av), v.nullable)
        },
    }
}

/// Maps one relation field to the column it is written as.
fn field_to_arrow_field(f: &Field, delta_lake: bool) -> (r: ArrowField)
    requires
        wf_columntype(f.columntype),
    ensures
        field_matches(*f, delta_lake, r),
    decreases f.columntype, 1int,
{
    let data_type = columntype_to_datatype(&f.columntype, delta_lake);
    ArrowField { name: f.name.clone(), data_type, nullable: delta_lake || f.columntype.nullable }
}

/// Maps a relation's fields to the columns the parquet output writes, in
/// order.  The delta-lake flavour marks every column nullable and its
/// timestamps UTC.
pub fn relation_to_arrow_fields(fields: &Vec<Field>, delta_lake: bool) -> (r: Vec<ArrowField>)
    requires
        forall|i: int| 0 <= i < fields@.len() ==> wf_columntype((#[trigger] fields@[i]).columntype),
    ensures
        r@.len() == fields@.len(),
        forall|i: int| 0 <= i < fields@.len() ==> field_matches(fields@[i], delta_lake, #[trigger] r@[i]),
{
    let mut out: Vec<ArrowField> = Vec::new();
    let n = fields.len();
    for i in 0..n
        invariant
            n == fields@.len(),
            forall|j: int|
                0 <= j < fields@.len() ==> wf_columntype((#[trigger] fields@[j]).columntype),
            out@.len() == i as int,
            forall|j: int|
                0 <= j < i ==> field_matches(fields@[j], delta_lake, #[trigger] out@[j]),
    {
        let af = field_to_arrow_field(&fields[i], delta_lake);
        out.push(af);
    }
    out
}

/// The schema handed to the parquet writer: the written columns, in
/// relation order.
pub struct ParquetSchema {
    pub fields: Vec<ArrowField>,
}

/// Builds the writer's schema for a relation.
pub fn relation_to_parquet_schema(fields: &Vec<Field>, delta_lake: bool) -> (r: ParquetSchema)
    requires
        forall|i: int| 0 <= i < fields@.len() ==> wf_columntype((#[trigger] fields@[i]).columntype),
    ensures
        r.fields@.len() == fields@.len(),
        forall|i: int|
            0 <= i < fields@.len() ==> field_matches(fields@[i], delta_lake, #[trigger] r.fields@[i]),
{
    ParquetSchema { fields: relation_to_arrow_fields(fields, delta_lake) }
}

} // verus!
