use zset_engine::schema::{relation_to_arrow_fields, relation_to_parquet_schema, ArrowDataType,
    ColumnType, Field, IntervalUnit, SqlType};

fn ct(typ: SqlType) -> ColumnType {
    ColumnType {
        typ,
        nullable: false,
        precision: None,
        scale: None,
        component: None,
        fields: None,
        key: None,
        value: None,
    }
}

fn field(name: &str, columntype: ColumnType) -> Field {
    Field { name: name.to_string(), columntype }
}

#[test]
fn scalar_types_map_to_arrow() {
    let fields = vec![
        field("b", ct(SqlType::Boolean)),
        field("i", ct(SqlType::Int)),
        field("s", ct(SqlType::Varchar)),
        field("d", ct(SqlType::Date)),
    ];
    let afs = relation_to_arrow_fields(&fields, false);
    assert_eq!(afs.len(), 4);
    assert_eq!(afs[0].name, "b");
    assert!(matches!(afs[0].data_type, ArrowDataType::Boolean));
    assert!(!afs[0].nullable);
    assert!(matches!(afs[1].data_type, ArrowDataType::Int32));
    assert!(matches!(afs[2].data_type, ArrowDataType::Utf8));
    assert!(matches!(afs[3].data_type, ArrowDataType::Date32));
}

#[test]
fn delta_lake_forces_nullability_and_utc() {
    let fields = vec![field("t", ct(SqlType::Timestamp))];
    let afs = relation_to_arrow_fields(&fields, true);
    assert!(afs[0].nullable);
    assert!(matches!(afs[0].data_type, ArrowDataType::TimestampMicrosecondUtc));
    let afs = relation_to_arrow_fields(&fields, false);
    assert!(!afs[0].nullable);
    assert!(matches!(afs[0].data_type, ArrowDataType::TimestampMicrosecond));
}

#[test]
fn decimal_carries_precision_and_scale() {
    let mut c = ct(SqlType::Decimal);
    c.precision = Some(10);
    c.scale = Some(2);
    let afs = relation_to_arrow_fields(&vec![field("d", c)], false);
    assert!(matches!(afs[0].data_type, ArrowDataType::Decimal128(10, 2)));
}

#[test]
fn intervals_split_by_unit() {
    let fields = vec![
        field("y", ct(SqlType::Interval(IntervalUnit::Year))),
        field("d", ct(SqlType::Interval(IntervalUnit::DayToSecond))),
    ];
    let afs = relation_to_arrow_fields(&fields, false);
    assert!(matches!(afs[0].data_type, ArrowDataType::IntervalYearMonth));
    assert!(matches!(afs[1].data_type, ArrowDataType::IntervalDayTime));
}

#[test]
fn arrays_and_structs_nest() {
    let mut arr = ct(SqlType::Array);
    let mut elem = ct(SqlType::BigInt);
    elem.nullable = true;
    arr.component = Some(Box::new(elem));
    let mut st = ct(SqlType::Struct);
    st.fields = Some(vec![field("inner", ct(SqlType::SmallInt))]);
    let schema = relation_to_parquet_schema(&vec![field("a", arr), field("s", st)], false);
    match &schema.fields[0].data_type {
        ArrowDataType::LargeList(elem_type, elem_nullable) => {
            assert!(matches!(**elem_type, ArrowDataType::Int64));
            assert!(*elem_nullable);
        },
        _ => panic!("expected a large list"),
    }
    match &schema.fields[1].data_type {
        ArrowDataType::Struct(afs) => {
            assert_eq!(afs.len(), 1);
            assert_eq!(afs[0].name, "inner");
            assert!(matches!(afs[0].data_type, ArrowDataType::Int16));
        },
        _ => panic!("expected a struct"),
    }
}

#[test]
fn maps_carry_key_and_value_types() {
    let mut m = ct(SqlType::MapType);
    m.key = Some(Box::new(ct(SqlType::Varchar)));
    let mut v = ct(SqlType::Int);
    v.nullable = true;
    m.value = Some(Box::new(v));
    let afs = relation_to_arrow_fields(&vec![field("m", m)], false);
    match &afs[0].data_type {
        ArrowDataType::MapType(k, kn, v, vn) => {
            assert!(matches!(**k, ArrowDataType::Utf8));
            assert!(!*kn);
            assert!(matches!(**v, ArrowDataType::Int32));
            assert!(*vn);
        },
        _ => panic!("expected a map"),
    }
}
