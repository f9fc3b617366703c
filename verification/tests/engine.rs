use etlctl::coerce::{cast_value, clean_value, enforce_frame_to_schema};
use etlctl::dates::{days_from_civil, parse_date, CivilDate};
use etlctl::frame::Frame;
use etlctl::num::{parse_dec_micros, parse_i64, render_i64};
use etlctl::schema::{ArrowLikeSchema, Field, LogicalType};
use etlctl::text::{
    escape_single_quotes, normalize_for_duckdb_path, pad_left_zeros, sanitize_ident, trim_spaces,
};
use etlctl::value::Value;

fn field(name: &str, dtype: &str) -> Field {
    Field {
        name: name.to_string(),
        dtype: dtype.to_string(),
        nullable: true,
    }
}

#[test]
fn parse_i64_accepts_plain_integers() {
    assert_eq!(parse_i64("0"), Some(0));
    assert_eq!(parse_i64("123"), Some(123));
    assert_eq!(parse_i64("-42"), Some(-42));
    assert_eq!(parse_i64("+7"), Some(7));
    assert_eq!(parse_i64("9223372036854775807"), Some(i64::MAX));
    assert_eq!(parse_i64("-9223372036854775808"), Some(i64::MIN));
}

#[test]
fn parse_i64_rejects_junk() {
    assert_eq!(parse_i64(""), None);
    assert_eq!(parse_i64("x"), None);
    assert_eq!(parse_i64("12x"), None);
    assert_eq!(parse_i64(" 12"), None);
    assert_eq!(parse_i64("9223372036854775808"), None);
    assert_eq!(parse_i64("1.5"), None);
}

#[test]
fn parse_dec_micros_parses_decimals() {
    assert_eq!(parse_dec_micros("1.5"), Some(1_500_000));
    assert_eq!(parse_dec_micros("-0.25"), Some(-250_000));
    assert_eq!(parse_dec_micros("10"), Some(10_000_000));
    assert_eq!(parse_dec_micros("2."), Some(2_000_000));
    assert_eq!(parse_dec_micros(".5"), Some(500_000));
    assert_eq!(parse_dec_micros("abc"), None);
    assert_eq!(parse_dec_micros("."), None);
    assert_eq!(parse_dec_micros(""), None);
}

#[test]
fn render_i64_round_trips() {
    let digits = render_i64(-120);
    let s: String = digits.into_iter().collect();
    assert_eq!(s, "-120");
    let digits = render_i64(0);
    let s: String = digits.into_iter().collect();
    assert_eq!(s, "0");
}

#[test]
fn parse_date_accepts_iso_only() {
    assert_eq!(
        parse_date("2021-02-28"),
        Some(CivilDate {
            year: 2021,
            month: 2,
            day: 28
        })
    );
    assert_eq!(parse_date("2021-02-29"), None);
    assert_eq!(
        parse_date("2020-02-29"),
        Some(CivilDate {
            year: 2020,
            month: 2,
            day: 29
        })
    );
    assert_eq!(parse_date("2021-13-01"), None);
    assert_eq!(parse_date("21-01-01"), None);
    assert_eq!(parse_date("2021/01/01"), None);
}

#[test]
fn days_from_civil_matches_epoch() {
    assert_eq!(
        days_from_civil(&CivilDate {
            year: 1970,
            month: 1,
            day: 1
        }),
        0
    );
    assert_eq!(
        days_from_civil(&CivilDate {
            year: 1970,
            month: 1,
            day: 2
        }),
        1
    );
    assert_eq!(
        days_from_civil(&CivilDate {
            year: 2000,
            month: 3,
            day: 1
        }),
        11017
    );
}

#[test]
fn cleaning_turns_empty_text_null() {
    let v = clean_value(Value::Str(String::new()));
    assert!(matches!(v, Value::Null));
    let v = clean_value(Value::Str("a".to_string()));
    assert!(matches!(v, Value::Str(_)));
    let v = clean_value(Value::Int(3));
    assert!(matches!(v, Value::Int(3)));
}

#[test]
fn casts_are_non_strict() {
    let v = cast_value(&Value::Str("12".to_string()), &LogicalType::I64);
    assert!(matches!(v, Value::Int(12)));
    let v = cast_value(&Value::Str("x".to_string()), &LogicalType::I64);
    assert!(matches!(v, Value::Null));
    let v = cast_value(&Value::Str("1.5".to_string()), &LogicalType::F64);
    assert!(matches!(v, Value::Dec(1_500_000)));
    let v = cast_value(&Value::Int(7), &LogicalType::Str);
    match v {
        Value::Str(s) => assert_eq!(s, "7"),
        _ => panic!("expected text"),
    }
    let v = cast_value(&Value::Str("2021-01-02".to_string()), &LogicalType::Date);
    assert!(matches!(
        v,
        Value::Date(CivilDate {
            year: 2021,
            month: 1,
            day: 2
        })
    ));
}

#[test]
fn enforce_frame_projects_schema_order_and_nulls() {
    let frame = Frame {
        names: vec!["b".to_string(), "a".to_string()],
        rows: vec![vec![
            Value::Str("".to_string()),
            Value::Str("5".to_string()),
        ]],
    };
    let schema = ArrowLikeSchema {
        fields: vec![field("a", "i64"), field("b", "i64"), field("c", "str")],
    };
    let out = enforce_frame_to_schema(&frame, &schema).unwrap();
    assert_eq!(out.names, vec!["a", "b", "c"]);
    assert_eq!(out.rows.len(), 1);
    assert!(matches!(out.rows[0][0], Value::Int(5)));
    // empty text is null before the cast, not a parse failure
    assert!(matches!(out.rows[0][1], Value::Null));
    // a column the source lacks lands as null
    assert!(matches!(out.rows[0][2], Value::Null));
}

#[test]
fn enforce_frame_rejects_unknown_type() {
    let frame = Frame {
        names: vec!["a".to_string()],
        rows: vec![],
    };
    let schema = ArrowLikeSchema {
        fields: vec![field("a", "decimal")],
    };
    assert!(enforce_frame_to_schema(&frame, &schema).is_err());
}

#[test]
fn text_helpers_behave() {
    assert_eq!(trim_spaces("  a b \t"), "a b");
    assert_eq!(pad_left_zeros("7", 5), "00007");
    assert_eq!(pad_left_zeros("123456", 5), "123456");
    assert_eq!(sanitize_ident("a-b c"), "a_b_c");
    assert_eq!(sanitize_ident(""), "_");
    assert_eq!(escape_single_quotes("a'b"), "a''b");
    assert_eq!(normalize_for_duckdb_path("a\\b"), "a/b");
}

#[test]
fn logical_type_names_round_trip() {
    assert_eq!(
        etlctl::schema::logical_type_from_str("i64"),
        Some(LogicalType::I64)
    );
    assert_eq!(
        etlctl::schema::logical_type_from_str("utf8"),
        Some(LogicalType::Str)
    );
    assert_eq!(
        etlctl::schema::logical_type_from_str("date32"),
        Some(LogicalType::Date)
    );
    assert_eq!(etlctl::schema::logical_type_from_str("decimal"), None);
    assert_eq!(etlctl::schema::logical_dtype(&LogicalType::F64), "f64");
}

#[test]
fn schema_inference_reads_first_non_null_kind() {
    let frame = Frame {
        names: vec!["a".to_string(), "b".to_string()],
        rows: vec![
            vec![Value::Null, Value::Str("x".to_string())],
            vec![Value::Int(3), Value::Str("y".to_string())],
        ],
    };
    let schema = etlctl::request::infer_arrow_like_schema(&frame);
    assert_eq!(schema.fields.len(), 2);
    assert_eq!(schema.fields[0].name, "a");
    assert_eq!(schema.fields[0].dtype, "i64");
    assert_eq!(schema.fields[1].dtype, "str");
    assert!(schema.fields[0].nullable);
}

#[test]
fn catalog_helpers_build_exact_text() {
    assert_eq!(
        etlctl::catalog::register_view_sql("gold", "tx", "/w/d/*.parquet"),
        "CREATE SCHEMA IF NOT EXISTS \"gold\"; CREATE OR REPLACE VIEW \"gold\".\"tx\" AS SELECT * FROM read_parquet('/w/d/*.parquet');"
    );
    assert_eq!(
        etlctl::catalog::duckdb_db_path("/base", "my ns"),
        "/base/my_ns.duckdb"
    );
    let d = etlctl::catalog::load_descriptor("dvf").unwrap();
    assert_eq!(d.slug, "dvf");
    assert_eq!(d.schema_version, 1);
    assert_eq!(d.format, "csv");
}

#[test]
fn curate_partition_keys_default_unknown() {
    let keys = etlctl::curate::partition_keys(
        &vec![2020, 2021, 2021],
        &vec![Some("75".to_string()), Some("  ".to_string()), None],
    );
    assert_eq!(keys[0], (2020, "75".to_string()));
    assert_eq!(keys[1], (2021, "UNK".to_string()));
    assert_eq!(keys[2], (2021, "UNK".to_string()));
    assert_eq!(
        etlctl::curate::latest_json("2024-01-02"),
        "{\"snapshot_date\":\"2024-01-02\"}"
    );
}

#[test]
fn ingest_cells_trim_and_null_blanks() {
    let cells = etlctl::ingest::bronze_cells(&vec![" a ".to_string(), "  ".to_string()], 3);
    assert_eq!(cells.len(), 3);
    assert_eq!(cells[0], Some("a".to_string()));
    assert_eq!(cells[1], None);
    assert_eq!(cells[2], None);
}
