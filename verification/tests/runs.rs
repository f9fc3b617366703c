use etlctl::dates::parse_date_with_format;
use etlctl::expr::{ExprIR, Literal};
use etlctl::frame::Frame;
use etlctl::keys::pk_hash;
use etlctl::mapping::{DqRule, MappingCfg, MappingIR, TargetColumn};
use etlctl::pipeline::run_core;
use etlctl::schema::{ArrowLikeSchema, Field};
use etlctl::value::Value;

fn field(name: &str, dtype: &str) -> Field {
    Field {
        name: name.to_string(),
        dtype: dtype.to_string(),
        nullable: true,
    }
}

fn col(name: &str) -> ExprIR {
    ExprIR::Col {
        col: name.to_string(),
    }
}

fn call(fn_: &str, args: Vec<ExprIR>) -> ExprIR {
    ExprIR::Call {
        fn_: fn_.to_string(),
        args,
        to: None,
        fmt: None,
        len: None,
        pred: None,
        then_br: None,
        else_br: None,
    }
}

fn mapping(columns: Vec<(&str, ExprIR)>, filters: Vec<ExprIR>, rules: Vec<DqRule>) -> MappingCfg {
    MappingCfg {
        transforms: MappingIR {
            columns: columns
                .into_iter()
                .map(|(t, e)| TargetColumn {
                    target: t.to_string(),
                    expr: e,
                })
                .collect(),
            filters,
        },
        dq_rules: rules,
    }
}

fn cell(s: Option<&str>) -> Value {
    match s {
        Some(t) => Value::Str(t.to_string()),
        None => Value::Null,
    }
}

#[test]
fn happy_path_two_rows() {
    let frame = Frame {
        names: vec!["id".to_string(), "name".to_string()],
        rows: vec![
            vec![cell(Some("1")), cell(Some("a"))],
            vec![cell(Some("2")), cell(Some(""))],
        ],
    };
    let schema = ArrowLikeSchema {
        fields: vec![field("id", "i64"), field("name", "str")],
    };
    let m = mapping(vec![("id", col("id")), ("name", col("name"))], vec![], vec![]);
    let out = run_core(&frame, &m, &schema, &vec!["id".to_string()], &vec![]).unwrap();
    assert_eq!(out.report.ori_rows, 2);
    assert_eq!(out.report.dest_rows, 2);
    assert_eq!(out.report.rejected_rows, 0);
    assert!(out.report.dq_summary.is_empty());
    let f = out.to_write.expect("a snapshot should be written");
    assert_eq!(f.names, vec!["id", "name"]);
    assert!(matches!(f.rows[0][0], Value::Int(1)));
    // the empty name lands as null
    assert!(matches!(f.rows[1][1], Value::Null));
    assert_eq!(out.written_keys, vec!["1".to_string(), "2".to_string()]);
}

#[test]
fn parse_fail_rejects_row_and_counts() {
    let frame = Frame {
        names: vec!["id".to_string(), "name".to_string()],
        rows: vec![vec![cell(Some("x")), cell(Some("a"))]],
    };
    let schema = ArrowLikeSchema {
        fields: vec![field("id", "i64"), field("name", "str")],
    };
    let m = mapping(vec![("id", col("id")), ("name", col("name"))], vec![], vec![]);
    let out = run_core(&frame, &m, &schema, &vec!["id".to_string()], &vec![]).unwrap();
    assert_eq!(out.report.ori_rows, 1);
    assert_eq!(out.report.dest_rows, 0);
    assert_eq!(out.report.rejected_rows, 1);
    assert!(out.to_write.is_none());
    let pf = out
        .report
        .dq_summary
        .iter()
        .find(|i| i.rule_code == "PARSE_FAIL_id")
        .expect("a parse-fail counter");
    assert_eq!(pf.violations, 1);
    assert_eq!(pf.checked_rows, 1);
    assert_eq!(out.report.error_samples.len(), 1);
    assert_eq!(out.report.error_samples[0].reason_code, "INVALID");
}

#[test]
fn filters_drop_false_and_null_rows() {
    let frame = Frame {
        names: vec!["age".to_string()],
        rows: vec![
            vec![cell(Some("17"))],
            vec![cell(Some("18"))],
            vec![cell(None)],
        ],
    };
    let schema = ArrowLikeSchema {
        fields: vec![field("age", "i64")],
    };
    let filter = call(
        ">=",
        vec![
            col("age"),
            ExprIR::Lit {
                lit: Literal::Int(18),
            },
        ],
    );
    let m = mapping(vec![("age", col("age"))], vec![filter], vec![]);
    let out = run_core(&frame, &m, &schema, &vec![], &vec![]).unwrap();
    assert_eq!(out.report.ori_rows, 3);
    assert_eq!(out.report.dest_rows, 1);
    let f = out.to_write.unwrap();
    assert!(matches!(f.rows[0][0], Value::Int(18)));
}

#[test]
fn anti_join_keeps_only_new_keys() {
    let schema = ArrowLikeSchema {
        fields: vec![field("id", "i64")],
    };
    let m = mapping(vec![("id", col("id"))], vec![], vec![]);
    let first = Frame {
        names: vec!["id".to_string()],
        rows: vec![vec![cell(Some("1"))]],
    };
    let run1 = run_core(&first, &m, &schema, &vec!["id".to_string()], &vec![]).unwrap();
    assert_eq!(run1.report.dest_rows, 1);
    let second = Frame {
        names: vec!["id".to_string()],
        rows: vec![vec![cell(Some("1"))], vec![cell(Some("2"))]],
    };
    let run2 = run_core(
        &second,
        &m,
        &schema,
        &vec!["id".to_string()],
        &run1.written_keys,
    )
    .unwrap();
    assert_eq!(run2.report.ori_rows, 2);
    assert_eq!(run2.report.dest_rows, 1);
    let f = run2.to_write.unwrap();
    assert_eq!(f.rows.len(), 1);
    assert!(matches!(f.rows[0][0], Value::Int(2)));
    assert_eq!(run2.written_keys, vec!["2".to_string()]);
}

#[test]
fn rerun_with_committed_keys_writes_nothing() {
    let schema = ArrowLikeSchema {
        fields: vec![field("id", "i64")],
    };
    let m = mapping(vec![("id", col("id"))], vec![], vec![]);
    let frame = Frame {
        names: vec!["id".to_string()],
        rows: vec![vec![cell(Some("1"))], vec![cell(Some("2"))]],
    };
    let run1 = run_core(&frame, &m, &schema, &vec!["id".to_string()], &vec![]).unwrap();
    assert_eq!(run1.report.dest_rows, 2);
    let run2 = run_core(
        &frame,
        &m,
        &schema,
        &vec!["id".to_string()],
        &run1.written_keys,
    )
    .unwrap();
    assert_eq!(run2.report.dest_rows, 0);
    assert!(run2.to_write.is_none());
    assert!(run2.written_keys.is_empty());
}

#[test]
fn in_batch_duplicates_collapse_keep_first() {
    let schema = ArrowLikeSchema {
        fields: vec![field("id", "i64"), field("name", "str")],
    };
    let m = mapping(vec![("id", col("id")), ("name", col("name"))], vec![], vec![]);
    let frame = Frame {
        names: vec!["id".to_string(), "name".to_string()],
        rows: vec![
            vec![cell(Some("1")), cell(Some("first"))],
            vec![cell(Some("1")), cell(Some("second"))],
        ],
    };
    let out = run_core(&frame, &m, &schema, &vec!["id".to_string()], &vec![]).unwrap();
    assert_eq!(out.report.dest_rows, 1);
    let f = out.to_write.unwrap();
    match &f.rows[0][1] {
        Value::Str(s) => assert_eq!(s, "first"),
        _ => panic!("expected text"),
    }
}

#[test]
fn rows_with_null_key_columns_are_excluded() {
    let schema = ArrowLikeSchema {
        fields: vec![field("id", "i64")],
    };
    let m = mapping(vec![("id", col("id"))], vec![], vec![]);
    let frame = Frame {
        names: vec!["id".to_string()],
        rows: vec![vec![cell(None)], vec![cell(Some("3"))]],
    };
    let out = run_core(&frame, &m, &schema, &vec!["id".to_string()], &vec![]).unwrap();
    assert_eq!(out.report.dest_rows, 1);
    let f = out.to_write.unwrap();
    assert!(matches!(f.rows[0][0], Value::Int(3)));
}

#[test]
fn dq_rule_counts_exact_violations() {
    let frame = Frame {
        names: vec!["price".to_string()],
        rows: vec![
            vec![cell(Some("-1"))],
            vec![cell(Some("0"))],
            vec![cell(Some("10"))],
            vec![cell(None)],
        ],
    };
    let schema = ArrowLikeSchema {
        fields: vec![field("price", "i64")],
    };
    let rule = DqRule {
        column: "price".to_string(),
        op: ">".to_string(),
        value: Some(Literal::Int(0)),
    };
    let m = mapping(vec![("price", col("price"))], vec![], vec![rule]);
    let out = run_core(&frame, &m, &schema, &vec![], &vec![]).unwrap();
    let item = out
        .report
        .dq_summary
        .iter()
        .find(|i| i.rule_code == "DQ_price_>")
        .expect("the rule's counter");
    assert_eq!(item.violations, 2);
    assert_eq!(item.checked_rows, 4);
}

#[test]
fn sample_cap_holds() {
    let mut rows = Vec::new();
    for _ in 0..1200 {
        rows.push(vec![cell(Some("x"))]);
    }
    let frame = Frame {
        names: vec!["id".to_string()],
        rows,
    };
    let schema = ArrowLikeSchema {
        fields: vec![field("id", "i64")],
    };
    let m = mapping(vec![("id", col("id"))], vec![], vec![]);
    let out = run_core(&frame, &m, &schema, &vec![], &vec![]).unwrap();
    assert_eq!(out.report.error_samples.len(), 1000);
    assert_eq!(out.report.dest_rows, 0);
}

#[test]
fn mapping_must_match_schema_exactly() {
    let frame = Frame {
        names: vec!["id".to_string()],
        rows: vec![],
    };
    let schema = ArrowLikeSchema {
        fields: vec![field("id", "i64"), field("name", "str")],
    };
    let missing = mapping(vec![("id", col("id"))], vec![], vec![]);
    assert!(run_core(&frame, &missing, &schema, &vec![], &vec![]).is_err());
    let extra = mapping(
        vec![("id", col("id")), ("name", col("id")), ("zz", col("id"))],
        vec![],
        vec![],
    );
    assert!(run_core(&frame, &extra, &schema, &vec![], &vec![]).is_err());
}

#[test]
fn composite_keys_use_length_prefixes() {
    let a = pk_hash(&vec![Some("1".to_string()), Some("2".to_string())]);
    let b = pk_hash(&vec![Some("12".to_string()), Some("".to_string())]);
    assert_eq!(a, "1:1|1:2|");
    assert_eq!(b, "2:12|0:|");
    assert_ne!(a, b);
}

#[test]
fn keys_keep_null_and_empty_apart() {
    let a = pk_hash(&vec![Some("1".to_string()), None]);
    let b = pk_hash(&vec![None, Some("1".to_string())]);
    let c = pk_hash(&vec![Some("1|".to_string()), Some("".to_string())]);
    assert_ne!(a, b);
    assert_ne!(a, c);
    assert_ne!(b, c);
    assert_eq!(a, "1:1|6:<NULL>|");
}

#[test]
fn expression_errors_are_reported() {
    let frame = Frame {
        names: vec!["id".to_string()],
        rows: vec![],
    };
    let schema = ArrowLikeSchema {
        fields: vec![field("id", "i64")],
    };
    let unknown_fn = mapping(vec![("id", call("median", vec![col("id")]))], vec![], vec![]);
    assert!(run_core(&frame, &unknown_fn, &schema, &vec![], &vec![]).is_err());
    let missing_arg = mapping(vec![("id", call("+", vec![col("id")]))], vec![], vec![]);
    assert!(run_core(&frame, &missing_arg, &schema, &vec![], &vec![]).is_err());
    let bad_col = mapping(vec![("id", col("nope"))], vec![], vec![]);
    assert!(run_core(&frame, &bad_col, &schema, &vec![], &vec![]).is_err());
    let mut bad_cast = call("cast", vec![col("id")]);
    if let ExprIR::Call { ref mut to, .. } = bad_cast {
        *to = Some("decimal".to_string());
    }
    let bad_cast_m = mapping(vec![("id", bad_cast)], vec![], vec![]);
    assert!(run_core(&frame, &bad_cast_m, &schema, &vec![], &vec![]).is_err());
}

#[test]
fn zfill_and_to_date_work_in_transforms() {
    let frame = Frame {
        names: vec!["cp".to_string(), "d".to_string()],
        rows: vec![vec![cell(Some("750")), cell(Some("2021-01-02"))]],
    };
    let schema = ArrowLikeSchema {
        fields: vec![field("cp", "str"), field("d", "date")],
    };
    let mut zf = call("zfill", vec![col("cp")]);
    if let ExprIR::Call { ref mut len, .. } = zf {
        *len = Some(5);
    }
    let m = mapping(
        vec![("cp", zf), ("d", call("to_date", vec![col("d")]))],
        vec![],
        vec![],
    );
    let out = run_core(&frame, &m, &schema, &vec![], &vec![]).unwrap();
    let f = out.to_write.unwrap();
    match &f.rows[0][0] {
        Value::Str(s) => assert_eq!(s, "00750"),
        _ => panic!("expected text"),
    }
    match &f.rows[0][1] {
        Value::Date(d) => {
            assert_eq!((d.year, d.month, d.day), (2021, 1, 2));
        }
        _ => panic!("expected a date"),
    }
}

#[test]
fn when_chooses_branches_and_defaults_null() {
    let frame = Frame {
        names: vec!["n".to_string()],
        rows: vec![vec![cell(Some("5"))], vec![cell(Some("-5"))]],
    };
    let schema = ArrowLikeSchema {
        fields: vec![field("n", "i64")],
    };
    let cast_n = ExprIR::Call {
        fn_: "cast".to_string(),
        args: vec![col("n")],
        to: Some("i64".to_string()),
        fmt: None,
        len: None,
        pred: None,
        then_br: None,
        else_br: None,
    };
    let pred = call(
        ">",
        vec![
            cast_n,
            ExprIR::Lit {
                lit: Literal::Int(0),
            },
        ],
    );
    let when_node = ExprIR::Call {
        fn_: "when".to_string(),
        args: vec![],
        to: None,
        fmt: None,
        len: None,
        pred: Some(Box::new(pred)),
        then_br: Some(Box::new(col("n"))),
        else_br: None,
    };
    let m = mapping(vec![("n", when_node)], vec![], vec![]);
    let out = run_core(&frame, &m, &schema, &vec![], &vec![]).unwrap();
    let f = out.to_write.unwrap();
    assert!(matches!(f.rows[0][0], Value::Int(5)));
    assert!(matches!(f.rows[1][0], Value::Null));
}

#[test]
fn to_date_follows_its_format() {
    let frame = Frame {
        names: vec!["d".to_string()],
        rows: vec![
            vec![cell(Some("15/06/2021"))],
            vec![cell(Some("2021-06-15"))],
        ],
    };
    let schema = ArrowLikeSchema {
        fields: vec![field("d", "date")],
    };
    let to_date = ExprIR::Call {
        fn_: "to_date".to_string(),
        args: vec![col("d")],
        to: None,
        fmt: Some("%d/%m/%Y".to_string()),
        len: None,
        pred: None,
        then_br: None,
        else_br: None,
    };
    let m = mapping(vec![("d", to_date)], vec![], vec![]);
    let out = run_core(&frame, &m, &schema, &vec![], &vec![]).unwrap();
    let f = out.to_write.unwrap();
    match &f.rows[0][0] {
        Value::Date(d) => assert_eq!((d.year, d.month, d.day), (2021, 6, 15)),
        _ => panic!("expected a date"),
    }
    // the ISO text does not match the day-first format
    assert!(matches!(f.rows[1][0], Value::Null));
}

#[test]
fn to_date_rejects_unknown_directives() {
    let frame = Frame {
        names: vec!["d".to_string()],
        rows: vec![],
    };
    let schema = ArrowLikeSchema {
        fields: vec![field("d", "date")],
    };
    let bad = ExprIR::Call {
        fn_: "to_date".to_string(),
        args: vec![col("d")],
        to: None,
        fmt: Some("%Q".to_string()),
        len: None,
        pred: None,
        then_br: None,
        else_br: None,
    };
    let m = mapping(vec![("d", bad)], vec![], vec![]);
    assert!(run_core(&frame, &m, &schema, &vec![], &vec![]).is_err());
}

#[test]
fn format_parser_handles_single_digits_and_times() {
    let d = parse_date_with_format("2021-6-5", "%Y-%m-%d").unwrap();
    assert_eq!((d.year, d.month, d.day), (2021, 6, 5));
    let d = parse_date_with_format("05.06.21", "%d.%m.%y").unwrap();
    assert_eq!((d.year, d.month, d.day), (2021, 6, 5));
    let d = parse_date_with_format("2021-06-05 10:30:00", "%Y-%m-%d %H:%M:%S").unwrap();
    assert_eq!((d.year, d.month, d.day), (2021, 6, 5));
    assert!(parse_date_with_format("2021-06-05x", "%Y-%m-%d").is_none());
    assert!(parse_date_with_format("2021-13-05", "%Y-%m-%d").is_none());
}
