use etlctl::dvf::{
    parse_decimal_2, validate_row, DvfDedup, DvfRawRow, DvfRowOutcome,
};
use etlctl::snapshot::{format_snapshot_id, local_path_from_file_uri, utc_now_stamp, UtcStamp};

fn raw(id: Option<&str>, date: Option<&str>, disp: Option<&str>) -> DvfRawRow {
    DvfRawRow {
        id_mutation: id.map(|s| s.to_string()),
        date_mutation: date.map(|s| s.to_string()),
        numero_disposition: disp.map(|s| s.to_string()),
        nature_mutation: Some("Vente".to_string()),
        valeur_fonciere: Some("123456,78".to_string()),
        id_parcelle: Some("P1".to_string()),
        ancien_id_parcelle: None,
        adresse_numero: Some("12".to_string()),
        adresse_suffixe: None,
        adresse_nom_voie: Some(" rue de la paix ".to_string()),
        adresse_code_voie: None,
        code_postal: Some("750".to_string()),
        code_commune: None,
        nom_commune: Some(" paris ".to_string()),
        code_departement: None,
        ancien_code_commune: None,
        ancien_nom_commune: None,
        numero_volume: None,
        lot1_numero: None,
        lot2_numero: None,
        lot3_numero: None,
        lot4_numero: None,
        lot5_numero: None,
        code_type_local: None,
        type_local: Some("maison".to_string()),
        code_nature_culture: None,
        nature_culture: None,
        code_nature_culture_speciale: None,
        nature_culture_speciale: None,
        surface_reelle_bati: Some("120".to_string()),
        surface_terrain: Some("abc".to_string()),
        nombre_lots: Some("2".to_string()),
        nombre_pieces_principales: Some("4".to_string()),
        longitude: Some("2,35".to_string()),
        latitude: Some("48.85".to_string()),
    }
}


fn validate_row_y(r: &DvfRawRow) -> DvfRowOutcome {
    validate_row(r, 2026)
}

#[test]
fn valid_row_is_normalized_and_keyed() {
    let r = raw(Some("id-1"), Some("2021-06-15"), Some("1"));
    match validate_row(&r, 2026) {
        DvfRowOutcome::Valid(row) => {
            assert_eq!(row.id_mutation, "id-1");
            assert_eq!(
                (row.date_mutation.year, row.date_mutation.month, row.date_mutation.day),
                (2021, 6, 15)
            );
            assert_eq!(row.nature_mutation, "VENTE");
            assert_eq!(row.nom_commune.as_deref(), Some("PARIS"));
            assert_eq!(row.type_local.as_deref(), Some("MAISON"));
            assert_eq!(row.code_postal.as_deref(), Some("00750"));
            assert_eq!(row.valeur_cents, Some(12_345_678));
            assert_eq!(row.surface_reelle_bati, Some(120));
            assert_eq!(row.surface_terrain, None);
            assert_eq!(row.nombre_lots, Some(2));
            assert_eq!(row.lon_micro, Some(2_350_000));
            assert_eq!(row.lat_micro, Some(48_850_000));
            assert_eq!(row.year_mutation, 2021);
            assert_eq!(row.id_parcelle.as_deref(), Some("P1"));
            assert_eq!(row.adresse_nom_voie.as_deref(), Some("rue de la paix"));
            assert_eq!(row.code_departement, None);
            assert_eq!(row.mutation_key.len(), 32);
            // the key depends on its input
            let r2 = raw(Some("id-2"), Some("2021-06-15"), Some("1"));
            match validate_row(&r2, 2026) {
                DvfRowOutcome::Valid(row2) => assert_ne!(row.mutation_key, row2.mutation_key),
                _ => panic!("second row should be valid"),
            }
        }
        DvfRowOutcome::Reject { code, .. } => panic!("unexpected reject {code}"),
    }
}

#[test]
fn missing_required_columns_reject() {
    match validate_row_y(&raw(None, Some("2021-06-15"), Some("1"))) {
        DvfRowOutcome::Reject { code, .. } => assert_eq!(code, "DVF_SCHEMA_MISSING"),
        _ => panic!("expected a reject"),
    }
    match validate_row_y(&raw(Some("a"), None, Some("1"))) {
        DvfRowOutcome::Reject { code, .. } => assert_eq!(code, "DVF_SCHEMA_MISSING"),
        _ => panic!("expected a reject"),
    }
}

#[test]
fn bad_dates_reject() {
    match validate_row_y(&raw(Some("a"), Some("06/15/2021"), Some("1"))) {
        DvfRowOutcome::Reject { code, detail } => {
            assert_eq!(code, "DVF_DATE_INVALID");
            assert_eq!(detail, "date parse failed");
        }
        _ => panic!("expected a reject"),
    }
    match validate_row_y(&raw(Some("a"), Some("1989-12-31"), Some("1"))) {
        DvfRowOutcome::Reject { code, detail } => {
            assert_eq!(code, "DVF_DATE_INVALID");
            assert_eq!(detail, "year out of expected bounds");
        }
        _ => panic!("expected a reject"),
    }
}

#[test]
fn negative_or_bad_money_rejects() {
    let mut r = raw(Some("a"), Some("2021-06-15"), Some("1"));
    r.valeur_fonciere = Some("-5".to_string());
    match validate_row(&r, 2026) {
        DvfRowOutcome::Reject { code, .. } => assert_eq!(code, "DVF_VALUE_NEGATIVE"),
        _ => panic!("expected a reject"),
    }
    r.valeur_fonciere = Some("abc".to_string());
    match validate_row(&r, 2026) {
        DvfRowOutcome::Reject { code, .. } => assert_eq!(code, "DVF_VALUE_NEGATIVE"),
        _ => panic!("expected a reject"),
    }
    r.valeur_fonciere = None;
    match validate_row(&r, 2026) {
        DvfRowOutcome::Valid(row) => assert_eq!(row.valeur_cents, None),
        _ => panic!("absent money is fine"),
    }
}

#[test]
fn coordinates_must_pair_and_fit_the_box() {
    let mut r = raw(Some("a"), Some("2021-06-15"), Some("1"));
    r.latitude = None;
    match validate_row(&r, 2026) {
        DvfRowOutcome::Reject { code, detail } => {
            assert_eq!(code, "DVF_COORD_OOB");
            assert_eq!(detail, "lon/lat must be both present or both null");
        }
        _ => panic!("expected a reject"),
    }
    let mut r = raw(Some("a"), Some("2021-06-15"), Some("1"));
    r.longitude = Some("20.0".to_string());
    match validate_row(&r, 2026) {
        DvfRowOutcome::Reject { code, detail } => {
            assert_eq!(code, "DVF_COORD_OOB");
            assert_eq!(detail, "lon/lat out of FR bbox");
        }
        _ => panic!("expected a reject"),
    }
    let mut r = raw(Some("a"), Some("2021-06-15"), Some("1"));
    r.longitude = None;
    r.latitude = None;
    match validate_row(&r, 2026) {
        DvfRowOutcome::Valid(row) => {
            assert_eq!(row.lon_micro, None);
            assert_eq!(row.lat_micro, None);
        }
        _ => panic!("both absent is fine"),
    }
}

#[test]
fn money_parser_rounds_cents() {
    assert_eq!(parse_decimal_2("123456,78"), Some(12_345_678));
    assert_eq!(parse_decimal_2(" 10 "), Some(1000));
    assert_eq!(parse_decimal_2("0.005"), Some(1));
    assert_eq!(parse_decimal_2("0.004"), Some(0));
    assert_eq!(parse_decimal_2("x"), None);
}

#[test]
fn dedup_keeps_first_key_only() {
    let mut d = DvfDedup::new();
    assert!(d.insert(vec![1, 2, 3]));
    assert!(!d.insert(vec![1, 2, 3]));
    assert!(d.insert(vec![1, 2, 4]));
}

#[test]
fn snapshot_ids_format_and_order() {
    let a = UtcStamp {
        year: 2024,
        month: 1,
        day: 2,
        hour: 3,
        minute: 4,
        second: 5,
        milli: 6,
    };
    let id = format_snapshot_id(&a).unwrap();
    assert_eq!(id, "20240102T030405006Z");
    let b = UtcStamp { milli: 7, ..a };
    let id2 = format_snapshot_id(&b).unwrap();
    assert!(id < id2);
    let later_day = UtcStamp {
        day: 3,
        hour: 0,
        minute: 0,
        second: 0,
        milli: 0,
        ..a
    };
    let id3 = format_snapshot_id(&later_day).unwrap();
    assert!(id2 < id3);
    let bad = UtcStamp { month: 13, ..a };
    assert!(format_snapshot_id(&bad).is_none());
}

#[test]
fn the_clock_yields_formattable_stamps() {
    let now = utc_now_stamp();
    assert!((1..=12).contains(&now.month));
    assert!((1..=31).contains(&now.day));
    if now.year >= 0 && now.year <= 9999 && now.milli < 1000 {
        let id = format_snapshot_id(&now).unwrap();
        assert_eq!(id.len(), 19);
        assert!(id.ends_with('Z'));
    }
}

#[test]
fn file_uris_resolve_to_local_paths() {
    assert_eq!(
        local_path_from_file_uri("file:///tmp/a b").as_deref(),
        Some("/tmp/a b")
    );
    assert_eq!(
        local_path_from_file_uri("file:///tmp/a%20b").as_deref(),
        Some("/tmp/a b")
    );
    assert_eq!(
        local_path_from_file_uri("/plain/path").as_deref(),
        Some("/plain/path")
    );
}

#[test]
fn table_paths_are_joined() {
    assert_eq!(
        etlctl::snapshot::table_root("/w", "ns", "t"),
        "/w/ns/t"
    );
    assert_eq!(etlctl::snapshot::table_data_dir("/w/ns/t"), "/w/ns/t/data");
    assert_eq!(
        etlctl::snapshot::keys_index_root("/w/ns/t"),
        "/w/ns/t/keys_index"
    );
    assert_eq!(
        etlctl::snapshot::snapshot_file_name("20240102T030405006Z"),
        "part-20240102T030405006Z.parquet"
    );
}

#[test]
fn years_past_next_year_reject() {
    let r = raw(Some("a"), Some("2028-01-01"), Some("1"));
    match validate_row(&r, 2026) {
        DvfRowOutcome::Reject { code, detail } => {
            assert_eq!(code, "DVF_DATE_INVALID");
            assert_eq!(detail, "year out of expected bounds");
        }
        _ => panic!("expected a reject"),
    }
    // next year itself is still within bounds
    let r = raw(Some("a"), Some("2027-01-01"), Some("1"));
    assert!(matches!(validate_row(&r, 2026), DvfRowOutcome::Valid(_)));
}

#[test]
fn pass_through_columns_survive_trimmed() {
    let mut r = raw(Some("a"), Some("2021-06-15"), Some("1"));
    r.code_departement = Some(" 2A ".to_string());
    r.lot1_numero = Some("  ".to_string());
    r.numero_volume = Some("V1".to_string());
    match validate_row(&r, 2026) {
        DvfRowOutcome::Valid(row) => {
            assert_eq!(row.code_departement.as_deref(), Some("2A"));
            assert_eq!(row.lot1_numero, None);
            assert_eq!(row.numero_volume.as_deref(), Some("V1"));
        }
        _ => panic!("expected a valid row"),
    }
}
