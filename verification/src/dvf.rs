//! The stricter typed validation pass for the DVF real-estate dataset:
//! per-row checks, normalization, the content hash key, in-run
//! deduplication, and the derived calendar columns.

use vstd::prelude::*;
use vstd::string::*;
use crate::dates::{CivilDate, date_valid, spec_parse_date};
use crate::num::{spec_parse_dec, spec_parse_i64};
use crate::report::EtlError;
use crate::text::{spec_trim, upper_of};

verus! {

/// Configuration of one validation run.
#[derive(Debug)]
pub struct ValidateConfig {
    pub slug: String,
    pub ingest_date: String,
    pub storage_root: String,
    pub bronze_dir: String,
    pub silver_dir: String,
    pub rejects_dir: String,
}

/// Counters of one validation run.
#[derive(Debug)]
pub struct ValidationStats {
    pub rows_in: u64,
    pub rows_out: u64,
    pub rejects: u64,
    pub silver_out: String,
    pub rejects_out: String,
}

/// The raw cells of one Bronze row that the validator reads, as optional
/// text.
#[derive(Debug)]
pub struct DvfRawRow {
    pub id_mutation: Option<String>,
    pub date_mutation: Option<String>,
    pub numero_disposition: Option<String>,
    pub nature_mutation: Option<String>,
    pub valeur_fonciere: Option<String>,
    pub id_parcelle: Option<String>,
    pub ancien_id_parcelle: Option<String>,
    pub adresse_numero: Option<String>,
    pub adresse_suffixe: Option<String>,
    pub adresse_nom_voie: Option<String>,
    pub adresse_code_voie: Option<String>,
    pub code_postal: Option<String>,
    pub code_commune: Option<String>,
    pub nom_commune: Option<String>,
    pub code_departement: Option<String>,
    pub ancien_code_commune: Option<String>,
    pub ancien_nom_commune: Option<String>,
    pub numero_volume: Option<String>,
    pub lot1_numero: Option<String>,
    pub lot2_numero: Option<String>,
    pub lot3_numero: Option<String>,
    pub lot4_numero: Option<String>,
    pub lot5_numero: Option<String>,
    pub code_type_local: Option<String>,
    pub type_local: Option<String>,
    pub code_nature_culture: Option<String>,
    pub nature_culture: Option<String>,
    pub code_nature_culture_speciale: Option<String>,
    pub nature_culture_speciale: Option<String>,
    pub surface_reelle_bati: Option<String>,
    pub surface_terrain: Option<String>,
    pub nombre_lots: Option<String>,
    pub nombre_pieces_principales: Option<String>,
    pub longitude: Option<String>,
    pub latitude: Option<String>,
}

/// One validated Silver row: typed, normalized, with the derived calendar
/// columns and the content hash key. Coordinates are micro-degrees.
#[derive(Debug)]
pub struct DvfSilverRow {
    pub id_mutation: String,
    pub date_mutation: CivilDate,
    pub date_days: i32,
    pub numero_disposition: String,
    pub nature_mutation: String,
    pub valeur_cents: Option<i128>,
    pub adresse_numero: Option<String>,
    pub adresse_suffixe: Option<String>,
    pub adresse_nom_voie: Option<String>,
    pub adresse_code_voie: Option<String>,
    pub code_postal: Option<String>,
    pub code_commune: Option<String>,
    pub nom_commune: Option<String>,
    pub code_departement: Option<String>,
    pub ancien_code_commune: Option<String>,
    pub ancien_nom_commune: Option<String>,
    pub id_parcelle: Option<String>,
    pub ancien_id_parcelle: Option<String>,
    pub numero_volume: Option<String>,
    pub lot1_numero: Option<String>,
    pub lot2_numero: Option<String>,
    pub lot3_numero: Option<String>,
    pub lot4_numero: Option<String>,
    pub lot5_numero: Option<String>,
    pub code_type_local: Option<String>,
    pub type_local: Option<String>,
    pub code_nature_culture: Option<String>,
    pub nature_culture: Option<String>,
    pub code_nature_culture_speciale: Option<String>,
    pub nature_culture_speciale: Option<String>,
    pub surface_reelle_bati: Option<i32>,
    pub surface_terrain: Option<i32>,
    pub nombre_lots: Option<i16>,
    pub nombre_pieces_principales: Option<i16>,
    pub lon_micro: Option<i64>,
    pub lat_micro: Option<i64>,
    pub year_mutation: i16,
    pub month_start_days: i32,
    pub mutation_key: Vec<u8>,
}


/// Text fields land trimmed, with blank text as null, the same shaping
/// the Bronze landing gives every cell.
pub open spec fn spec_pass(v: Option<Seq<char>>) -> Option<Seq<char>> {
    crate::ingest::spec_bronze_cell(v)
}

/// Carries one optional text field through: trimmed, blank as null.
pub fn pass_text(v: &Option<String>) -> (r: Option<String>)
    ensures
        opt_str_view(r) == spec_pass(opt_str_view(*v)),
{
    match v {
        Some(s) => {
            let t = crate::text::trim_spaces(s.as_str());
            if t.as_str().unicode_len() == 0 {
                None
            } else {
                Some(t)
            }
        },
        None => None,
    }
}

/// The validator's verdict on one row.
#[derive(Debug)]
pub enum DvfRowOutcome {
    Valid(DvfSilverRow),
    Reject { code: String, detail: String },
}

pub open spec fn opt_str_view(v: Option<String>) -> Option<Seq<char>> {
    match v {
        Some(s) => Some(s@),
        None => None,
    }
}

/// The string with commas turned into decimal points, as French numerals
/// want before parsing.
pub open spec fn comma_to_dot(s: Seq<char>) -> Seq<char> {
    s.map(|i: int, c: char| if c == ',' { '.' } else { c })
}

/// What the money parser yields: cents, rounding the parsed micro-units
/// half away from zero.
pub open spec fn spec_parse_cents(s: Seq<char>) -> Option<i128> {
    match spec_parse_dec(comma_to_dot(spec_trim(s))) {
        Some(mic) => Some(round_cents(mic as int) as i128),
        None => None,
    }
}

pub open spec fn round_cents(mic: int) -> int {
    let mag = if mic < 0 {
        -mic
    } else {
        mic
    };
    let c = (mag + 5000) / 10000;
    if mic < 0 {
        -c
    } else {
        c
    }
}

/// What the coordinate parser yields: micro-degrees.
pub open spec fn spec_parse_coord(s: Seq<char>) -> Option<int> {
    match spec_parse_dec(comma_to_dot(spec_trim(s))) {
        Some(mic) => if i64::MIN <= mic <= i64::MAX {
            Some(mic as int)
        } else {
            None
        },
        None => None,
    }
}

/// Maps commas to points.
pub fn comma_to_dot_exec(s: &str) -> (r: String)
    ensures
        r@ == comma_to_dot(s@),
{
    let cs = crate::text::str_chars(s);
    let mut out: Vec<char> = Vec::new();
    let mut i: usize = 0;
    while i < cs.len()
        invariant
            i <= cs@.len(),
            cs@ == s@,
            out@ =~= cs@.subrange(0, i as int).map(
                |j: int, c: char| if c == ',' { '.' } else { c },
            ),
        decreases cs@.len() - i,
    {
        let c = cs[i];
        if c == ',' {
            out.push('.');
        } else {
            out.push(c);
        }
        i = i + 1;
    }
    proof {
        assert(cs@.subrange(0, cs@.len() as int) =~= cs@);
        assert(out@ =~= comma_to_dot(s@));
    }
    crate::text::chars_to_string(&out)
}

/// Parses money text to cents: trims, accepts a comma as the decimal
/// point, rounds half away from zero.
pub fn parse_decimal_2(s: &str) -> (r: Option<i128>)
    ensures
        r == spec_parse_cents(s@),
{
    let t = crate::text::trim_spaces(s);
    let d = comma_to_dot_exec(t.as_str());
    match crate::num::parse_dec_micros(d.as_str()) {
        Some(mic) => {
            let neg = mic < 0;
            let mag: u128 = if neg {
                (-mic) as u128
            } else {
                mic as u128
            };
            let c = (mag + 5000) / 10000;
            proof {
                vstd::arithmetic::div_mod::lemma_div_nonincreasing((mag + 5000) as int, 10000);
                vstd::arithmetic::div_mod::lemma_div_pos_is_pos((mag + 5000) as int, 10000);
            }
            if neg {
                Some(-(c as i128))
            } else {
                Some(c as i128)
            }
        },
        None => None,
    }
}

/// Parses coordinate text to micro-degrees.
pub fn parse_coord(s: &str) -> (r: Option<i64>)
    ensures
        match spec_parse_coord(s@) {
            Some(v) => r is Some && r->0 as int == v,
            None => r is None,
        },
{
    let t = crate::text::trim_spaces(s);
    let d = comma_to_dot_exec(t.as_str());
    match crate::num::parse_dec_micros(d.as_str()) {
        Some(mic) => {
            if -9223372036854775807 - 1 <= mic && mic <= 9223372036854775807 {
                Some(mic as i64)
            } else {
                None
            }
        },
        None => None,
    }
}

/// Left-pads postal text with zeros to five characters.
pub fn left_pad_5(s: &str) -> (r: String)
    ensures
        r@ == crate::text::spec_pad_left_zeros(spec_trim(s@), 5),
{
    let t = crate::text::trim_spaces(s);
    crate::text::pad_left_zeros(t.as_str(), 5)
}

/// Trims and uppercases one text field.
pub fn norm_upper(s: &str) -> (r: String)
    ensures
        r@ == upper_of(spec_trim(s@)),
{
    let t = crate::text::trim_spaces(s);
    crate::text::to_upper(t.as_str())
}

/// What `blake3::hash` returns for the given bytes; a pure function of
/// the input.
pub uninterp spec fn blake3_of(input: Seq<u8>) -> Seq<u8>;

/// Relies on `blake3::hash`: a 32-byte digest, a pure function of the
/// input bytes.
#[verifier::external_body]
pub fn blake3_hash32(input: &Vec<u8>) -> (r: Vec<u8>)
    ensures
        r@ == blake3_of(input@),
        r@.len() == 32,
{
    let h = blake3::hash(input.as_slice());
    h.as_bytes().to_vec()
}

/// The UTF-8 bytes of one optional hash field, empty when absent.
pub open spec fn hash_field_bytes(v: Option<Seq<char>>) -> Seq<u8> {
    match v {
        Some(t) => vstd::utf8::encode_utf8(t),
        None => Seq::empty(),
    }
}

/// The pipe-delimited identity bytes the content hash covers, in fixed
/// order.
pub open spec fn spec_hash_input(
    id_mut: Seq<char>,
    date_s: Seq<char>,
    num_disp: Seq<char>,
    parcelle: Option<Seq<char>>,
    id_parcelle: Option<Seq<char>>,
    adresse_numero: Option<Seq<char>>,
    addr_voie: Option<Seq<char>>,
    cpostal: Option<Seq<char>>,
) -> Seq<u8> {
    vstd::utf8::encode_utf8(id_mut) + seq![124u8] + vstd::utf8::encode_utf8(date_s) + seq![124u8]
        + vstd::utf8::encode_utf8(num_disp) + seq![124u8] + hash_field_bytes(parcelle) + seq![
        124u8,
    ] + hash_field_bytes(id_parcelle) + seq![124u8] + hash_field_bytes(adresse_numero) + seq![
        124u8,
    ] + hash_field_bytes(addr_voie) + seq![124u8] + hash_field_bytes(cpostal)
}

fn push_bytes(out: &mut Vec<u8>, s: &str)
    ensures
        final(out)@ == old(out)@ + s.spec_bytes(),
{
    let bs = s.as_bytes_vec();
    let mut i: usize = 0;
    while i < bs.len()
        invariant
            i <= bs@.len(),
            bs@ == s.spec_bytes(),
            out@ == old(out)@ + bs@.subrange(0, i as int),
        decreases bs@.len() - i,
    {
        proof {
            assert(bs@.subrange(0, i as int).push(bs@[i as int]) =~= bs@.subrange(
                0,
                i as int + 1,
            ));
        }
        out.push(bs[i]);
        i = i + 1;
    }
    proof {
        assert(bs@.subrange(0, bs@.len() as int) =~= bs@);
    }
}

fn push_opt_bytes(out: &mut Vec<u8>, s: &Option<String>)
    ensures
        final(out)@ == old(out)@ + hash_field_bytes(opt_str_view(*s)),
{
    match s {
        Some(t) => {
            let ts = t.as_str();
            push_bytes(out, ts);
            proof {
                assert(ts.spec_bytes() == vstd::utf8::encode_utf8(t@));
            }
        },
        None => {
            proof {
                assert(out@ =~= out@ + Seq::<u8>::empty());
            }
        },
    }
}

/// Assembles the identity bytes of one row.
pub fn build_hash_input(
    id_mut: &str,
    date_s: &str,
    num_disp: &str,
    parcelle: &Option<String>,
    id_parcelle: &Option<String>,
    adresse_numero: &Option<String>,
    addr_voie: &Option<String>,
    cpostal: &Option<String>,
) -> (r: Vec<u8>)
    ensures
        r@ == spec_hash_input(
            id_mut@,
            date_s@,
            num_disp@,
            opt_str_view(*parcelle),
            opt_str_view(*id_parcelle),
            opt_str_view(*adresse_numero),
            opt_str_view(*addr_voie),
            opt_str_view(*cpostal),
        ),
{
    let mut out: Vec<u8> = Vec::new();
    push_bytes(&mut out, id_mut);
    out.push(124);
    push_bytes(&mut out, date_s);
    out.push(124);
    push_bytes(&mut out, num_disp);
    out.push(124);
    push_opt_bytes(&mut out, parcelle);
    out.push(124);
    push_opt_bytes(&mut out, id_parcelle);
    out.push(124);
    push_opt_bytes(&mut out, adresse_numero);
    out.push(124);
    push_opt_bytes(&mut out, addr_voie);
    out.push(124);
    push_opt_bytes(&mut out, cpostal);
    proof {
        assert(out@ =~= spec_hash_input(
            id_mut@,
            date_s@,
            num_disp@,
            opt_str_view(*parcelle),
            opt_str_view(*id_parcelle),
            opt_str_view(*adresse_numero),
            opt_str_view(*addr_voie),
            opt_str_view(*cpostal),
        ));
    }
    out
}

/// Reasons the validator rejects a row, in checking order.
pub open spec fn missing_required(raw: DvfRawRow) -> bool {
    raw.id_mutation is None || raw.date_mutation is None || raw.numero_disposition is None
}

pub open spec fn raw_date(raw: DvfRawRow) -> Option<CivilDate> {
    spec_parse_date(spec_trim(raw.date_mutation->0@))
}

/// The year floor and ceiling: below 1990 or past next year is out of
/// bounds, taken against the clock year the caller supplies.
pub open spec fn date_invalid(raw: DvfRawRow, current_year: int) -> bool {
    !missing_required(raw) && (raw_date(raw) is None || raw_date(raw)->0.year < 1990 || raw_date(
        raw,
    )->0.year > current_year + 1)
}

pub open spec fn value_invalid(raw: DvfRawRow, current_year: int) -> bool {
    &&& !missing_required(raw)
    &&& !date_invalid(raw, current_year)
    &&& raw.valeur_fonciere is Some
    &&& match spec_parse_cents(raw.valeur_fonciere->0@) {
        Some(c) => c < 0,
        None => true,
    }
}

pub open spec fn raw_lon(raw: DvfRawRow) -> Option<int> {
    match raw.longitude {
        Some(s) => spec_parse_coord(s@),
        None => None,
    }
}

pub open spec fn raw_lat(raw: DvfRawRow) -> Option<int> {
    match raw.latitude {
        Some(s) => spec_parse_coord(s@),
        None => None,
    }
}

pub open spec fn coord_invalid(raw: DvfRawRow, current_year: int) -> bool {
    &&& !missing_required(raw)
    &&& !date_invalid(raw, current_year)
    &&& !value_invalid(raw, current_year)
    &&& ((raw_lon(raw) is Some) != (raw_lat(raw) is Some) || (raw_lon(raw) is Some && raw_lat(raw)
        is Some && !coords_in_bbox(raw_lon(raw)->0, raw_lat(raw)->0)))
}

/// The mainland bounding box, in micro-degrees.
pub open spec fn coords_in_bbox(lon: int, lat: int) -> bool {
    -5500000 <= lon <= 9900000 && 41000000 <= lat <= 51500000
}

pub open spec fn row_accepted(raw: DvfRawRow, current_year: int) -> bool {
    !missing_required(raw) && !date_invalid(raw, current_year) && !value_invalid(raw, current_year)
        && !coord_invalid(raw, current_year)
}

/// Validates one Bronze row: required presence, the date with its year
/// floor, non-negative money, paired in-range coordinates; then
/// normalizes text, derives the calendar columns, and computes the
/// content hash key.
#[verifier::rlimit(60)]
pub fn validate_row(raw: &DvfRawRow, current_year: i32) -> (r: DvfRowOutcome)
    ensures
        r is Reject <==> !row_accepted(*raw, current_year as int),
        (match r {
            DvfRowOutcome::Reject { code, detail } => {
                if missing_required(*raw) {
                    code@ == "DVF_SCHEMA_MISSING"@
                } else if date_invalid(*raw, current_year as int) {
                    code@ == "DVF_DATE_INVALID"@
                } else if value_invalid(*raw, current_year as int) {
                    code@ == "DVF_VALUE_NEGATIVE"@
                } else {
                    code@ == "DVF_COORD_OOB"@
                }
            },
            DvfRowOutcome::Valid(row) => {
                &&& row.date_mutation == raw_date(*raw)->0
                &&& date_valid(row.date_mutation)
                &&& row.date_days as int == crate::dates::spec_days_from_civil(
                    row.date_mutation.year as int,
                    row.date_mutation.month as int,
                    row.date_mutation.day as int,
                )
                &&& row.year_mutation == row.date_mutation.year as i16
                &&& row.month_start_days as int == crate::dates::spec_days_from_civil(
                    row.date_mutation.year as int,
                    row.date_mutation.month as int,
                    1,
                )
                &&& row.id_mutation@ == spec_trim(raw.id_mutation->0@)
                &&& row.numero_disposition@ == spec_trim(raw.numero_disposition->0@)
                &&& row.nature_mutation@ == upper_of(
                    spec_trim(
                        match raw.nature_mutation {
                            Some(s) => s@,
                            None => Seq::empty(),
                        },
                    ),
                )
                &&& (match raw.valeur_fonciere {
                    Some(s) => row.valeur_cents == spec_parse_cents(s@) && spec_parse_cents(s@)
                        is Some && spec_parse_cents(s@)->0 >= 0,
                    None => row.valeur_cents is None,
                })
                &&& (match raw.code_postal {
                    Some(s) => row.code_postal is Some && row.code_postal->0@
                        == crate::text::spec_pad_left_zeros(spec_trim(s@), 5),
                    None => row.code_postal is None,
                })
                &&& (match raw.nom_commune {
                    Some(s) => row.nom_commune is Some && row.nom_commune->0@ == upper_of(
                        spec_trim(s@),
                    ),
                    None => row.nom_commune is None,
                })
                &&& opt_str_view(row.adresse_numero) == spec_pass(opt_str_view(raw.adresse_numero))
                &&& opt_str_view(row.adresse_suffixe) == spec_pass(
                    opt_str_view(raw.adresse_suffixe),
                )
                &&& opt_str_view(row.adresse_nom_voie) == spec_pass(
                    opt_str_view(raw.adresse_nom_voie),
                )
                &&& opt_str_view(row.adresse_code_voie) == spec_pass(
                    opt_str_view(raw.adresse_code_voie),
                )
                &&& opt_str_view(row.code_commune) == spec_pass(opt_str_view(raw.code_commune))
                &&& opt_str_view(row.code_departement) == spec_pass(
                    opt_str_view(raw.code_departement),
                )
                &&& opt_str_view(row.ancien_code_commune) == spec_pass(
                    opt_str_view(raw.ancien_code_commune),
                )
                &&& opt_str_view(row.ancien_nom_commune) == spec_pass(
                    opt_str_view(raw.ancien_nom_commune),
                )
                &&& opt_str_view(row.id_parcelle) == spec_pass(opt_str_view(raw.id_parcelle))
                &&& opt_str_view(row.ancien_id_parcelle) == spec_pass(
                    opt_str_view(raw.ancien_id_parcelle),
                )
                &&& opt_str_view(row.numero_volume) == spec_pass(opt_str_view(raw.numero_volume))
                &&& opt_str_view(row.lot1_numero) == spec_pass(opt_str_view(raw.lot1_numero))
                &&& opt_str_view(row.lot2_numero) == spec_pass(opt_str_view(raw.lot2_numero))
                &&& opt_str_view(row.lot3_numero) == spec_pass(opt_str_view(raw.lot3_numero))
                &&& opt_str_view(row.lot4_numero) == spec_pass(opt_str_view(raw.lot4_numero))
                &&& opt_str_view(row.lot5_numero) == spec_pass(opt_str_view(raw.lot5_numero))
                &&& opt_str_view(row.code_type_local) == spec_pass(
                    opt_str_view(raw.code_type_local),
                )
                &&& opt_str_view(row.code_nature_culture) == spec_pass(
                    opt_str_view(raw.code_nature_culture),
                )
                &&& opt_str_view(row.code_nature_culture_speciale) == spec_pass(
                    opt_str_view(raw.code_nature_culture_speciale),
                )
                &&& (match raw.nature_culture {
                    Some(s) => row.nature_culture is Some && row.nature_culture->0@ == upper_of(
                        spec_trim(s@),
                    ),
                    None => row.nature_culture is None,
                })
                &&& (match raw.nature_culture_speciale {
                    Some(s) => row.nature_culture_speciale is Some
                        && row.nature_culture_speciale->0@ == upper_of(spec_trim(s@)),
                    None => row.nature_culture_speciale is None,
                })
                &&& (match raw.surface_reelle_bati {
                    Some(s) => row.surface_reelle_bati == spec_opt_i32(s@),
                    None => row.surface_reelle_bati is None,
                })
                &&& (match raw.surface_terrain {
                    Some(s) => row.surface_terrain == spec_opt_i32(s@),
                    None => row.surface_terrain is None,
                })
                &&& (match raw.nombre_lots {
                    Some(s) => row.nombre_lots == spec_opt_i16(s@),
                    None => row.nombre_lots is None,
                })
                &&& (match raw.nombre_pieces_principales {
                    Some(s) => row.nombre_pieces_principales == spec_opt_i16(s@),
                    None => row.nombre_pieces_principales is None,
                })
                &&& (match raw.type_local {
                    Some(s) => row.type_local is Some && row.type_local->0@ == upper_of(
                        spec_trim(s@),
                    ),
                    None => row.type_local is None,
                })
                &&& (raw_lon(*raw) is Some ==> row.lon_micro is Some && row.lon_micro->0 as int
                    == raw_lon(*raw)->0)
                &&& (raw_lon(*raw) is None ==> row.lon_micro is None && row.lat_micro is None)
                &&& (raw_lat(*raw) is Some ==> row.lat_micro is Some && row.lat_micro->0 as int
                    == raw_lat(*raw)->0)
                &&& row.mutation_key@.len() == 32
                &&& row.mutation_key@ == blake3_of(
                    spec_hash_input(
                        spec_trim(raw.id_mutation->0@),
                        spec_trim(raw.date_mutation->0@),
                        spec_trim(raw.numero_disposition->0@),
                        (match raw.id_parcelle {
                            Some(s) => Some(spec_trim(s@)),
                            None => None,
                        }),
                        opt_str_view(raw.id_parcelle),
                        opt_str_view(raw.adresse_numero),
                        (match raw.adresse_nom_voie {
                            Some(s) => Some(spec_trim(s@)),
                            None => None,
                        }),
                        (match raw.code_postal {
                            Some(s) => Some(crate::text::spec_pad_left_zeros(spec_trim(s@), 5)),
                            None => None,
                        }),
                    ),
                )
            },
        }),
{
    // required presence
    let id_mut_s = match &raw.id_mutation {
        Some(s) => s,
        None => {
            return DvfRowOutcome::Reject {
                code: "DVF_SCHEMA_MISSING".to_owned(),
                detail: "missing required column".to_owned(),
            };
        },
    };
    let date_s_raw = match &raw.date_mutation {
        Some(s) => s,
        None => {
            return DvfRowOutcome::Reject {
                code: "DVF_SCHEMA_MISSING".to_owned(),
                detail: "missing required column".to_owned(),
            };
        },
    };
    let num_disp_s = match &raw.numero_disposition {
        Some(s) => s,
        None => {
            return DvfRowOutcome::Reject {
                code: "DVF_SCHEMA_MISSING".to_owned(),
                detail: "missing required column".to_owned(),
            };
        },
    };
    let id_mut = crate::text::trim_spaces(id_mut_s.as_str());
    let date_s = crate::text::trim_spaces(date_s_raw.as_str());
    let num_disp = crate::text::trim_spaces(num_disp_s.as_str());
    // the mutation date with its year floor
    let date = match crate::dates::parse_date(date_s.as_str()) {
        Some(d) => d,
        None => {
            return DvfRowOutcome::Reject {
                code: "DVF_DATE_INVALID".to_owned(),
                detail: "date parse failed".to_owned(),
            };
        },
    };
    if date.year < 1990 || (date.year as i64) > (current_year as i64) + 1 {
        return DvfRowOutcome::Reject {
            code: "DVF_DATE_INVALID".to_owned(),
            detail: "year out of expected bounds".to_owned(),
        };
    }
    // money, when present, must parse non-negative
    let valeur_cents: Option<i128> = match &raw.valeur_fonciere {
        Some(s) => {
            match parse_decimal_2(s.as_str()) {
                Some(c) => {
                    if c < 0 {
                        return DvfRowOutcome::Reject {
                            code: "DVF_VALUE_NEGATIVE".to_owned(),
                            detail: "valeur_fonciere invalid/negative".to_owned(),
                        };
                    }
                    Some(c)
                },
                None => {
                    return DvfRowOutcome::Reject {
                        code: "DVF_VALUE_NEGATIVE".to_owned(),
                        detail: "valeur_fonciere invalid/negative".to_owned(),
                    };
                },
            }
        },
        None => None,
    };
    // coordinates: both or neither, inside the box
    let lon: Option<i64> = match &raw.longitude {
        Some(s) => parse_coord(s.as_str()),
        None => None,
    };
    let lat: Option<i64> = match &raw.latitude {
        Some(s) => parse_coord(s.as_str()),
        None => None,
    };
    if lon.is_some() != lat.is_some() {
        return DvfRowOutcome::Reject {
            code: "DVF_COORD_OOB".to_owned(),
            detail: "lon/lat must be both present or both null".to_owned(),
        };
    }
    if lon.is_some() {
        let lo = match lon {
            Some(v) => v,
            None => 0,
        };
        let la = match lat {
            Some(v) => v,
            None => 0,
        };
        if lo < -5500000 || lo > 9900000 || la < 41000000 || la > 51500000 {
            return DvfRowOutcome::Reject {
                code: "DVF_COORD_OOB".to_owned(),
                detail: "lon/lat out of FR bbox".to_owned(),
            };
        }
    }
    // normalization
    let nat_mut = match &raw.nature_mutation {
        Some(s) => norm_upper(s.as_str()),
        None => {
            let empty: String = "".to_owned();
            let r = crate::text::to_upper(empty.as_str());
            proof {
                reveal_strlit("");
                assert(""@ =~= Seq::<char>::empty());
                assert(""@ == Seq::<char>::empty());
                assert(spec_trim(Seq::<char>::empty()) =~= Seq::<char>::empty());
                assert(spec_trim(Seq::<char>::empty()) == Seq::<char>::empty());
            }
            r
        },
    };
    let nom_com: Option<String> = match &raw.nom_commune {
        Some(s) => Some(norm_upper(s.as_str())),
        None => None,
    };
    let typ_loc: Option<String> = match &raw.type_local {
        Some(s) => Some(norm_upper(s.as_str())),
        None => None,
    };
    let nat_cult: Option<String> = match &raw.nature_culture {
        Some(s) => Some(norm_upper(s.as_str())),
        None => None,
    };
    let nat_cult_sp: Option<String> = match &raw.nature_culture_speciale {
        Some(s) => Some(norm_upper(s.as_str())),
        None => None,
    };
    let cpostal: Option<String> = match &raw.code_postal {
        Some(s) => Some(left_pad_5(s.as_str())),
        None => None,
    };
    // content hash over identity fields
    let parcelle: Option<String> = match &raw.id_parcelle {
        Some(s) => Some(crate::text::trim_spaces(s.as_str())),
        None => None,
    };
    let addr_voie: Option<String> = match &raw.adresse_nom_voie {
        Some(s) => Some(crate::text::trim_spaces(s.as_str())),
        None => None,
    };
    let hash_input = build_hash_input(
        id_mut.as_str(),
        date_s.as_str(),
        num_disp.as_str(),
        &parcelle,
        &raw.id_parcelle,
        &raw.adresse_numero,
        &addr_voie,
        &cpostal,
    );
    let key = blake3_hash32(&hash_input);
    // integer side columns
    let surface_reelle_bati = parse_opt_i32(&raw.surface_reelle_bati);
    let surface_terrain = parse_opt_i32(&raw.surface_terrain);
    let nombre_lots = parse_opt_i16(&raw.nombre_lots);
    let nombre_pieces = parse_opt_i16(&raw.nombre_pieces_principales);
    // derived calendar columns
    let date_days = crate::dates::days_from_civil(&date);
    let month_first = CivilDate { year: date.year, month: date.month, day: 1 };
    let month_start_days = crate::dates::days_from_civil(&month_first);
    let row = DvfSilverRow {
        id_mutation: id_mut,
        date_mutation: date,
        date_days,
        numero_disposition: num_disp,
        nature_mutation: nat_mut,
        valeur_cents,
        adresse_numero: pass_text(&raw.adresse_numero),
        adresse_suffixe: pass_text(&raw.adresse_suffixe),
        adresse_nom_voie: pass_text(&raw.adresse_nom_voie),
        adresse_code_voie: pass_text(&raw.adresse_code_voie),
        code_postal: cpostal,
        code_commune: pass_text(&raw.code_commune),
        nom_commune: nom_com,
        code_departement: pass_text(&raw.code_departement),
        ancien_code_commune: pass_text(&raw.ancien_code_commune),
        ancien_nom_commune: pass_text(&raw.ancien_nom_commune),
        id_parcelle: pass_text(&raw.id_parcelle),
        ancien_id_parcelle: pass_text(&raw.ancien_id_parcelle),
        numero_volume: pass_text(&raw.numero_volume),
        lot1_numero: pass_text(&raw.lot1_numero),
        lot2_numero: pass_text(&raw.lot2_numero),
        lot3_numero: pass_text(&raw.lot3_numero),
        lot4_numero: pass_text(&raw.lot4_numero),
        lot5_numero: pass_text(&raw.lot5_numero),
        code_type_local: pass_text(&raw.code_type_local),
        type_local: typ_loc,
        code_nature_culture: pass_text(&raw.code_nature_culture),
        nature_culture: nat_cult,
        code_nature_culture_speciale: pass_text(&raw.code_nature_culture_speciale),
        nature_culture_speciale: nat_cult_sp,
        surface_reelle_bati,
        surface_terrain,
        nombre_lots,
        nombre_pieces_principales: nombre_pieces,
        lon_micro: lon,
        lat_micro: lat,
        year_mutation: date.year as i16,
        month_start_days,
        mutation_key: key,
    };
    proof {
        assert(row_accepted(*raw, current_year as int));
        assert(row.date_mutation == raw_date(*raw)->0);
        assert(row.nature_mutation@ == upper_of(
            spec_trim(
                match raw.nature_mutation {
                    Some(s) => s@,
                    None => Seq::empty(),
                },
            ),
        ));
        assert(match raw.valeur_fonciere {
            Some(s) => row.valeur_cents == spec_parse_cents(s@),
            None => row.valeur_cents is None,
        });
        assert(row.mutation_key@ == blake3_of(
            spec_hash_input(
                spec_trim(raw.id_mutation->0@),
                spec_trim(raw.date_mutation->0@),
                spec_trim(raw.numero_disposition->0@),
                (match raw.id_parcelle {
                    Some(s) => Some(spec_trim(s@)),
                    None => None,
                }),
                opt_str_view(raw.id_parcelle),
                opt_str_view(raw.adresse_numero),
                (match raw.adresse_nom_voie {
                    Some(s) => Some(spec_trim(s@)),
                    None => None,
                }),
                (match raw.code_postal {
                    Some(s) => Some(crate::text::spec_pad_left_zeros(spec_trim(s@), 5)),
                    None => None,
                }),
            ),
        ));
        assert(raw_lon(*raw) is Some ==> row.lon_micro is Some && row.lon_micro->0 as int
            == raw_lon(*raw)->0);
        assert(raw_lon(*raw) is None ==> row.lon_micro is None && row.lat_micro is None);
    }
    DvfRowOutcome::Valid(row)
}

/// Parses a trimmed non-negative integer into `i32`; anything else is
/// absent.
pub fn parse_opt_i32(s: &Option<String>) -> (r: Option<i32>)
    ensures
        match s {
            Some(t) => r == spec_opt_i32(t@),
            None => r is None,
        },
{
    match s {
        Some(t) => {
            let tt = crate::text::trim_spaces(t.as_str());
            match crate::num::parse_i64(tt.as_str()) {
                Some(v) => {
                    if v >= 0 && v <= 0x7fffffff {
                        Some(v as i32)
                    } else {
                        None
                    }
                },
                None => None,
            }
        },
        None => None,
    }
}

pub open spec fn spec_opt_i32(t: Seq<char>) -> Option<i32> {
    match spec_parse_i64(spec_trim(t)) {
        Some(v) => if 0 <= v <= 0x7fffffff {
            Some(v as i32)
        } else {
            None
        },
        None => None,
    }
}

/// Parses a trimmed non-negative integer into `i16`; anything else is
/// absent.
pub fn parse_opt_i16(s: &Option<String>) -> (r: Option<i16>)
    ensures
        match s {
            Some(t) => r == spec_opt_i16(t@),
            None => r is None,
        },
{
    match s {
        Some(t) => {
            let tt = crate::text::trim_spaces(t.as_str());
            match crate::num::parse_i64(tt.as_str()) {
                Some(v) => {
                    if v >= 0 && v <= 0x7fff {
                        Some(v as i16)
                    } else {
                        None
                    }
                },
                None => None,
            }
        },
        None => None,
    }
}

pub open spec fn spec_opt_i16(t: Seq<char>) -> Option<i16> {
    match spec_parse_i64(spec_trim(t)) {
        Some(v) => if 0 <= v <= 0x7fff {
            Some(v as i16)
        } else {
            None
        },
        None => None,
    }
}

/// The in-run dedup set of content hash keys.
#[derive(Debug)]
pub struct DvfDedup {
    pub seen: Vec<Vec<u8>>,
}

pub open spec fn dedup_contains(d: DvfDedup, key: Seq<u8>) -> bool {
    exists|i: int| 0 <= i < d.seen@.len() && (#[trigger] d.seen@[i])@ == key
}

impl DvfDedup {
    /// An empty set.
    pub fn new() -> (r: DvfDedup)
        ensures
            r.seen@.len() == 0,
    {
        DvfDedup { seen: Vec::new() }
    }

    /// Inserts a key; says whether it was new.
    pub fn insert(&mut self, key: Vec<u8>) -> (fresh: bool)
        ensures
            fresh == !dedup_contains(*old(self), key@),
            dedup_contains(*final(self), key@),
            forall|k: Seq<u8>|
                dedup_contains(*final(self), k) <==> (dedup_contains(*old(self), k) || k == key@),
    {
        let mut i: usize = 0;
        let mut found = false;
        while i < self.seen.len()
            invariant
                i <= self.seen@.len(),
                found == (exists|j: int| 0 <= j < i && (#[trigger] self.seen@[j])@ == key@),
                *self == *old(self),
            decreases self.seen@.len() - i,
        {
            if bytes_eq(&self.seen[i], &key) {
                found = true;
            }
            i = i + 1;
        }
        let ghost prev = self.seen@;
        self.seen.push(key);
        proof {
            assert(self.seen@[prev.len() as int]@ == prev.push(
                self.seen@[prev.len() as int],
            )[prev.len() as int]@);
            assert forall|k: Seq<u8>|
                dedup_contains(*self, k) <==> (dedup_contains(*old(self), k) || k
                    == self.seen@[prev.len() as int]@) by {
                if dedup_contains(*self, k) {
                    let j = choose|j: int| 0 <= j < self.seen@.len() && self.seen@[j]@ == k;
                    if j < prev.len() {
                        assert(self.seen@[j] == prev[j]);
                        assert(dedup_contains(*old(self), k));
                    }
                } else {
                    if dedup_contains(*old(self), k) {
                        let j = choose|j: int| 0 <= j < prev.len() && prev[j]@ == k;
                        assert(self.seen@[j] == prev[j]);
                    }
                }
            }
        }
        !found
    }
}

fn bytes_eq(a: &Vec<u8>, b: &Vec<u8>) -> (r: bool)
    ensures
        r == (a@ == b@),
{
    if a.len() != b.len() {
        return false;
    }
    let mut i: usize = 0;
    while i < a.len()
        invariant
            i <= a@.len(),
            a@.len() == b@.len(),
            forall|j: int| 0 <= j < i ==> a@[j] == b@[j],
        decreases a@.len() - i,
    {
        if a[i] != b[i] {
            return false;
        }
        i = i + 1;
    }
    proof {
        assert(a@ =~= b@);
    }
    true
}

} // verus!
