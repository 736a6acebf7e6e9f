//! Area codes of the PEA office (AOJ) records.

use vstd::prelude::*;
use vstd::utf8::*;
use vstd::string::*;
use crate::text::{byte_prefix, keyed, lookup, str_eq, table_lookup, trim_ws, trimmed};
use crate::pattern::{capture_group, pattern_group};
use crate::group::{
    add_record, add_to_groups, group_views, key_pos_from, lemma_key_pos_distinct, lemma_table_set_get, lemma_table_set_keys,
    table_get, table_keys_distinct, table_put, table_set, table_views,
};

verus! {

/// The two-digit PEA area numbers with their area codes.
pub open spec fn pea_ar_cds() -> Seq<(Seq<char>, &'static str)> {
    seq![
        ("11"@, "N1"),
        ("12"@, "N2"),
        ("13"@, "N3"),
        ("21"@, "NE1"),
        ("22"@, "NE2"),
        ("23"@, "NE3"),
        ("31"@, "C1"),
        ("32"@, "C2"),
        ("33"@, "C3"),
        ("41"@, "S1"),
        ("42"@, "S2"),
        ("43"@, "S3"),
    ]
}

/// The area-number table: two-digit number (such as `31`) to area code (such as `C1`).
pub fn pea_ar_cd_table() -> (r: Vec<(&'static str, &'static str)>)
    ensures
        keyed(r@) == pea_ar_cds(),
{
    let mut r = Vec::new();
    r.push(("11", "N1"));
    r.push(("12", "N2"));
    r.push(("13", "N3"));
    r.push(("21", "NE1"));
    r.push(("22", "NE2"));
    r.push(("23", "NE3"));
    r.push(("31", "C1"));
    r.push(("32", "C2"));
    r.push(("33", "C3"));
    r.push(("41", "S1"));
    r.push(("42", "S2"));
    r.push(("43", "S3"));
    assert(keyed(r@) =~= pea_ar_cds());
    r
}

/// The area code of a two-digit PEA area number, if the table has it.
pub fn pea_ar_cd(cd: &str) -> (r: Option<&'static str>)
    ensures
        r == table_lookup(pea_ar_cds(), cd@),
{
    lookup(&pea_ar_cd_table(), cd)
}
/// The one-letter PEA office prefixes with their area codes.
pub open spec fn pea_ar_cd2s() -> Seq<(Seq<char>, &'static str)> {
    seq![
        ("A"@, "N1"),
        ("B"@, "N2"),
        ("C"@, "N3"),
        ("D"@, "NE1"),
        ("E"@, "NE2"),
        ("F"@, "NE3"),
        ("G"@, "C1"),
        ("H"@, "C2"),
        ("I"@, "C3"),
        ("J"@, "S1"),
        ("K"@, "S2"),
        ("L"@, "S3"),
    ]
}

/// The office-prefix table: one letter (such as `G`) to area code (such as `C1`).
pub fn pea_ar_cd2_table() -> (r: Vec<(&'static str, &'static str)>)
    ensures
        keyed(r@) == pea_ar_cd2s(),
{
    let mut r = Vec::new();
    r.push(("A", "N1"));
    r.push(("B", "N2"));
    r.push(("C", "N3"));
    r.push(("D", "NE1"));
    r.push(("E", "NE2"));
    r.push(("F", "NE3"));
    r.push(("G", "C1"));
    r.push(("H", "C2"));
    r.push(("I", "C3"));
    r.push(("J", "S1"));
    r.push(("K", "S2"));
    r.push(("L", "S3"));
    assert(keyed(r@) =~= pea_ar_cd2s());
    r
}

/// The area code of a one-letter PEA office prefix, if the table has it.
pub fn pea_ar_cd2(cd: &str) -> (r: Option<&'static str>)
    ensures
        r == table_lookup(pea_ar_cd2s(), cd@),
{
    lookup(&pea_ar_cd2_table(), cd)
}
/// The area code that an AOJ record resolves to, given the area found from
/// its area number (`a1`) and the one found from its PEA code (`a2`), each
/// `XX` when its table has none: the first unless it is `XX`.
pub open spec fn resolve_area(a1: Seq<char>, a2: Seq<char>) -> Seq<char> {
    if a1 == a2 {
        a1
    } else if a1 != "XX"@ {
        a1
    } else {
        a2
    }
}

/// The table value for a key, or `XX` when the table has none.
pub open spec fn area_or_unknown(v: Option<&str>) -> Seq<char> {
    match v {
        Some(a) => a@,
        None => "XX"@,
    }
}

/// The area code of a PEA office record from its area number `ar_cd` (first
/// two bytes looked up in the area-number table) and its PEA code `pea`
/// (first byte looked up in the office-prefix table): the area number's area
/// when it has one, else the PEA code's, else `XX`.
pub fn aoj_area(ar_cd: &str, pea: &str) -> (r: &'static str)
    requires
        is_char_boundary(ar_cd.spec_bytes(), 2),
        is_char_boundary(pea.spec_bytes(), 1),
    ensures
        r@ == resolve_area(
            area_or_unknown(table_lookup(pea_ar_cds(), decode_utf8(ar_cd.spec_bytes().subrange(0, 2)))),
            area_or_unknown(table_lookup(pea_ar_cd2s(), decode_utf8(pea.spec_bytes().subrange(0, 1)))),
        ),
{
    let arcd = byte_prefix(ar_cd, 2).unwrap();
    let peacd = byte_prefix(pea, 1).unwrap();
    let ar1 = match pea_ar_cd(arcd) {
        Some(a) => a,
        None => "XX",
    };
    let ar2 = match pea_ar_cd2(peacd) {
        Some(a) => a,
        None => "XX",
    };
    if str_eq(ar1, ar2) {
        ar1
    } else if !str_eq(ar1, "XX") {
        ar1
    } else {
        ar2
    }
}


/// Place keys of the GIS district layer with the key the population table uses for the same place.
pub open spec fn tesaban_names() -> Seq<(Seq<char>, &'static str)> {
    seq![
        ("เมือง-ปทุมธานี"@, "เมืองปทุมธานี-ปทุมธานี"),
        ("บึงกาฬ-หนองคาย"@, "เมืองบึงกาฬ-บึงกาฬ"),
        ("บุ่งคล้า-หนองคาย"@, "บุ่งคล้า-บึงกาฬ"),
        ("โซ่พิสัย-หนองคาย"@, "โซ่พิสัย-บึงกาฬ"),
        ("ศรีวิไล-หนองคาย"@, "ศรีวิไล-บึงกาฬ"),
        ("เซกา-หนองคาย"@, "เซกา-บึงกาฬ"),
        ("พรเจริญ-หนองคาย"@, "พรเจริญ-บึงกาฬ"),
        ("บึงโขงหลง-หนองคาย"@, "บึงโขงหลง-บึงกาฬ"),
        ("วัวซอ-อุดรธานี"@, "หนองวัวซอ-อุดรธานี"),
        ("ประจักษ์-อุดรธานี"@, "ประจักษ์ศิลปาคม-อุดรธานี"),
        (" วังยาง-นครพนม"@, "วังยาง-นครพนม"),
        ("หนองนา-ขอนแก่น"@, "หนองนาคำ-ขอนแก่น"),
        ("บ้านแฮ-ขอนแก่น"@, "บ้านแฮด-ขอนแก่น"),
        ("โคกโพธิ์-ขอนแก่น"@, "โคกโพธิ์ไชย-ขอนแก่น"),
        ("เมืองศรีเกษ-ศรีสะเกษ"@, "เมืองศรีสะเกษ-ศรีสะเกษ"),
        ("เมืองกาฬสินธ์-กาฬสินธุ์"@, "เมืองกาฬสินธุ์-กาฬสินธุ์"),
        ("ต.สมเด็จ-กาฬสินธุ์"@, "สมเด็จ-กาฬสินธุ์"),
        ("สุไหงโก-ลก-นราธิวาส"@, "สุไหงโกลก-นราธิวาส"),
        ("ต.เบตง-ยะลา"@, "เบตง-ยะลา"),
        ("หาดให่ญ-สงขลา"@, "หาดใหญ่-สงขลา"),
        ("กันตรัง-ตรัง"@, "กันตัง-ตรัง"),
        ("เมือง-นครราชสีมา"@, "เมืองนครราชสีมา-นครราชสีมา"),
    ]
}

/// The place-key corrections: GIS district key to population key.
pub fn tesaban_map_table() -> (r: Vec<(&'static str, &'static str)>)
    ensures
        keyed(r@) == tesaban_names(),
{
    let mut r = Vec::new();
    r.push(("เมือง-ปทุมธานี", "เมืองปทุมธานี-ปทุมธานี"));
    r.push(("บึงกาฬ-หนองคาย", "เมืองบึงกาฬ-บึงกาฬ"));
    r.push(("บุ่งคล้า-หนองคาย", "บุ่งคล้า-บึงกาฬ"));
    r.push(("โซ่พิสัย-หนองคาย", "โซ่พิสัย-บึงกาฬ"));
    r.push(("ศรีวิไล-หนองคาย", "ศรีวิไล-บึงกาฬ"));
    r.push(("เซกา-หนองคาย", "เซกา-บึงกาฬ"));
    r.push(("พรเจริญ-หนองคาย", "พรเจริญ-บึงกาฬ"));
    r.push(("บึงโขงหลง-หนองคาย", "บึงโขงหลง-บึงกาฬ"));
    r.push(("วัวซอ-อุดรธานี", "หนองวัวซอ-อุดรธานี"));
    r.push(("ประจักษ์-อุดรธานี", "ประจักษ์ศิลปาคม-อุดรธานี"));
    r.push((" วังยาง-นครพนม", "วังยาง-นครพนม"));
    r.push(("หนองนา-ขอนแก่น", "หนองนาคำ-ขอนแก่น"));
    r.push(("บ้านแฮ-ขอนแก่น", "บ้านแฮด-ขอนแก่น"));
    r.push(("โคกโพธิ์-ขอนแก่น", "โคกโพธิ์ไชย-ขอนแก่น"));
    r.push(("เมืองศรีเกษ-ศรีสะเกษ", "เมืองศรีสะเกษ-ศรีสะเกษ"));
    r.push(("เมืองกาฬสินธ์-กาฬสินธุ์", "เมืองกาฬสินธุ์-กาฬสินธุ์"));
    r.push(("ต.สมเด็จ-กาฬสินธุ์", "สมเด็จ-กาฬสินธุ์"));
    r.push(("สุไหงโก-ลก-นราธิวาส", "สุไหงโกลก-นราธิวาส"));
    r.push(("ต.เบตง-ยะลา", "เบตง-ยะลา"));
    r.push(("หาดให่ญ-สงขลา", "หาดใหญ่-สงขลา"));
    r.push(("กันตรัง-ตรัง", "กันตัง-ตรัง"));
    r.push(("เมือง-นครราชสีมา", "เมืองนครราชสีมา-นครราชสีมา"));
    assert(keyed(r@) =~= tesaban_names());
    r
}

/// The population key that a GIS district key is corrected to, if the table corrects it.
pub fn tesaban_map(key: &str) -> (r: Option<&'static str>)
    ensures
        r == table_lookup(tesaban_names(), key@),
{
    lookup(&tesaban_map_table(), key)
}

// ---------------------------------------------------------------------------
// Place keys: a place name with its administrative prefix removed, joined to
// its province by `-`, under which GIS polygons meet population counts.

/// The name after applying the first `k` patterns in order: each pattern that
/// matches replaces the name by its capture group 1.
pub open spec fn strip_names(t: Seq<char>, pats: Seq<&str>, k: int) -> Seq<char>
    decreases k,
{
    if k <= 0 {
        t
    } else {
        let prev = strip_names(t, pats, k - 1);
        match capture_group(pats[k - 1]@, prev, 1) {
            Some(g) => g,
            None => prev,
        }
    }
}

/// The key of a place: the trimmed name stripped by the patterns, then `-`,
/// then the province.
pub open spec fn place_key_of(name: Seq<char>, prov: Seq<char>, pats: Seq<&str>) -> Seq<char> {
    strip_names(trimmed(name), pats, pats.len() as int) + seq!['-'] + prov
}

/// The key of a place from its name, its province and the prefix patterns.
pub fn place_key(name: &str, prov: &str, pats: &Vec<&str>) -> (r: String)
    ensures
        r@ == place_key_of(name@, prov@, pats@),
{
    let mut cur = trim_ws(name).to_owned();
    let mut k: usize = 0;
    while k < pats.len()
        invariant
            k <= pats@.len(),
            cur@ == strip_names(trimmed(name@), pats@, k as int),
        decreases pats@.len() - k,
    {
        match pattern_group(pats[k], cur.as_str(), 1) {
            Some(g) => {
                cur = g;
            },
            None => {},
        }
        k = k + 1;
    }
    cur.append("-");
    cur.append(prov);
    proof {
        reveal_strlit("-");
    }
    cur
}

/// The prefixes removed from municipality names, in order.
pub open spec fn muni_patterns() -> Seq<&'static str> {
    seq![r"เทศบาลตำบลเมือง(.+)", r"เทศบาลตำบลตำบล(.+)", r"เทศบาลเมือง(.+)", r"เทศบาลนคร(.+)", r"เทศบาลตำบล(.+)", r"เทศบาล(.+)"]
}

/// The key of a municipality (from the population table or the GIS layer).
pub fn muni_key(name: &str, prov: &str) -> (r: String)
    ensures
        r@ == place_key_of(name@, prov@, muni_patterns()),
{
    let mut pats: Vec<&str> = Vec::new();
    pats.push(r"เทศบาลตำบลเมือง(.+)");
    pats.push(r"เทศบาลตำบลตำบล(.+)");
    pats.push(r"เทศบาลเมือง(.+)");
    pats.push(r"เทศบาลนคร(.+)");
    pats.push(r"เทศบาลตำบล(.+)");
    pats.push(r"เทศบาล(.+)");
    assert(pats@ =~= muni_patterns());
    place_key(name, prov, &pats)
}

/// The prefixes removed from district names of the population table.
pub open spec fn amp_pop_patterns() -> Seq<&'static str> {
    seq![r"อำเภอ(.+)", r"กิ่งอำเภอ(.+)"]
}

/// The key of a district of the population table.
pub fn amp_pop_key(name: &str, prov: &str) -> (r: String)
    ensures
        r@ == place_key_of(name@, prov@, amp_pop_patterns()),
{
    let mut pats: Vec<&str> = Vec::new();
    pats.push(r"อำเภอ(.+)");
    pats.push(r"กิ่งอำเภอ(.+)");
    assert(pats@ =~= amp_pop_patterns());
    place_key(name, prov, &pats)
}

/// The prefixes removed from district names of the GIS layer.
pub open spec fn amp_gis_patterns() -> Seq<&'static str> {
    seq![r"อ.(.+)", r"กิ่งอ.(.+)"]
}

/// The key of a district of the GIS layer, corrected by the place-key table
/// where the layer spells the place differently.
pub open spec fn amp_gis_key_of(name: Seq<char>, prov: Seq<char>) -> Seq<char> {
    let k = place_key_of(name, prov, amp_gis_patterns());
    match table_lookup(tesaban_names(), k) {
        Some(c) => c@,
        None => k,
    }
}

/// The key of a district of the GIS layer.
pub fn amp_gis_key(name: &str, prov: &str) -> (r: String)
    ensures
        r@ == amp_gis_key_of(name@, prov@),
{
    let mut pats: Vec<&str> = Vec::new();
    pats.push(r"อ.(.+)");
    pats.push(r"กิ่งอ.(.+)");
    assert(pats@ =~= amp_gis_patterns());
    let k = place_key(name, prov, &pats);
    match tesaban_map(k.as_str()) {
        Some(c) => c.to_owned(),
        None => k,
    }
}


// ---------------------------------------------------------------------------
// District and municipality layers: the province of each record and the
// records of each area.

/// The characters of `s` from index `start` up to index `end`, both clamped
/// to the length of `s`; nothing when `end` is not past `start`.
pub open spec fn char_sub(s: Seq<char>, start: int, end: int) -> Seq<char> {
    if end <= start {
        Seq::empty()
    } else {
        let a = if start < s.len() { start } else { s.len() as int };
        let b = if end < s.len() { end } else { s.len() as int };
        s.subrange(a, b)
    }
}

/// The characters of `s` from index `start` up to index `end` (character
/// positions, each clamped to the length), as `substring::Substring` gives
/// them.
pub fn substring(s: &str, start: usize, end: usize) -> (r: &str)
    ensures
        r@ == char_sub(s@, start as int, end as int),
{
    if end <= start {
        let e = "";
        proof {
            reveal_strlit("");
        }
        return e;
    }
    let n = s.unicode_len();
    let a = if start < n {
        start
    } else {
        n
    };
    let b = if end < n {
        end
    } else {
        n
    };
    s.substring_char(a, b)
}

/// The province of a district or municipality record: its Thai province
/// field without the leading `จ.` (the characters from index 2 up to the
/// field's byte length), or `---` when the record has no such field.
pub open spec fn province_of(field: Option<&str>) -> Seq<char> {
    match field {
        Some(v) => char_sub(v@, 2, v.len() as int),
        None => seq!['-', '-', '-'],
    }
}

/// The province of a district or municipality record from its Thai
/// province field.
pub fn province_name(field: Option<&str>) -> (r: String)
    ensures
        r@ == province_of(field),
{
    match field {
        Some(v) => substring(v, 2, v.len()).to_owned(),
        None => {
            let r = "---".to_owned();
            proof {
                reveal_strlit("---");
            }
            r
        },
    }
}

/// The area of a province: that of the first entry of `prv2ar` (province,
/// area) for it, or `--` when there is none.
pub open spec fn province_area(prv2ar: Seq<(String, String)>, prv: Seq<char>) -> Seq<char>
    decreases prv2ar.len(),
{
    if prv2ar.len() == 0 {
        seq!['-', '-']
    } else if prv2ar[0].0@ == prv {
        prv2ar[0].1@
    } else {
        province_area(prv2ar.drop_first(), prv)
    }
}

fn province_area_of(prv2ar: &Vec<(String, String)>, prv: &str) -> (r: String)
    ensures
        r@ == province_area(prv2ar@, prv@),
{
    let mut i: usize = 0;
    assert(prv2ar@.subrange(0, prv2ar@.len() as int) =~= prv2ar@);
    while i < prv2ar.len()
        invariant
            i <= prv2ar@.len(),
            province_area(prv2ar@, prv@) == province_area(prv2ar@.subrange(i as int, prv2ar@.len() as int), prv@),
        decreases prv2ar@.len() - i,
    {
        let ghost rest = prv2ar@.subrange(i as int, prv2ar@.len() as int);
        assert(rest.drop_first() =~= prv2ar@.subrange(i + 1, prv2ar@.len() as int));
        if str_eq(prv2ar[i].0.as_str(), prv) {
            return prv2ar[i].1.clone();
        }
        i = i + 1;
    }
    let r = "--".to_owned();
    proof {
        reveal_strlit("--");
        assert(prv2ar@.subrange(i as int, prv2ar@.len() as int) =~= Seq::<(String, String)>::empty());
    }
    r
}

/// The records before `n` grouped by the area of their province (`provs`),
/// records whose area is `--` left out: one group per area in order of first
/// appearance, each with its records in order.
pub open spec fn province_groups(provs: Seq<String>, prv2ar: Seq<(String, String)>, n: int) -> Seq<(Seq<char>, Seq<usize>)>
    decreases n,
{
    if n <= 0 {
        Seq::empty()
    } else {
        let g = province_groups(provs, prv2ar, n - 1);
        let ar = province_area(prv2ar, provs[n - 1]@);
        if ar == seq!['-', '-'] {
            g
        } else {
            add_to_groups(g, ar, (n - 1) as usize)
        }
    }
}

/// The records of a district or municipality layer grouped by the area of
/// their province: `provs` holds the province of each record and `prv2ar`
/// the area of each province (the first entry of a province counting);
/// records of a province without an area are left out.
pub fn records_by_area(provs: &Vec<String>, prv2ar: &Vec<(String, String)>) -> (r: Vec<(String, Vec<usize>)>)
    ensures
        group_views(r@) == province_groups(provs@, prv2ar@, provs@.len() as int),
{
    let mut r: Vec<(String, Vec<usize>)> = Vec::new();
    let mut i: usize = 0;
    assert(group_views(r@) =~= Seq::<(Seq<char>, Seq<usize>)>::empty());
    while i < provs.len()
        invariant
            i <= provs@.len(),
            group_views(r@) == province_groups(provs@, prv2ar@, i as int),
        decreases provs@.len() - i,
    {
        let ar = province_area_of(prv2ar, provs[i].as_str());
        proof {
            reveal_strlit("--");
            assert("--"@ =~= seq!['-', '-']);
        }
        if !str_eq(ar.as_str(), "--") {
            add_record(&mut r, ar.as_str(), i);
        }
        i = i + 1;
    }
    r
}


// ---------------------------------------------------------------------------
// Population tables: the rows of the population workbook split into a table
// of municipalities and a table of districts.

/// The province of a `-` row: the field itself, or with `strip` the part
/// after `จังหวัด` when the field has it.
pub open spec fn pop_province(field: Seq<char>, strip: bool) -> Seq<char> {
    if strip {
        match capture_group("จังหวัด(.+)"@, field, 1) {
            Some(p) => p,
            None => field,
        }
    } else {
        field
    }
}

/// The province of a population row from its province field.
pub fn province_field(field: &str, strip: bool) -> (r: String)
    ensures
        r@ == pop_province(field@, strip),
{
    if strip {
        match pattern_group("จังหวัด(.+)", field, 1) {
            Some(q) => q,
            None => field.to_owned(),
        }
    } else {
        field.to_owned()
    }
}

/// The municipality table, the district table and the current province
/// after the first `n` rows. A row whose name has the form `ท้องถิ่น…` is a
/// local body: a district in Bangkok, a municipality elsewhere, keyed by the
/// part after `ท้องถิ่น`. A row named `-` opens a province. Any other row is
/// a district keyed by its name. A later row of a key replaces an earlier one.
pub open spec fn pop_state(provs: Seq<String>, amps: Seq<String>, strip: bool, n: int) -> (Seq<(Seq<char>, usize)>, Seq<(Seq<char>, usize)>, Seq<char>)
    decreases n,
{
    if n <= 0 {
        (Seq::empty(), Seq::empty(), Seq::empty())
    } else {
        let (mu, am, cur) = pop_state(provs, amps, strip, n - 1);
        let i = (n - 1) as usize;
        let a = amps[n - 1]@;
        match capture_group("ท้องถิ่น(.+)"@, a, 1) {
            Some(x) => if cur == "กรุงเทพมหานคร"@ {
                (mu, table_set(am, x, i), cur)
            } else {
                (table_set(mu, x, i), am, cur)
            },
            None => if a == "-"@ {
                (mu, am, pop_province(provs[n - 1]@, strip))
            } else {
                (mu, table_set(am, a, i), cur)
            },
        }
    }
}

/// Row `j` opens a province: its name is `-` and not a local body.
pub open spec fn opens_province(amps: Seq<String>, j: int) -> bool {
    capture_group("ท้องถิ่น(.+)"@, amps[j]@, 1) is None && amps[j]@ == "-"@
}

/// Row `j` is the last row before row `i` that opens a province.
pub open spec fn last_opener(amps: Seq<String>, i: int, j: int) -> bool {
    &&& 0 <= j < i
    &&& opens_province(amps, j)
    &&& forall|q: int| j < q < i ==> !#[trigger] opens_province(amps, q)
}

/// Row `i` lies in Bangkok: the last province opened before it is Bangkok.
pub open spec fn in_bangkok(provs: Seq<String>, amps: Seq<String>, strip: bool, i: int) -> bool {
    exists|j: int| last_opener(amps, i, j) && pop_province(provs[j]@, strip) == "กรุงเทพมหานคร"@
}

/// The key of population row `i`: the part after `ท้องถิ่น` of a local body,
/// else the name itself.
pub open spec fn pop_key(amps: Seq<String>, i: int) -> Seq<char> {
    match capture_group("ท้องถิ่น(.+)"@, amps[i]@, 1) {
        Some(x) => x,
        None => amps[i]@,
    }
}

/// Row `i` is a municipality: a local body outside Bangkok.
pub open spec fn muni_row(provs: Seq<String>, amps: Seq<String>, strip: bool, i: int) -> bool {
    capture_group("ท้องถิ่น(.+)"@, amps[i]@, 1) is Some && !in_bangkok(provs, amps, strip, i)
}

/// Row `i` is a district: a local body in Bangkok, or a row that is neither a
/// local body nor `-`.
pub open spec fn district_row(provs: Seq<String>, amps: Seq<String>, strip: bool, i: int) -> bool {
    match capture_group("ท้องถิ่น(.+)"@, amps[i]@, 1) {
        Some(_) => in_bangkok(provs, amps, strip, i),
        None => amps[i]@ != "-"@,
    }
}

/// The population tables of the first `n` rows: the current province is
/// Bangkok exactly when the last province opened is; each table has distinct
/// keys, gives a key its last row of the table's kind, and nothing to a key
/// no such row carries.
proof fn lemma_pop_prefix(provs: Seq<String>, amps: Seq<String>, strip: bool, n: int, key: Seq<char>)
    requires
        provs.len() == amps.len(),
        amps.len() <= usize::MAX,
        0 <= n <= amps.len(),
    ensures
        (pop_state(provs, amps, strip, n).2 == "กรุงเทพมหานคร"@) == in_bangkok(provs, amps, strip, n),
        table_keys_distinct(pop_state(provs, amps, strip, n).0),
        table_keys_distinct(pop_state(provs, amps, strip, n).1),
        match table_get(pop_state(provs, amps, strip, n).0, key) {
            Some(row) => 0 <= row < n && muni_row(provs, amps, strip, row as int) && pop_key(amps, row as int) == key
                && forall|j: int| row < j < n && #[trigger] muni_row(provs, amps, strip, j) ==> pop_key(amps, j) != key,
            None => forall|j: int| 0 <= j < n && #[trigger] muni_row(provs, amps, strip, j) ==> pop_key(amps, j) != key,
        },
        match table_get(pop_state(provs, amps, strip, n).1, key) {
            Some(row) => 0 <= row < n && district_row(provs, amps, strip, row as int) && pop_key(amps, row as int) == key
                && forall|j: int| row < j < n && #[trigger] district_row(provs, amps, strip, j) ==> pop_key(amps, j) != key,
            None => forall|j: int| 0 <= j < n && #[trigger] district_row(provs, amps, strip, j) ==> pop_key(amps, j) != key,
        },
    decreases n,
{
    if n == 0 {
        assert(!in_bangkok(provs, amps, strip, 0));
        reveal_strlit("กรุงเทพมหานคร");
        assert("กรุงเทพมหานคร"@.len() > 0);
        assert(pop_state(provs, amps, strip, 0).2.len() == 0);
    } else {
        lemma_pop_prefix(provs, amps, strip, n - 1, key);
        let r = n - 1;
        let (mu, am, cur) = pop_state(provs, amps, strip, r);
        let i = r as usize;
        let a = amps[r]@;
        if opens_province(amps, r) {
            assert(last_opener(amps, n, r));
            assert forall|j: int| last_opener(amps, n, j) implies j == r by {
                if j < r {
                    assert(!opens_province(amps, r));
                }
            }
            assert(in_bangkok(provs, amps, strip, n) == (pop_province(provs[r]@, strip) == "กรุงเทพมหานคร"@));
        } else {
            assert forall|j: int| last_opener(amps, n, j) <==> last_opener(amps, r, j) by {
                if last_opener(amps, r, j) {
                    assert forall|q: int| j < q < n implies !#[trigger] opens_province(amps, q) by {
                        if q < r {
                            assert(!opens_province(amps, q));
                        }
                    }
                }
                if last_opener(amps, n, j) {
                    assert(j != r);
                    assert forall|q: int| j < q < r implies !#[trigger] opens_province(amps, q) by {
                        assert(!opens_province(amps, q));
                    }
                }
            }
            assert(in_bangkok(provs, amps, strip, n) == in_bangkok(provs, amps, strip, r));
        }
        assert(in_bangkok(provs, amps, strip, r) == (cur == "กรุงเทพมหานคร"@));
        assert(muni_row(provs, amps, strip, r) == (capture_group("ท้องถิ่น(.+)"@, a, 1) is Some && cur != "กรุงเทพมหานคร"@));
        match capture_group("ท้องถิ่น(.+)"@, a, 1) {
            Some(x) => {
                assert(pop_key(amps, r) == x);
                if cur == "กรุงเทพมหานคร"@ {
                    lemma_table_set_get(am, x, i, key);
                    lemma_table_set_keys(am, x, i);
                } else {
                    lemma_table_set_get(mu, x, i, key);
                    lemma_table_set_keys(mu, x, i);
                }
            },
            None => {
                if a == "-"@ {
                } else {
                    assert(pop_key(amps, r) == a);
                    lemma_table_set_get(am, a, i, key);
                    lemma_table_set_keys(am, a, i);
                }
            },
        }
    }
}

/// Row `i` is the last municipality row with key `key`.
pub open spec fn last_muni_row(provs: Seq<String>, amps: Seq<String>, strip: bool, key: Seq<char>, i: int) -> bool {
    &&& 0 <= i < amps.len()
    &&& muni_row(provs, amps, strip, i)
    &&& pop_key(amps, i) == key
    &&& forall|j: int| i < j < amps.len() && #[trigger] muni_row(provs, amps, strip, j) ==> pop_key(amps, j) != key
}

/// Row `i` is the last district row with key `key`.
pub open spec fn last_district_row(provs: Seq<String>, amps: Seq<String>, strip: bool, key: Seq<char>, i: int) -> bool {
    &&& 0 <= i < amps.len()
    &&& district_row(provs, amps, strip, i)
    &&& pop_key(amps, i) == key
    &&& forall|j: int| i < j < amps.len() && #[trigger] district_row(provs, amps, strip, j) ==> pop_key(amps, j) != key
}

/// The population tables: the municipality table holds each municipality key
/// once, with the last municipality row of that key, and holds every
/// municipality row's key; the district table likewise for districts. A
/// local body is a municipality unless the last province opened before it is
/// Bangkok, where it is a district.
pub proof fn lemma_population_tables(provs: Seq<String>, amps: Seq<String>, strip: bool)
    requires
        provs.len() == amps.len(),
        amps.len() <= usize::MAX,
    ensures
        table_keys_distinct(pop_split_of(provs, amps, strip).0),
        table_keys_distinct(pop_split_of(provs, amps, strip).1),
        forall|k: int| 0 <= k < pop_split_of(provs, amps, strip).0.len() ==> last_muni_row(provs, amps, strip,
            #[trigger] pop_split_of(provs, amps, strip).0[k].0, pop_split_of(provs, amps, strip).0[k].1 as int),
        forall|k: int| 0 <= k < pop_split_of(provs, amps, strip).1.len() ==> last_district_row(provs, amps, strip,
            #[trigger] pop_split_of(provs, amps, strip).1[k].0, pop_split_of(provs, amps, strip).1[k].1 as int),
        forall|i: int| 0 <= i < amps.len() && #[trigger] muni_row(provs, amps, strip, i) ==>
            exists|k: int| 0 <= k < pop_split_of(provs, amps, strip).0.len() && pop_split_of(provs, amps, strip).0[k].0 == pop_key(amps, i),
        forall|i: int| 0 <= i < amps.len() && #[trigger] district_row(provs, amps, strip, i) ==>
            exists|k: int| 0 <= k < pop_split_of(provs, amps, strip).1.len() && pop_split_of(provs, amps, strip).1[k].0 == pop_key(amps, i),
{
    let n = amps.len() as int;
    let (mu, am) = pop_split_of(provs, amps, strip);
    lemma_pop_prefix(provs, amps, strip, n, Seq::empty());
    assert forall|k: int| 0 <= k < mu.len() implies last_muni_row(provs, amps, strip, #[trigger] mu[k].0, mu[k].1 as int) by {
        lemma_pop_prefix(provs, amps, strip, n, mu[k].0);
        lemma_key_pos_distinct(mu, mu[k].0);
    }
    assert forall|k: int| 0 <= k < am.len() implies last_district_row(provs, amps, strip, #[trigger] am[k].0, am[k].1 as int) by {
        lemma_pop_prefix(provs, amps, strip, n, am[k].0);
        lemma_key_pos_distinct(am, am[k].0);
    }
    assert forall|i: int| 0 <= i < amps.len() && #[trigger] muni_row(provs, amps, strip, i) implies
        exists|k: int| 0 <= k < mu.len() && mu[k].0 == pop_key(amps, i) by {
        lemma_pop_prefix(provs, amps, strip, n, pop_key(amps, i));
        lemma_key_pos_distinct(mu, pop_key(amps, i));
        let k = key_pos_from(mu, pop_key(amps, i), 0)->0;
        assert(mu[k].0 == pop_key(amps, i));
    }
    assert forall|i: int| 0 <= i < amps.len() && #[trigger] district_row(provs, amps, strip, i) implies
        exists|k: int| 0 <= k < am.len() && am[k].0 == pop_key(amps, i) by {
        lemma_pop_prefix(provs, amps, strip, n, pop_key(amps, i));
        lemma_key_pos_distinct(am, pop_key(amps, i));
        let k = key_pos_from(am, pop_key(amps, i), 0)->0;
        assert(am[k].0 == pop_key(amps, i));
    }
}

/// The municipality and district tables of the population rows.
pub open spec fn pop_split_of(provs: Seq<String>, amps: Seq<String>, strip: bool) -> (Seq<(Seq<char>, usize)>, Seq<(Seq<char>, usize)>) {
    let st = pop_state(provs, amps, strip, amps.len() as int);
    (st.0, st.1)
}

/// Splits the population rows (province field and name field of each row,
/// header rows left out) into the municipality table and the district table,
/// each from a name to the row that holds its counts; with `strip` the
/// province of a `-` row is the part after `จังหวัด`.
#[verifier::spinoff_prover]
#[verifier::rlimit(40)]
pub fn population_tables(provs: &Vec<String>, amps: &Vec<String>, strip: bool) -> (r: (Vec<(String, usize)>, Vec<(String, usize)>))
    requires
        provs@.len() == amps@.len(),
    ensures
        (table_views(r.0@), table_views(r.1@)) == pop_split_of(provs@, amps@, strip),
        forall|a: int, b: int| 0 <= a < b < r.0@.len() ==> #[trigger] r.0@[a].0@ != #[trigger] r.0@[b].0@,
        forall|a: int, b: int| 0 <= a < b < r.1@.len() ==> #[trigger] r.1@[a].0@ != #[trigger] r.1@[b].0@,
        forall|k: int| 0 <= k < r.0@.len() ==> last_muni_row(provs@, amps@, strip, #[trigger] r.0@[k].0@, r.0@[k].1 as int),
        forall|k: int| 0 <= k < r.1@.len() ==> last_district_row(provs@, amps@, strip, #[trigger] r.1@[k].0@, r.1@[k].1 as int),
        forall|i: int| 0 <= i < amps@.len() && #[trigger] muni_row(provs@, amps@, strip, i) ==>
            exists|k: int| 0 <= k < r.0@.len() && r.0@[k].0@ == pop_key(amps@, i),
        forall|i: int| 0 <= i < amps@.len() && #[trigger] district_row(provs@, amps@, strip, i) ==>
            exists|k: int| 0 <= k < r.1@.len() && r.1@[k].0@ == pop_key(amps@, i),
{
    let mut mu: Vec<(String, usize)> = Vec::new();
    let mut am: Vec<(String, usize)> = Vec::new();
    let mut cur = String::new();
    let mut i: usize = 0;
    assert(table_views(mu@) =~= Seq::<(Seq<char>, usize)>::empty());
    assert(table_views(am@) =~= Seq::<(Seq<char>, usize)>::empty());
    while i < amps.len()
        invariant
            i <= amps@.len(),
            provs@.len() == amps@.len(),
            (table_views(mu@), table_views(am@), cur@) == pop_state(provs@, amps@, strip, i as int),
        decreases amps@.len() - i,
    {
        let a = amps[i].as_str();
        match pattern_group("ท้องถิ่น(.+)", a, 1) {
            Some(x) => {
                if str_eq(cur.as_str(), "กรุงเทพมหานคร") {
                    table_put(&mut am, x.as_str(), i);
                } else {
                    table_put(&mut mu, x.as_str(), i);
                }
            },
            None => {
                if str_eq(a, "-") {
                    cur = province_field(provs[i].as_str(), strip);
                } else {
                    table_put(&mut am, a, i);
                }
            },
        }
        i = i + 1;
    }
    proof {
        let (tm, ta) = pop_split_of(provs@, amps@, strip);
        lemma_population_tables(provs@, amps@, strip);
        assert forall|k: int| 0 <= k < mu@.len() implies #[trigger] mu@[k].0@ == tm[k].0 && mu@[k].1 == tm[k].1 by {
            assert(table_views(mu@)[k] == tm[k]);
        }
        assert forall|k: int| 0 <= k < am@.len() implies #[trigger] am@[k].0@ == ta[k].0 && am@[k].1 == ta[k].1 by {
            assert(table_views(am@)[k] == ta[k]);
        }
        assert forall|i: int| 0 <= i < amps@.len() && #[trigger] muni_row(provs@, amps@, strip, i) implies
            exists|k: int| 0 <= k < mu@.len() && mu@[k].0@ == pop_key(amps@, i) by {
            let k = choose|k: int| 0 <= k < tm.len() && tm[k].0 == pop_key(amps@, i);
            assert(mu@[k].0@ == tm[k].0);
        }
        assert forall|i: int| 0 <= i < amps@.len() && #[trigger] district_row(provs@, amps@, strip, i) implies
            exists|k: int| 0 <= k < am@.len() && am@[k].0@ == pop_key(amps@, i) by {
            let k = choose|k: int| 0 <= k < ta.len() && ta[k].0 == pop_key(amps@, i);
            assert(am@[k].0@ == ta[k].0);
        }
    }
    (mu, am)
}

} // verus!
