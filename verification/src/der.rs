//! Power producers and their substations: the name tables that map the
//! substation fields of the producer sheets onto the names of the substation
//! list, and the substation each producer feeds.

use vstd::prelude::*;
use crate::text::{keyed, lookup, str_eq, table_lookup};
use crate::geo4::{positions, positions_of};

verus! {

/// The substation, by Thai name, of a small producer whose substation field
/// names a line or a bay rather than the substation itself.
pub open spec fn sb_th_adj1_names() -> Seq<(Seq<char>, &'static str)> {
    seq![
        ("แรงสูงเทิง - จุน"@, "เทิง"),
        ("บริษัท สุริยาพัฒน์ จำกัด"@, "อุตรดิตถ์ 1"),
        ("บริษัท แสงดี คลีน เพาเวอร์ จำกัด"@, "พิจิตร"),
        ("ลำปาง 3 (ชั่วคราว) - แจ้ห่ม"@, "ลำปาง 3 (ช)"),
        ("พิษณุโลก 4 / F2"@, "พิษณุโลก 4"),
        ("ศรีสัชนาลัย (Add bay)"@, "ศรีสัชนาลัย"),
        ("คลองขลุง - กำแพงเพชร 2"@, "คลองขลุง"),
        ("ศรีสัชนาลัย - บ.แสงพัฒน์พลังงาน"@, "ศรีสัชนาลัย"),
        ("ตะพานหิน - บริษัท ซันเรย์ รีนิวอเบิล เอ็นเนอร์จี จำกัด"@, "ตะพานหิน"),
        ("มโนรมย์ / F1"@, "มโนรมย์"),
        ("แรงสูงหล่มสัก - เพชรบูรณ์ 2 (ชั่วคราว)"@, "เพชรบูรณ์ 2 (ช)"),
        ("แรงสูงท่าตะโก (เพิ่ม Bay)"@, "ท่าตะโก"),
        ("หันคา -  บริษัท ตะวันแดง 1999 จำกัด"@, "หันคา"),
        ("บึงสามพัน (ลานไก) - วิเชียรบุรี"@, "บึงสามพัน"),
        ("ชนแดน - หนองไผ่"@, "หนองไผ่"),
        ("แรงสูงท่าตะโก - หนองบัว"@, "ท่าตะโก"),
        ("อ่าวไผ่ 2 - บึง"@, "อ่าวไผ่ 2"),
        ("อู่ทอง - ดอนเจดีย์"@, "อู่ทอง 1"),
        ("อ่างทอง 2 - บางปลาม้า"@, "อ่างทอง 2"),
        ("บ่อพลอย - อู่ทอง"@, "บ่อพลอย 1"),
        ("ระยะ 1 : แรงสูงเดิมบางนางบวช - ด่านช้าง"@, "เดิมบางนางบวช"),
        ("ระยะ 2 : เดิมบางนางบวช(ลานไก) - ด่านช้าง"@, "ด่านช้าง"),
        ("เลาขวัญ - ดอนเจดีย์"@, "เลาขวัญ"),
        ("ดอนเจดีย์ (เพิ่ม Bay)"@, "ดอนเจดีย์"),
        ("ด่านมะขามเตี้ย (เพิ่ม Bay)"@, "ด่านมะขามเตี้ย"),
        ("ระยะ 1 : แรงสูงอุดรธานี 1 - บ้านผือ"@, "อุดรธานี 1"),
        ("ระยะ 2 : อุดรธานี 5 - บ้านผือ"@, "อุดรธานี 5 (ช)"),
        ("อุดรธานี 3 (เพิ่ม Bay)"@, "อุดรธานี 3"),
        ("วานรนิวาส - เซกา"@, "วานรนิวาส"),
        ("โซ่พิสัย (เพิ่ม Bay)"@, "โซ่พิสัย"),
        ("โซ่พิสัย - โพนพิสัย"@, "โพนพิสัย"),
        ("หนองคาย 3 (เพิ่ม Bay)"@, "หนองคาย 3"),
        ("สว่างแดนดิน - บ้านดุง 2"@, "บ้านดุง 2"),
        ("แรงสูงประโคนชัย - นางรอง"@, "นางรอง"),
        ("บุรีรัมย์ 2 (เพิ่ม Bay)"@, "บุรีรัมย์ 2"),
        ("สำโรงทาบ (เพิ่ม Bay)"@, "สำโรงทาบ"),
        ("แรงสูงสุรินทร์ 2 (เพิ่ม Bay)"@, "สุรินทร์ 2"),
        ("เพชรบุรี 2 (เพิ่ม Bay)"@, "เพชรบุรี 2"),
        ("แรงสูงเพชรบุรี - VSPP บริษัท เอ็นเนอร์จี เซิฟ จำกัด"@, "เพชรบุรี 1"),
        ("แรงสูงราชบุรี 2 (เพิ่ม Bay)"@, "ราชบุรี 2"),
        ("ราชบุรี 3 - จอมบึง"@, "ราชบุรี 3"),
        ("จอมบึง - สวนผึ้ง"@, "จอมบึง"),
        ("ทุ่งใหญ่ (Add bay)"@, "ทุ่งใหญ่"),
        ("แรงสูงสตูล - ละงู"@, "สตูล"),
        ("ปัตตานี 2 (เพิ่ม Bay)"@, "ปัตตานี 2"),
        ("นาทวี (เพิ่ม Bay)"@, "นาทวี"),
        ("แรงสูงนราธิวาส - บริษัท กันกุล วัน เอ็นเนอร์ยี่ 2 จำกัด (REP-EG-SF-00346.00)"@, "นราธิวาส"),
        ("คลองแงะ (ลานไก) - สะเดา 2 (ชั่วคราว)"@, "คลองแงะ"),
    ]
}

/// The table of `sb_th_adj1_names`: substation field to Thai substation name.
pub fn sb_th_adj1_table() -> (r: Vec<(&'static str, &'static str)>)
    ensures
        keyed(r@) == sb_th_adj1_names(),
{
    let mut r = Vec::new();
    r.push(("แรงสูงเทิง - จุน", "เทิง"));
    r.push(("บริษัท สุริยาพัฒน์ จำกัด", "อุตรดิตถ์ 1"));
    r.push(("บริษัท แสงดี คลีน เพาเวอร์ จำกัด", "พิจิตร"));
    r.push(("ลำปาง 3 (ชั่วคราว) - แจ้ห่ม", "ลำปาง 3 (ช)"));
    r.push(("พิษณุโลก 4 / F2", "พิษณุโลก 4"));
    r.push(("ศรีสัชนาลัย (Add bay)", "ศรีสัชนาลัย"));
    r.push(("คลองขลุง - กำแพงเพชร 2", "คลองขลุง"));
    r.push(("ศรีสัชนาลัย - บ.แสงพัฒน์พลังงาน", "ศรีสัชนาลัย"));
    r.push(("ตะพานหิน - บริษัท ซันเรย์ รีนิวอเบิล เอ็นเนอร์จี จำกัด", "ตะพานหิน"));
    r.push(("มโนรมย์ / F1", "มโนรมย์"));
    r.push(("แรงสูงหล่มสัก - เพชรบูรณ์ 2 (ชั่วคราว)", "เพชรบูรณ์ 2 (ช)"));
    r.push(("แรงสูงท่าตะโก (เพิ่ม Bay)", "ท่าตะโก"));
    r.push(("หันคา -  บริษัท ตะวันแดง 1999 จำกัด", "หันคา"));
    r.push(("บึงสามพัน (ลานไก) - วิเชียรบุรี", "บึงสามพัน"));
    r.push(("ชนแดน - หนองไผ่", "หนองไผ่"));
    r.push(("แรงสูงท่าตะโก - หนองบัว", "ท่าตะโก"));
    r.push(("อ่าวไผ่ 2 - บึง", "อ่าวไผ่ 2"));
    r.push(("อู่ทอง - ดอนเจดีย์", "อู่ทอง 1"));
    r.push(("อ่างทอง 2 - บางปลาม้า", "อ่างทอง 2"));
    r.push(("บ่อพลอย - อู่ทอง", "บ่อพลอย 1"));
    r.push(("ระยะ 1 : แรงสูงเดิมบางนางบวช - ด่านช้าง", "เดิมบางนางบวช"));
    r.push(("ระยะ 2 : เดิมบางนางบวช(ลานไก) - ด่านช้าง", "ด่านช้าง"));
    r.push(("เลาขวัญ - ดอนเจดีย์", "เลาขวัญ"));
    r.push(("ดอนเจดีย์ (เพิ่ม Bay)", "ดอนเจดีย์"));
    r.push(("ด่านมะขามเตี้ย (เพิ่ม Bay)", "ด่านมะขามเตี้ย"));
    r.push(("ระยะ 1 : แรงสูงอุดรธานี 1 - บ้านผือ", "อุดรธานี 1"));
    r.push(("ระยะ 2 : อุดรธานี 5 - บ้านผือ", "อุดรธานี 5 (ช)"));
    r.push(("อุดรธานี 3 (เพิ่ม Bay)", "อุดรธานี 3"));
    r.push(("วานรนิวาส - เซกา", "วานรนิวาส"));
    r.push(("โซ่พิสัย (เพิ่ม Bay)", "โซ่พิสัย"));
    r.push(("โซ่พิสัย - โพนพิสัย", "โพนพิสัย"));
    r.push(("หนองคาย 3 (เพิ่ม Bay)", "หนองคาย 3"));
    r.push(("สว่างแดนดิน - บ้านดุง 2", "บ้านดุง 2"));
    r.push(("แรงสูงประโคนชัย - นางรอง", "นางรอง"));
    r.push(("บุรีรัมย์ 2 (เพิ่ม Bay)", "บุรีรัมย์ 2"));
    r.push(("สำโรงทาบ (เพิ่ม Bay)", "สำโรงทาบ"));
    r.push(("แรงสูงสุรินทร์ 2 (เพิ่ม Bay)", "สุรินทร์ 2"));
    r.push(("เพชรบุรี 2 (เพิ่ม Bay)", "เพชรบุรี 2"));
    r.push(("แรงสูงเพชรบุรี - VSPP บริษัท เอ็นเนอร์จี เซิฟ จำกัด", "เพชรบุรี 1"));
    r.push(("แรงสูงราชบุรี 2 (เพิ่ม Bay)", "ราชบุรี 2"));
    r.push(("ราชบุรี 3 - จอมบึง", "ราชบุรี 3"));
    r.push(("จอมบึง - สวนผึ้ง", "จอมบึง"));
    r.push(("ทุ่งใหญ่ (Add bay)", "ทุ่งใหญ่"));
    r.push(("แรงสูงสตูล - ละงู", "สตูล"));
    r.push(("ปัตตานี 2 (เพิ่ม Bay)", "ปัตตานี 2"));
    r.push(("นาทวี (เพิ่ม Bay)", "นาทวี"));
    r.push(("แรงสูงนราธิวาส - บริษัท กันกุล วัน เอ็นเนอร์ยี่ 2 จำกัด (REP-EG-SF-00346.00)", "นราธิวาส"));
    r.push(("คลองแงะ (ลานไก) - สะเดา 2 (ชั่วคราว)", "คลองแงะ"));
    assert(keyed(r@) =~= sb_th_adj1_names());
    r
}

/// The Thai substation name the table gives for a substation field.
pub fn sb_th_adj1(key: &str) -> (r: Option<&'static str>)
    ensures
        r == table_lookup(sb_th_adj1_names(), key@),
{
    lookup(&sb_th_adj1_table(), key)
}

/// The substation, by Thai name, of a small producer known by its location.
pub open spec fn sb_th_adj2_names() -> Seq<(Seq<char>, &'static str)> {
    seq![
        ("188 ม.17 ต.วะตะแบก อ.เทพสถิต จ.ชัยภูมิ 36230"@, "ชัยภูมิ 1"),
        ("อ.ระโนด จ.สงขลา"@, "สงขลา 1"),
        ("อ.หัวไทร จ.นครศรีธรรมราช"@, "นครศรีธรรมราช 1"),
        ("อ.ปากพนัง จ.นครศรีธรรมราช"@, "นครศรีธรรมราช 1"),
        ("333 ม.7 ต.หนองน้ำใส อ.สีคิ้ว จ.นครราชสีมา 30140"@, "นครราชสีมา 1"),
        ("209 บ.เทพภูทอง 18 ต.วะตะแบก อ.เทพสถิต จ.ชัยภูมิ 36230"@, "ชัยภูมิ 1"),
        ("207 ม.6 ต.หนองแวง อ.เทพารักษ์ จ.นครราชสีมา 30210"@, "นครราชสีมา 1"),
        ("122 1 ต.กฤษณา อ.สีคิ้ว จ.นครราชสีมา 30140"@, "นครราชสีมา 1"),
        ("ต.นายางกลัก อ.เทพสถิต จ.ชัยภูมิ 36230"@, "ชัยภูมิ 1"),
        ("ต.ห้วยยายจิ๋ว อ.เทพสถิต จ.ชัยภูมิ 36230"@, "ชัยภูมิ 1"),
        ("ต.วะตะแบก อ.เทพสถิต จ.ชัยภูมิ 36230"@, "ชัยภูมิ 1"),
        ("ต.โคกเพชรพัฒนา อ.บำเหน็จณรงค์ จ.ชัยภูมิ 36160"@, "ชัยภูมิ 1"),
        ("เลขที่ 333 หมู่ 14 ต.หนองโพ อ.ตาคลี จ.นครสวรรค์"@, "นครสวรรค์ 1"),
        ("ต.ปูโย๊ะ อ.สุไหงโก-ลก จ.นราธิวาส"@, "นราธิวาส"),
        ("ต.โคกเคียน อ.เมืองนราธิวาส จ.นราธิวาส"@, "นราธิวาส"),
        ("ต.นาข่า และ ต.บ้านขาว อ.เมืองอุดรธานี จ.อุดรธานี"@, "อุดรธานี 5"),
        ("แรงสูงสุไหงโกลก"@, "นราธิวาส"),
        ("ต.บ่อกรุ อ.เดิมบางนางบวช จ.สุพรรณบุรี"@, "เดิมบางนางบวช"),
        ("ต.หนองกระทุ่ม และ ต.บ่อกรุ อ.เดิมบางนางบวช จ.สุพรรณบุรี"@, "เดิมบางนางบวช"),
    ]
}

/// The table of `sb_th_adj2_names`: location to Thai substation name.
pub fn sb_th_adj2_table() -> (r: Vec<(&'static str, &'static str)>)
    ensures
        keyed(r@) == sb_th_adj2_names(),
{
    let mut r = Vec::new();
    r.push(("188 ม.17 ต.วะตะแบก อ.เทพสถิต จ.ชัยภูมิ 36230", "ชัยภูมิ 1"));
    r.push(("อ.ระโนด จ.สงขลา", "สงขลา 1"));
    r.push(("อ.หัวไทร จ.นครศรีธรรมราช", "นครศรีธรรมราช 1"));
    r.push(("อ.ปากพนัง จ.นครศรีธรรมราช", "นครศรีธรรมราช 1"));
    r.push(("333 ม.7 ต.หนองน้ำใส อ.สีคิ้ว จ.นครราชสีมา 30140", "นครราชสีมา 1"));
    r.push(("209 บ.เทพภูทอง 18 ต.วะตะแบก อ.เทพสถิต จ.ชัยภูมิ 36230", "ชัยภูมิ 1"));
    r.push(("207 ม.6 ต.หนองแวง อ.เทพารักษ์ จ.นครราชสีมา 30210", "นครราชสีมา 1"));
    r.push(("122 1 ต.กฤษณา อ.สีคิ้ว จ.นครราชสีมา 30140", "นครราชสีมา 1"));
    r.push(("ต.นายางกลัก อ.เทพสถิต จ.ชัยภูมิ 36230", "ชัยภูมิ 1"));
    r.push(("ต.ห้วยยายจิ๋ว อ.เทพสถิต จ.ชัยภูมิ 36230", "ชัยภูมิ 1"));
    r.push(("ต.วะตะแบก อ.เทพสถิต จ.ชัยภูมิ 36230", "ชัยภูมิ 1"));
    r.push(("ต.โคกเพชรพัฒนา อ.บำเหน็จณรงค์ จ.ชัยภูมิ 36160", "ชัยภูมิ 1"));
    r.push(("เลขที่ 333 หมู่ 14 ต.หนองโพ อ.ตาคลี จ.นครสวรรค์", "นครสวรรค์ 1"));
    r.push(("ต.ปูโย๊ะ อ.สุไหงโก-ลก จ.นราธิวาส", "นราธิวาส"));
    r.push(("ต.โคกเคียน อ.เมืองนราธิวาส จ.นราธิวาส", "นราธิวาส"));
    r.push(("ต.นาข่า และ ต.บ้านขาว อ.เมืองอุดรธานี จ.อุดรธานี", "อุดรธานี 5"));
    r.push(("แรงสูงสุไหงโกลก", "นราธิวาส"));
    r.push(("ต.บ่อกรุ อ.เดิมบางนางบวช จ.สุพรรณบุรี", "เดิมบางนางบวช"));
    r.push(("ต.หนองกระทุ่ม และ ต.บ่อกรุ อ.เดิมบางนางบวช จ.สุพรรณบุรี", "เดิมบางนางบวช"));
    assert(keyed(r@) =~= sb_th_adj2_names());
    r
}

/// The Thai substation name the table gives for a location.
pub fn sb_th_adj2(key: &str) -> (r: Option<&'static str>)
    ensures
        r == table_lookup(sb_th_adj2_names(), key@),
{
    lookup(&sb_th_adj2_table(), key)
}

/// The substation, by Thai name, of a very small producer whose substation
/// field is spelled otherwise than the substation list spells it.
pub open spec fn sb_th_vspp_names() -> Seq<(Seq<char>, &'static str)> {
    sb_th_vspp_part1() + sb_th_vspp_part2() + sb_th_vspp_part3()
}

/// Entries of `sb_th_vspp_names`, first part.
pub open spec fn sb_th_vspp_part1() -> Seq<(Seq<char>, &'static str)> {
    seq![
        ("แรงต่ำ ลำพูน 2"@, "ลำพูน 2"),
        ("แรงต่ำ เถิน"@, "เถิน"),
        ("แม่แตง"@, "แม่แตง 1 (ช)"),
        ("ลำปาง1"@, "ลำปาง 1"),
        ("อุตรดิตถ์ 2 (ชั่วคราว)"@, "อุตรดิตถ์ 2 (ช)"),
        ("พิษณุโลก 2"@, "พิษณุโลก 1"),
        ("วชิรบารมี (ถาวร)"@, "วชิรบารมี"),
        ("เขื่อนภูมิพล"@, "เขื่อนภูมิพล (ช)"),
        ("โพธิ์ไทรงาม"@, "โพธิ์ไทรงาม (ช)"),
        ("พรหมพิราม (ชั่วคราว)"@, "พรหมพิราม"),
        ("กำแพงเพชร"@, "กำแพงเพชร 1"),
        ("พัฒนานิคม"@, "พัฒนานิคม 1"),
        ("ชนแดน"@, "เพชรบูรณ์ 1"),
        ("นครสวรรค์ 4 (ชั่วคราว)"@, "นครสวรรค์ 3"),
        ("เพชรบูรณ์"@, "เพชรบูรณ์ 1"),
        ("ลพบุรี 3 (ชั่วคราว)"@, "ลพบุรี 3 (ช)"),
        ("ชัยบาดาล2"@, "ชัยบาดาล 2"),
        ("นโนรมย์"@, "ชัยนาท"),
        ("ศรีมหาโพธิ์"@, "ปราจีนบุรี 1"),
        ("หนองแค"@, "หนองแค 1"),
        ("บ้านใหม่"@, "บ้านใหม่ 1"),
        ("ลาดหลุมแก้ว (ชั่วคราว/F2)"@, "ลาดหลุมแก้ว"),
        ("สระบุรี 6 (ถาวร)"@, "สระบุรี 6"),
        ("บ่อทอง (ชั่วคราว)"@, "บ่อทอง"),
        ("โป่งน้ำร้อน"@, "โป่งน้ำร้อน 1"),
        ("หนองใหญ่"@, "หนองใหญ่ 1"),
        ("บ้านบึง 3 (ชั่วคราว)"@, "บ้านบึง 3 (ช)"),
        ("อีสเทิร์นซีบอร์ด"@, "ปลวกแดง 1"),
        ("เหมราช"@, "เหมราช 1"),
        ("พัทยาเหนือ"@, "พัทยาเหนือ 1"),
        ("บางแสน"@, "บางแสน 1"),
        ("คลองขวาง"@, "คลองขวาง 1"),
        ("จอมเทียน"@, "จอมเทียน 1"),
        ("เพ"@, "บ้านเพ"),
        ("บ้านค่าย"@, "บ้านค่าย 1"),
    ]
}

/// Entries of `sb_th_vspp_names`, second part.
pub open spec fn sb_th_vspp_part2() -> Seq<(Seq<char>, &'static str)> {
    seq![
        ("ปลวกแดง"@, "ปลวกแดง 1"),
        ("ระยอง"@, "ระยอง 1"),
        ("ศรีราชา"@, "ศรีราชา 1"),
        ("บ้านบึง 3"@, "บ้านบึง 3"),
        ("ฉะเชิงเทรา"@, "ฉะเชิงเทรา 1"),
        ("แกลง"@, "แกลง 1"),
        ("พัทยาใต้"@, "พัทยาใต้ 1"),
        ("จันทบุรี"@, "จันทบุรี 1"),
        ("แหลมฉบัง"@, "แหลมฉบัง 1"),
        ("ชัยเขต"@, "สนามชัยเขต"),
        ("อู่ทอง"@, "อู่ทอง 1"),
        ("สองพี่น้อง"@, "สองพี่น้อง 1"),
        ("บางเลน"@, "บางเลน 1"),
        ("ท่ามะกา"@, "ท่ามะกา 1"),
        ("ท่ามะกา 2 (ชั่วคราว)"@, "ท่ามะกา 2 (ช)"),
        ("ท่าม่วง"@, "ท่าม่วง 1"),
        ("เลาขวัญ (ชั่วคราว)"@, "เลาขวัญ"),
        ("บ่อพลอย"@, "บ่อพลอย 1"),
        ("ท่าม่วง 2 (ชั่วคราว)"@, "ท่าม่วง 2 (ช)"),
        ("นครพนม"@, "นครพนม 1"),
        ("บึงกาฬ"@, "บึงกาฬ 1"),
        ("หนองคาย 2"@, "หนองคาย 2 (ช)"),
        ("สกลนคร"@, "สกลนคร 1"),
        ("กุฉินารายณ์ (ชั่วคราว)"@, "กุฉินารายณ์ "),
        ("กาฬสินธุ์"@, "กาฬสินธุ์ 1"),
        ("ศรีสะเกษ"@, "ศรีสะเกษ 1"),
        ("กันทรลักษ์"@, "กันทรลักษ์ 1"),
        ("อุบลราชธานี 3"@, "อุบลราชธานี 2"),
        ("มหาสารคาม"@, "มหาสารคาม 1"),
        ("บุรีรัมย์"@, "บุรีรัมย์ 1"),
        ("ปราสาท"@, "ปราสาท 1"),
        ("ด่านขุนทด"@, "ด่านขุนทด 1"),
        ("สีคิ้ว"@, "สีคิ้ว 1"),
        ("โชคชัย"@, "โชคชัย 1"),
        ("ปักธงชัย (ชั่วคราว)"@, "ปักธงชัย"),
    ]
}

/// Entries of `sb_th_vspp_names`, third part.
pub open spec fn sb_th_vspp_part3() -> Seq<(Seq<char>, &'static str)> {
    seq![
        ("โคกกรวด 2 (ชั่วคราว)"@, "โคกกรวด 2 (ช)"),
        ("เกษตรสมบูรณ์"@, "เกษตรสมบูรณ์ 1"),
        ("ชัยภูมิ 2 (ชั่วคราว)"@, "ชัยภูมิ 2"),
        ("โชคชัย 1 "@, "โชคชัย 1"),
        ("อ่าวไผ่"@, "อ่าวไผ่"),
        ("มาบตาพุด"@, "มาบตาพุด 1"),
        ("วชิราลงกรณ์"@, "วกาญจนบุรี 1"),
        ("บ่อพลอย 2 (ชั่วคราว)"@, "บ่อพลอย 2"),
        ("ศรีประจันต์"@, "ศรีประจันต์ (ช)"),
        ("อู่ทอง1"@, "อู่ทอง 1"),
        ("หนองคาย1"@, "หนองคาย 1"),
        ("นครราชสีมา 9 (ชั่วคราว)"@, "นครราชสีมา 7 (ช)"),
        ("สวนผึ้ง (ชั่วคราว)"@, "สวนผึ้ง"),
        ("ชะอำ2 - หัวหิน3 (ใช้ Terminal ร่วมกัน บจก.อิเควเตอร์ โซลาร์)"@, "ชะอำ 2"),
        ("นิคมอุตสาหกรรมราชบุรี (ชั่งคราว)"@, "นิคมอุตสาหกรรมราชบุรี (ช)"),
        ("จอมบึง 2"@, "จอมบึง"),
        ("ประจวบฯ"@, "ประจวบคีรีขันธ์"),
        ("หัวหิน"@, "หัวหิน"),
        ("ศรีมหาโพธิ"@, "ศรีมหาโพธิ 1"),
        ("KDA"@, "เขื่อนแก่งกระจาน"),
        ("คลองท่อม(ชั่วคราว)"@, "คลองท่อม"),
        ("พุนพิน2"@, "พุนพิน 2"),
        ("ขนอม"@, "นครศรีธรรมราช"),
        ("เขื่อนเชี่ยวหลาน"@, "เขื่อนเชี่ยวหลาน 1"),
        ("เวียงสระ1"@, "เวียงสระ"),
        ("เวียงสระ 1"@, "เวียงสระ"),
        ("คลองท่อม (ชั่วคราว)"@, "คลองท่อม"),
        ("พังงา"@, "พังงา"),
        ("สงขลา 3 (ชั่วคราว)"@, "สงขลา 3 (ช)"),
        ("แรงต่ำ 380 V สงขลา 1"@, "สงขลา 1"),
        ("แรงต่ำ 380 V หาดใหญ่ 1"@, "หาดใหญ่ 1"),
        ("แรงต่ำ 380 V หาดใหญ่ 3"@, "หาดใหญ่ 3"),
        ("สุไหงโกลก"@, "สุไหงโก-ลก"),
        ("เขื่อนบางลาง"@, "ยะลา 1"),
        ("สงขลา 3"@, "สงขลา 3 (ช)"),
    ]
}

fn sb_th_vspp_rows1() -> (r: Vec<(&'static str, &'static str)>)
    ensures
        keyed(r@) == sb_th_vspp_part1(),
{
    let mut r = Vec::new();
    r.push(("แรงต่ำ ลำพูน 2", "ลำพูน 2"));
    r.push(("แรงต่ำ เถิน", "เถิน"));
    r.push(("แม่แตง", "แม่แตง 1 (ช)"));
    r.push(("ลำปาง1", "ลำปาง 1"));
    r.push(("อุตรดิตถ์ 2 (ชั่วคราว)", "อุตรดิตถ์ 2 (ช)"));
    r.push(("พิษณุโลก 2", "พิษณุโลก 1"));
    r.push(("วชิรบารมี (ถาวร)", "วชิรบารมี"));
    r.push(("เขื่อนภูมิพล", "เขื่อนภูมิพล (ช)"));
    r.push(("โพธิ์ไทรงาม", "โพธิ์ไทรงาม (ช)"));
    r.push(("พรหมพิราม (ชั่วคราว)", "พรหมพิราม"));
    r.push(("กำแพงเพชร", "กำแพงเพชร 1"));
    r.push(("พัฒนานิคม", "พัฒนานิคม 1"));
    r.push(("ชนแดน", "เพชรบูรณ์ 1"));
    r.push(("นครสวรรค์ 4 (ชั่วคราว)", "นครสวรรค์ 3"));
    r.push(("เพชรบูรณ์", "เพชรบูรณ์ 1"));
    r.push(("ลพบุรี 3 (ชั่วคราว)", "ลพบุรี 3 (ช)"));
    r.push(("ชัยบาดาล2", "ชัยบาดาล 2"));
    r.push(("นโนรมย์", "ชัยนาท"));
    r.push(("ศรีมหาโพธิ์", "ปราจีนบุรี 1"));
    r.push(("หนองแค", "หนองแค 1"));
    r.push(("บ้านใหม่", "บ้านใหม่ 1"));
    r.push(("ลาดหลุมแก้ว (ชั่วคราว/F2)", "ลาดหลุมแก้ว"));
    r.push(("สระบุรี 6 (ถาวร)", "สระบุรี 6"));
    r.push(("บ่อทอง (ชั่วคราว)", "บ่อทอง"));
    r.push(("โป่งน้ำร้อน", "โป่งน้ำร้อน 1"));
    r.push(("หนองใหญ่", "หนองใหญ่ 1"));
    r.push(("บ้านบึง 3 (ชั่วคราว)", "บ้านบึง 3 (ช)"));
    r.push(("อีสเทิร์นซีบอร์ด", "ปลวกแดง 1"));
    r.push(("เหมราช", "เหมราช 1"));
    r.push(("พัทยาเหนือ", "พัทยาเหนือ 1"));
    r.push(("บางแสน", "บางแสน 1"));
    r.push(("คลองขวาง", "คลองขวาง 1"));
    r.push(("จอมเทียน", "จอมเทียน 1"));
    r.push(("เพ", "บ้านเพ"));
    r.push(("บ้านค่าย", "บ้านค่าย 1"));
    assert(keyed(r@) =~= sb_th_vspp_part1());
    r
}

fn sb_th_vspp_rows2() -> (r: Vec<(&'static str, &'static str)>)
    ensures
        keyed(r@) == sb_th_vspp_part2(),
{
    let mut r = Vec::new();
    r.push(("ปลวกแดง", "ปลวกแดง 1"));
    r.push(("ระยอง", "ระยอง 1"));
    r.push(("ศรีราชา", "ศรีราชา 1"));
    r.push(("บ้านบึง 3", "บ้านบึง 3"));
    r.push(("ฉะเชิงเทรา", "ฉะเชิงเทรา 1"));
    r.push(("แกลง", "แกลง 1"));
    r.push(("พัทยาใต้", "พัทยาใต้ 1"));
    r.push(("จันทบุรี", "จันทบุรี 1"));
    r.push(("แหลมฉบัง", "แหลมฉบัง 1"));
    r.push(("ชัยเขต", "สนามชัยเขต"));
    r.push(("อู่ทอง", "อู่ทอง 1"));
    r.push(("สองพี่น้อง", "สองพี่น้อง 1"));
    r.push(("บางเลน", "บางเลน 1"));
    r.push(("ท่ามะกา", "ท่ามะกา 1"));
    r.push(("ท่ามะกา 2 (ชั่วคราว)", "ท่ามะกา 2 (ช)"));
    r.push(("ท่าม่วง", "ท่าม่วง 1"));
    r.push(("เลาขวัญ (ชั่วคราว)", "เลาขวัญ"));
    r.push(("บ่อพลอย", "บ่อพลอย 1"));
    r.push(("ท่าม่วง 2 (ชั่วคราว)", "ท่าม่วง 2 (ช)"));
    r.push(("นครพนม", "นครพนม 1"));
    r.push(("บึงกาฬ", "บึงกาฬ 1"));
    r.push(("หนองคาย 2", "หนองคาย 2 (ช)"));
    r.push(("สกลนคร", "สกลนคร 1"));
    r.push(("กุฉินารายณ์ (ชั่วคราว)", "กุฉินารายณ์ "));
    r.push(("กาฬสินธุ์", "กาฬสินธุ์ 1"));
    r.push(("ศรีสะเกษ", "ศรีสะเกษ 1"));
    r.push(("กันทรลักษ์", "กันทรลักษ์ 1"));
    r.push(("อุบลราชธานี 3", "อุบลราชธานี 2"));
    r.push(("มหาสารคาม", "มหาสารคาม 1"));
    r.push(("บุรีรัมย์", "บุรีรัมย์ 1"));
    r.push(("ปราสาท", "ปราสาท 1"));
    r.push(("ด่านขุนทด", "ด่านขุนทด 1"));
    r.push(("สีคิ้ว", "สีคิ้ว 1"));
    r.push(("โชคชัย", "โชคชัย 1"));
    r.push(("ปักธงชัย (ชั่วคราว)", "ปักธงชัย"));
    assert(keyed(r@) =~= sb_th_vspp_part2());
    r
}

fn sb_th_vspp_rows3() -> (r: Vec<(&'static str, &'static str)>)
    ensures
        keyed(r@) == sb_th_vspp_part3(),
{
    let mut r = Vec::new();
    r.push(("โคกกรวด 2 (ชั่วคราว)", "โคกกรวด 2 (ช)"));
    r.push(("เกษตรสมบูรณ์", "เกษตรสมบูรณ์ 1"));
    r.push(("ชัยภูมิ 2 (ชั่วคราว)", "ชัยภูมิ 2"));
    r.push(("โชคชัย 1 ", "โชคชัย 1"));
    r.push(("อ่าวไผ่", "อ่าวไผ่"));
    r.push(("มาบตาพุด", "มาบตาพุด 1"));
    r.push(("วชิราลงกรณ์", "วกาญจนบุรี 1"));
    r.push(("บ่อพลอย 2 (ชั่วคราว)", "บ่อพลอย 2"));
    r.push(("ศรีประจันต์", "ศรีประจันต์ (ช)"));
    r.push(("อู่ทอง1", "อู่ทอง 1"));
    r.push(("หนองคาย1", "หนองคาย 1"));
    r.push(("นครราชสีมา 9 (ชั่วคราว)", "นครราชสีมา 7 (ช)"));
    r.push(("สวนผึ้ง (ชั่วคราว)", "สวนผึ้ง"));
    r.push(("ชะอำ2 - หัวหิน3 (ใช้ Terminal ร่วมกัน บจก.อิเควเตอร์ โซลาร์)", "ชะอำ 2"));
    r.push(("นิคมอุตสาหกรรมราชบุรี (ชั่งคราว)", "นิคมอุตสาหกรรมราชบุรี (ช)"));
    r.push(("จอมบึง 2", "จอมบึง"));
    r.push(("ประจวบฯ", "ประจวบคีรีขันธ์"));
    r.push(("หัวหิน", "หัวหิน"));
    r.push(("ศรีมหาโพธิ", "ศรีมหาโพธิ 1"));
    r.push(("KDA", "เขื่อนแก่งกระจาน"));
    r.push(("คลองท่อม(ชั่วคราว)", "คลองท่อม"));
    r.push(("พุนพิน2", "พุนพิน 2"));
    r.push(("ขนอม", "นครศรีธรรมราช"));
    r.push(("เขื่อนเชี่ยวหลาน", "เขื่อนเชี่ยวหลาน 1"));
    r.push(("เวียงสระ1", "เวียงสระ"));
    r.push(("เวียงสระ 1", "เวียงสระ"));
    r.push(("คลองท่อม (ชั่วคราว)", "คลองท่อม"));
    r.push(("พังงา", "พังงา"));
    r.push(("สงขลา 3 (ชั่วคราว)", "สงขลา 3 (ช)"));
    r.push(("แรงต่ำ 380 V สงขลา 1", "สงขลา 1"));
    r.push(("แรงต่ำ 380 V หาดใหญ่ 1", "หาดใหญ่ 1"));
    r.push(("แรงต่ำ 380 V หาดใหญ่ 3", "หาดใหญ่ 3"));
    r.push(("สุไหงโกลก", "สุไหงโก-ลก"));
    r.push(("เขื่อนบางลาง", "ยะลา 1"));
    r.push(("สงขลา 3", "สงขลา 3 (ช)"));
    assert(keyed(r@) =~= sb_th_vspp_part3());
    r
}

/// The table of `sb_th_vspp_names`: substation field to Thai substation name.
pub fn sb_th_vspp_table() -> (r: Vec<(&'static str, &'static str)>)
    ensures
        keyed(r@) == sb_th_vspp_names(),
{
    let mut r = sb_th_vspp_rows1();
    let mut b = sb_th_vspp_rows2();
    let mut c = sb_th_vspp_rows3();
    let ghost (ra, rb, rc) = (r@, b@, c@);
    r.append(&mut b);
    r.append(&mut c);
    assert(r@ == ra + rb + rc);
    assert(keyed(ra + rb + rc) =~= keyed(ra) + keyed(rb) + keyed(rc));
    r
}

/// The Thai substation name the table gives for a substation field.
pub fn sb_th_vspp(key: &str) -> (r: Option<&'static str>)
    ensures
        r == table_lookup(sb_th_vspp_names(), key@),
{
    lookup(&sb_th_vspp_table(), key)
}


// ---------------------------------------------------------------------------
// The substation of each producer.

/// The id of the first substation of `names` (Thai name, id) named `th`.
pub open spec fn sub_named(names: Seq<(String, String)>, th: Seq<char>) -> Option<Seq<char>>
    decreases names.len(),
{
    if names.len() == 0 {
        None
    } else if names[0].0@ == th {
        Some(names[0].1@)
    } else {
        sub_named(names.drop_first(), th)
    }
}

/// The id of the first substation of `names` named `th`.
fn sub_id_named(names: &Vec<(String, String)>, th: &str) -> (r: Option<String>)
    ensures
        match r {
            Some(id) => sub_named(names@, th@) == Some(id@),
            None => sub_named(names@, th@) is None,
        },
{
    let mut i: usize = 0;
    assert(names@.subrange(0, names@.len() as int) =~= names@);
    while i < names.len()
        invariant
            i <= names@.len(),
            sub_named(names@, th@) == sub_named(names@.subrange(i as int, names@.len() as int), th@),
        decreases names@.len() - i,
    {
        let ghost rest = names@.subrange(i as int, names@.len() as int);
        assert(rest.drop_first() =~= names@.subrange(i + 1, names@.len() as int));
        if str_eq(names[i].0.as_str(), th) {
            return Some(names[i].1.clone());
        }
        i = i + 1;
    }
    None
}

/// The id that stands for a producer whose substation was not found.
pub open spec fn unresolved() -> Seq<char> {
    seq!['_', '_', '_']
}

/// A found substation id, or the id that stands for none.
pub open spec fn sub_or_unresolved(id: Option<Seq<char>>) -> Seq<char> {
    match id {
        Some(s) => s,
        None => unresolved(),
    }
}

fn unresolved_id() -> (r: String)
    ensures
        r@ == unresolved(),
{
    let r = "___".to_owned();
    proof {
        reveal_strlit("___");
    }
    r
}

/// The substation of a small producer with substation field `sub` and
/// location `loc`: when both are given, the substation of that name, or else
/// the one the first adjustment table names for the field.
pub open spec fn spp_sub_of(names: Seq<(String, String)>, sub: Option<&str>, loc: Option<&str>) -> Option<Seq<char>> {
    match (sub, loc) {
        (Some(sb), Some(_)) => match sub_named(names, sb@) {
            Some(id) => Some(id),
            None => match table_lookup(sb_th_adj1_names(), sb@) {
                Some(th) => sub_named(names, th@),
                None => None,
            },
        },
        _ => None,
    }
}

/// The substation id of a small producer, or `___` when none is found;
/// `names` lists the substations by Thai name and id, the first entry of a
/// name counting. A location found in the second adjustment table leads
/// back to the lookup by the substation field, which has failed by then.
pub fn spp_substation(names: &Vec<(String, String)>, sub: Option<&str>, loc: Option<&str>) -> (r: String)
    ensures
        r@ == sub_or_unresolved(spp_sub_of(names@, sub, loc)),
{
    match (sub, loc) {
        (Some(sb), Some(lo)) => {
            match sub_id_named(names, sb) {
                Some(id) => id,
                None => match sb_th_adj1(sb) {
                    Some(th) => match sub_id_named(names, th) {
                        Some(id) => id,
                        None => unresolved_id(),
                    },
                    None => match sb_th_adj2(lo) {
                        Some(_) => match sub_id_named(names, sb) {
                            Some(id) => id,
                            None => unresolved_id(),
                        },
                        None => unresolved_id(),
                    },
                },
            }
        },
        _ => unresolved_id(),
    }
}

/// Some substation of `sub_ids` has id `id`.
pub open spec fn has_sub(sub_ids: Seq<String>, id: Seq<char>) -> bool {
    exists|i: int| 0 <= i < sub_ids.len() && #[trigger] sub_ids[i]@ == id
}

/// The substation of a very small producer with substation field `sbnm` and
/// a feeder number (`has_feeder`): when both are given, the field itself if
/// it is a substation id, or else the substation of that name, or else the
/// one the table of very small producers names for the field.
pub open spec fn vspp_sub_of(names: Seq<(String, String)>, sub_ids: Seq<String>, sbnm: Option<&str>, has_feeder: bool) -> Option<Seq<char>> {
    match sbnm {
        Some(sb) => if !has_feeder {
            None
        } else if has_sub(sub_ids, sb@) {
            Some(sb@)
        } else {
            match sub_named(names, sb@) {
                Some(id) => Some(id),
                None => match table_lookup(sb_th_vspp_names(), sb@) {
                    Some(th) => sub_named(names, th@),
                    None => None,
                },
            }
        },
        None => None,
    }
}

fn is_sub_id(sub_ids: &Vec<String>, id: &str) -> (r: bool)
    ensures
        r == has_sub(sub_ids@, id@),
{
    let mut i: usize = 0;
    while i < sub_ids.len()
        invariant
            i <= sub_ids@.len(),
            forall|j: int| 0 <= j < i ==> #[trigger] sub_ids@[j]@ != id@,
        decreases sub_ids@.len() - i,
    {
        if str_eq(sub_ids[i].as_str(), id) {
            return true;
        }
        i = i + 1;
    }
    false
}

/// The substation id of a very small producer, or `___` when none is found;
/// `sub_ids` are the ids of the area's substations and `names` lists the
/// substations by Thai name and id, the first entry of a name counting.
pub fn vspp_substation(names: &Vec<(String, String)>, sub_ids: &Vec<String>, sbnm: Option<&str>, fdno: Option<u32>) -> (r: String)
    ensures
        r@ == sub_or_unresolved(vspp_sub_of(names@, sub_ids@, sbnm, fdno is Some)),
{
    match (sbnm, fdno) {
        (Some(sb), Some(_)) => {
            if is_sub_id(sub_ids, sb) {
                sb.to_owned()
            } else {
                match sub_id_named(names, sb) {
                    Some(id) => id,
                    None => match sb_th_vspp(sb) {
                        Some(th) => match sub_id_named(names, th) {
                            Some(id) => id,
                            None => unresolved_id(),
                        },
                        None => unresolved_id(),
                    },
                }
            }
        },
        _ => unresolved_id(),
    }
}

/// Substation `s` is the last with its id.
pub open spec fn last_of_id(sub_ids: Seq<String>, s: int) -> bool {
    forall|t: int| s < t < sub_ids.len() ==> #[trigger] sub_ids[t]@ != sub_ids[s]@
}

/// The producers of substation `s`: those with its id when it is the last
/// substation with that id, none otherwise.
pub open spec fn sub_producers(prod_sbids: Seq<Option<String>>, sub_ids: Seq<String>, s: int) -> Seq<usize> {
    if last_of_id(sub_ids, s) {
        positions_of(prod_sbids, sub_ids[s]@)
    } else {
        Seq::empty()
    }
}

proof fn lemma_positions_of(ps: Seq<Option<String>>, id: Seq<char>, p: usize)
    requires
        ps.len() <= usize::MAX,
    ensures
        positions_of(ps, id).contains(p) <==> (p < ps.len() && (ps[p as int] matches Some(k) && k@ == id)),
    decreases ps.len(),
{
    if ps.len() > 0 {
        let rest = ps.drop_last();
        let rr = positions_of(rest, id);
        let last = (ps.len() - 1) as usize;
        lemma_positions_of(rest, id, p);
        if p < rest.len() {
            assert(rest[p as int] == ps[p as int]);
        }
        if ps.last() matches Some(k) && k@ == id {
            let r = rr.push(last);
            assert(r.contains(p) <==> (rr.contains(p) || p == last)) by {
                if r.contains(p) && p != last {
                    let k = choose|k: int| 0 <= k < r.len() && r[k] == p;
                    assert(k < rr.len());
                    assert(rr[k] == p);
                }
                if rr.contains(p) {
                    let k = choose|k: int| 0 <= k < rr.len() && rr[k] == p;
                    assert(r[k] == p);
                }
                if p == last {
                    assert(r[r.len() - 1] == p);
                }
            }
        }
    }
}

/// The last substation, from `s` on, with the id that substation `s` has.
proof fn lemma_last_with_id(sub_ids: Seq<String>, id: Seq<char>, s: int) -> (l: int)
    requires
        0 <= s < sub_ids.len(),
        sub_ids[s]@ == id,
    ensures
        s <= l < sub_ids.len(),
        sub_ids[l]@ == id,
        last_of_id(sub_ids, l),
    decreases sub_ids.len() - s,
{
    if exists|u: int| s < u < sub_ids.len() && #[trigger] sub_ids[u]@ == id {
        let u = choose|u: int| s < u < sub_ids.len() && #[trigger] sub_ids[u]@ == id;
        lemma_last_with_id(sub_ids, id, u)
    } else {
        s
    }
}

/// Every producer whose substation id is that of some substation goes to
/// exactly one substation.
pub proof fn lemma_producer_in_one_sub(prod_sbids: Seq<Option<String>>, sub_ids: Seq<String>, p: usize)
    requires
        prod_sbids.len() <= usize::MAX,
        p < prod_sbids.len(),
        prod_sbids[p as int] is Some,
        exists|s: int| 0 <= s < sub_ids.len() && #[trigger] sub_ids[s]@ == prod_sbids[p as int]->0@,
    ensures
        exists|s: int| 0 <= s < sub_ids.len() && #[trigger] sub_producers(prod_sbids, sub_ids, s).contains(p),
        forall|s: int, t: int|
            0 <= s < sub_ids.len() && 0 <= t < sub_ids.len() && #[trigger] sub_producers(prod_sbids, sub_ids, s).contains(p)
                && #[trigger] sub_producers(prod_sbids, sub_ids, t).contains(p) ==> s == t,
{
    let s0 = choose|s: int| 0 <= s < sub_ids.len() && #[trigger] sub_ids[s]@ == prod_sbids[p as int]->0@;
    let id = prod_sbids[p as int]->0@;
    let l = lemma_last_with_id(sub_ids, id, s0);
    lemma_positions_of(prod_sbids, id, p);
    assert(last_of_id(sub_ids, l));
    assert(sub_producers(prod_sbids, sub_ids, l).contains(p));
    assert forall|s: int, t: int|
        0 <= s < sub_ids.len() && 0 <= t < sub_ids.len() && #[trigger] sub_producers(prod_sbids, sub_ids, s).contains(p)
            && #[trigger] sub_producers(prod_sbids, sub_ids, t).contains(p) implies s == t by {
        lemma_positions_of(prod_sbids, sub_ids[s]@, p);
        lemma_positions_of(prod_sbids, sub_ids[t]@, p);
        if s < t {
            assert(sub_ids[t]@ != sub_ids[s]@);
        } else if t < s {
            assert(sub_ids[s]@ != sub_ids[t]@);
        }
    }
}

/// For each substation (or transformer) of `sub_ids`, the producers
/// (positions in `prod_sbids`, the id found for each producer, if any) that
/// feed it; of several substations with one id, the last one takes the
/// producers.
pub fn producers_of_subs(prod_sbids: &Vec<Option<String>>, sub_ids: &Vec<String>) -> (r: Vec<Vec<usize>>)
    ensures
        r@.len() == sub_ids@.len(),
        forall|s: int| 0 <= s < sub_ids@.len() ==> #[trigger] r@[s]@ == sub_producers(prod_sbids@, sub_ids@, s),
{
    let mut r: Vec<Vec<usize>> = Vec::new();
    let mut s: usize = 0;
    while s < sub_ids.len()
        invariant
            s <= sub_ids@.len(),
            r@.len() == s,
            forall|t: int| 0 <= t < s ==> #[trigger] r@[t]@ == sub_producers(prod_sbids@, sub_ids@, t),
        decreases sub_ids@.len() - s,
    {
        let mut last = true;
        let mut t = s + 1;
        while t < sub_ids.len()
            invariant
                s < t <= sub_ids@.len(),
                last == forall|u: int| s < u < t ==> #[trigger] sub_ids@[u]@ != sub_ids@[s as int]@,
            decreases sub_ids@.len() - t,
        {
            if str_eq(sub_ids[t].as_str(), sub_ids[s].as_str()) {
                last = false;
            }
            t = t + 1;
        }
        if last {
            r.push(positions(prod_sbids, sub_ids[s].as_str()));
        } else {
            r.push(Vec::new());
        }
        s = s + 1;
    }
    r
}

} // verus!
