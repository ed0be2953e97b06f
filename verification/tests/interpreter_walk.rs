use save_decoder::interpreter::{indent, interpret, read_type_specific_header, walk_top_level, Fragment, InterpretResult};

fn fstr(s: &str) -> Vec<u8> {
    let mut v = ((s.len() + 1) as i32).to_le_bytes().to_vec();
    v.extend_from_slice(s.as_bytes());
    v.push(0);
    v
}

fn header() -> Vec<u8> {
    let mut v = b"GVAS".to_vec();
    v.extend_from_slice(&2u32.to_le_bytes());
    v.extend_from_slice(&0x20Bu32.to_le_bytes());
    v.extend_from_slice(&4u16.to_le_bytes());
    v.extend_from_slice(&27u16.to_le_bytes());
    v.extend_from_slice(&2u16.to_le_bytes());
    v.extend_from_slice(&0u32.to_le_bytes());
    v.extend(fstr("++UE4+Release-4.27"));
    v.extend_from_slice(&3u32.to_le_bytes());
    v.extend_from_slice(&0u32.to_le_bytes());
    v.extend(fstr("/Script/Game.SaveData"));
    v
}

fn prop(name: &str, ptype: &str, type_header: Vec<u8>, value: &[u8], array_index: u32) -> Vec<u8> {
    let mut v = fstr(name);
    v.extend(fstr(ptype));
    v.extend_from_slice(&(value.len() as u32).to_le_bytes());
    v.extend_from_slice(&array_index.to_le_bytes());
    v.extend(type_header);
    v.push(0);
    v.extend_from_slice(value);
    v
}

fn int_prop(name: &str, value: i32) -> Vec<u8> {
    prop(name, "IntProperty", vec![], &value.to_le_bytes(), 0)
}

fn bool_prop(name: &str, value: bool) -> Vec<u8> {
    let mut v = fstr(name);
    v.extend(fstr("BoolProperty"));
    v.extend_from_slice(&[0u8; 8]);
    v.push(value as u8);
    v.push(0);
    v
}

fn struct_prop(name: &str, struct_type: &str, body: &[u8]) -> Vec<u8> {
    let mut th = fstr(struct_type);
    th.extend_from_slice(&[0u8; 16]);
    prop(name, "StructProperty", th, body, 0)
}

fn save(props: &[Vec<u8>]) -> Vec<u8> {
    let mut v = header();
    for p in props {
        v.extend_from_slice(p);
    }
    v.extend(fstr("None"));
    v.extend_from_slice(&[0u8; 4]);
    v
}

fn render(frags: &[Fragment]) -> String {
    let mut out = String::new();
    for f in frags {
        match f {
            Fragment::Text(s) => out.push_str(s),
            Fragment::Float32(b) => out.push_str(&f32::from_bits(*b).to_string()),
            Fragment::Float64(b) => out.push_str(&f64::from_bits(*b).to_string()),
            Fragment::Timespan(t) => {
                let seconds = *t as f64 / 10_000_000.0;
                let hours = seconds / 3600.0;
                out.push_str(&format!("{hours:.2} hours ({seconds:.0}s)"));
            }
        }
    }
    out
}

fn text_of(r: &InterpretResult) -> String {
    render(&r.text)
}

#[test]
fn simple_scalars_are_listed() {
    let data = save(&[int_prop("Level", 42), bool_prop("IsDead", false), bool_prop("Hardcore", true)]);
    let r = interpret(&data);
    assert_eq!(text_of(&r), "Level: IntProperty = 42\nIsDead: BoolProperty = false\nHardcore: BoolProperty = true\n");
    assert_eq!(r.properties_found, 3);
    assert!(!r.stopped_early);
}

#[test]
fn signed_and_unsigned_numbers() {
    let data = save(&[
        int_prop("Gold", -5),
        prop("Big", "UInt64Property", vec![], &u64::MAX.to_le_bytes(), 0),
        prop("Small", "Int8Property", vec![], &[0x80], 0),
        prop("Short", "Int16Property", vec![], &(-300i16).to_le_bytes(), 0),
        prop("Long", "Int64Property", vec![], &i64::MIN.to_le_bytes(), 0),
        prop("U", "UInt32Property", vec![], &7u32.to_le_bytes(), 0),
    ]);
    let r = interpret(&data);
    assert_eq!(
        text_of(&r),
        "Gold: IntProperty = -5\nBig: UInt64Property = 18446744073709551615\nSmall: Int8Property = -128\n\
         Short: Int16Property = -300\nLong: Int64Property = -9223372036854775808\nU: UInt32Property = 7\n"
    );
}

#[test]
fn array_index_note() {
    let data = save(&[prop("Skill", "IntProperty", vec![], &3i32.to_le_bytes(), 2)]);
    assert_eq!(text_of(&interpret(&data)), "Skill [2]: IntProperty = 3\n");
}

#[test]
fn floats_stay_as_bit_patterns() {
    let data = save(&[
        prop("Speed", "FloatProperty", vec![], &1.5f32.to_le_bytes(), 0),
        prop("Exact", "DoubleProperty", vec![], &0.25f64.to_le_bytes(), 0),
    ]);
    let r = interpret(&data);
    assert_eq!(
        r.text,
        vec![
            Fragment::Text("Speed: FloatProperty = ".to_string()),
            Fragment::Float32(1.5f32.to_bits()),
            Fragment::Text("\n".to_string()),
            Fragment::Text("Exact: DoubleProperty = ".to_string()),
            Fragment::Float64(0.25f64.to_bits()),
            Fragment::Text("\n".to_string()),
        ]
    );
    assert_eq!(text_of(&r), "Speed: FloatProperty = 1.5\nExact: DoubleProperty = 0.25\n");
}

#[test]
fn strings_names_bytes_and_enums() {
    let data = save(&[
        prop("Hero", "StrProperty", vec![], &fstr("Sir Ralph"), 0),
        prop("Empty", "StrProperty", vec![], &0i32.to_le_bytes(), 0),
        prop("Region", "NameProperty", vec![], &fstr("Cyrodiil"), 0),
        prop("Mood", "ByteProperty", fstr("None"), &[9], 0),
        prop("Class", "ByteProperty", fstr("EClass"), &fstr("EClass::Mage"), 0),
        prop("Sign", "EnumProperty", fstr("ESign"), &fstr("ESign::Lord"), 0),
    ]);
    assert_eq!(
        text_of(&interpret(&data)),
        "Hero: StrProperty = Sir Ralph\nEmpty: StrProperty = \nRegion: NameProperty = Cyrodiil\n\
         Mood: ByteProperty<None> = 9\nClass: ByteProperty<EClass> = EClass::Mage\n\
         Sign: EnumProperty<ESign> = <16 bytes>\n"
    );
}

#[test]
fn unknown_values_are_shown_by_size() {
    let mut arr = 3u32.to_le_bytes().to_vec();
    for i in 0..3i32 {
        arr.extend_from_slice(&i.to_le_bytes());
    }
    let mut map_th = fstr("StrProperty");
    map_th.extend(fstr("IntProperty"));
    let data = save(&[
        prop("Ids", "ArrayProperty", fstr("IntProperty"), &arr, 0),
        prop("Table", "MapProperty", map_th, &[0u8; 8], 0),
        prop("Odd", "WeirdProperty", vec![], &[1, 2, 3], 0),
    ]);
    assert_eq!(
        text_of(&interpret(&data)),
        "Ids: ArrayProperty<IntProperty> = <16 bytes>\nTable: MapProperty<StrProperty -> IntProperty> = <8 bytes>\n\
         Odd: WeirdProperty = <3 bytes>\n"
    );
}

#[test]
fn nested_struct_is_walked() {
    let mut body = int_prop("Gold", 100);
    body.extend(bool_prop("Rich", true));
    body.extend(fstr("None"));
    let data = save(&[struct_prop("Stats", "PlayerStats", &body), int_prop("After", 1)]);
    let r = interpret(&data);
    assert_eq!(
        text_of(&r),
        "Stats: StructProperty<PlayerStats> {\n  Gold: IntProperty = 100\n  Rich: BoolProperty = true\n}\nAfter: IntProperty = 1\n"
    );
    assert_eq!(r.properties_found, 2);
}

#[test]
fn trailing_struct_bytes_are_noted() {
    let mut body = int_prop("Gold", 1);
    body.extend(fstr("None"));
    body.extend_from_slice(&[0xAA, 0xBB, 0xCC]);
    let data = save(&[struct_prop("Stats", "PlayerStats", &body)]);
    assert_eq!(
        text_of(&interpret(&data)),
        "Stats: StructProperty<PlayerStats> {\n  Gold: IntProperty = 1\n  [+ 3 more bytes of non-property data]\n}\n"
    );
}

#[test]
fn unwalkable_struct_is_shown_by_size_and_walk_resumes() {
    let body = [1u8, 2, 3, 4, 5];
    let data = save(&[struct_prop("Blob", "Opaque", &body), int_prop("Next", 7)]);
    assert_eq!(
        text_of(&interpret(&data)),
        "Blob: StructProperty<Opaque> = <5 bytes>\nNext: IntProperty = 7\n"
    );
}

#[test]
fn blittable_structs_are_decoded() {
    let guid: Vec<u8> = (0u8..16).collect();
    let date_ticks: i64 = 621_355_968_000_000_000 + 10_000_000 * 1000;
    let span_ticks: i64 = 36_000_000_000 * 3;
    let data = save(&[
        struct_prop("Id", "Guid", &guid),
        struct_prop("Saved", "DateTime", &date_ticks.to_le_bytes()),
        struct_prop("Played", "Timespan", &span_ticks.to_le_bytes()),
    ]);
    let r = interpret(&data);
    assert_eq!(
        text_of(&r),
        "Id: StructProperty<Guid> = 000102030405060708090A0B0C0D0E0F\nSaved: StructProperty<DateTime> = unix 1000\n\
         Played: StructProperty<Timespan> = 3.00 hours (10800s)\n"
    );
    assert_eq!(r.text[3], Fragment::Timespan(span_ticks));
}

#[test]
fn short_date_reads_as_zero_ticks() {
    let mut data = header();
    data.extend(struct_prop("Saved", "DateTime", &[1, 2, 3]));
    let r = interpret(&data);
    assert!(r.stopped_early);
    assert!(text_of(&r).starts_with("Saved: StructProperty<DateTime> = unix -62135596800\n\n[stopped after 1 top-level"));
}

#[test]
fn date_reads_past_its_declared_size() {
    let data = save(&[struct_prop("Saved", "DateTime", &[1, 2, 3])]);
    let mut bytes = [1u8, 2, 3, 0, 0, 0, 0, 0];
    bytes[3..8].copy_from_slice(&fstr("None")[..5]);
    let ticks = i64::from_le_bytes(bytes);
    let secs = (ticks.wrapping_sub(621_355_968_000_000_000)) / 10_000_000;
    assert_eq!(
        text_of(&interpret(&data)),
        format!("Saved: StructProperty<DateTime> = unix {secs}\n")
    );
}

#[test]
fn struct_array_is_walked() {
    let mut inner_body = int_prop("Count", 4);
    inner_body.extend(fstr("None"));
    let mut value = 1u32.to_le_bytes().to_vec();
    value.extend(struct_prop("Items", "Item", &inner_body));
    let data = save(&[prop("Inventory", "ArrayProperty", fstr("StructProperty"), &value, 0)]);
    assert_eq!(
        text_of(&interpret(&data)),
        "Inventory: ArrayProperty<StructProperty> [\n  Items: StructProperty<Item> {\n    Count: IntProperty = 4\n  }\n]\n"
    );
}

#[test]
fn struct_array_that_misses_its_end_is_shown_by_size() {
    let mut inner_body = int_prop("Count", 4);
    inner_body.extend(fstr("None"));
    let mut value = 1u32.to_le_bytes().to_vec();
    value.extend(struct_prop("Items", "Item", &inner_body));
    value.push(0xFF);
    let len = value.len();
    let data = save(&[prop("Inventory", "ArrayProperty", fstr("StructProperty"), &value, 0)]);
    assert_eq!(
        text_of(&interpret(&data)),
        format!("Inventory: ArrayProperty<StructProperty> = <{len} bytes>\n")
    );
}

#[test]
fn walk_that_stops_early_says_so() {
    let mut data = header();
    data.extend(int_prop("Level", 3));
    data.extend_from_slice(&[0xFF, 0xFF, 0xFF]);
    let r = interpret(&data);
    assert!(r.stopped_early);
    assert_eq!(r.properties_found, 1);
    assert_eq!(
        text_of(&r),
        "Level: IntProperty = 3\n\n[stopped after 1 top-level properties \u{2014} either the end of the readable list was \
         reached, or a property type this tool doesn't know how to skip over yet was hit. Everything above this line is reliable.]\n"
    );
}

#[test]
fn unreadable_header_is_reported() {
    let r = interpret(b"NOT A SAVE FILE AT ALL");
    assert!(r.stopped_early);
    assert_eq!(r.properties_found, 0);
    let text = text_of(&r);
    assert!(text.starts_with("Could not read the inner save header: "));
    assert!(text.ends_with('\n'));
    assert!(text.len() > "Could not read the inner save header: \n".len());
}

#[test]
fn four_bytes_before_the_magic_are_skipped() {
    let inner = save(&[int_prop("Level", 9)]);
    let mut data = vec![1u8, 2, 3, 4];
    data.extend_from_slice(&inner);
    let r = interpret(&data);
    assert_eq!(text_of(&r), "Level: IntProperty = 9\n");
    assert!(!r.stopped_early);
}

#[test]
fn empty_list_walks_cleanly() {
    let r = interpret(&save(&[]));
    assert!(r.text.is_empty());
    assert_eq!(r.properties_found, 0);
    assert!(!r.stopped_early);
}

#[test]
fn type_specific_headers() {
    let mut data = fstr("Vector");
    data.extend_from_slice(&[0u8; 16]);
    assert_eq!(read_type_specific_header(&data, 0, "StructProperty"), Some(("Vector".to_string(), data.len() as u64)));
    assert_eq!(read_type_specific_header(&data[..data.len() - 1], 0, "StructProperty"), None);
    let mut map = fstr("A");
    map.extend(fstr("B"));
    assert_eq!(read_type_specific_header(&map, 0, "MapProperty"), Some(("A -> B".to_string(), map.len() as u64)));
    let arr = fstr("IntProperty");
    assert_eq!(read_type_specific_header(&arr, 0, "SetProperty"), Some(("IntProperty".to_string(), arr.len() as u64)));
    assert_eq!(read_type_specific_header(&arr, 3, "IntProperty"), Some((String::new(), 3)));
    assert_eq!(read_type_specific_header(&[1, 0, 0], 0, "EnumProperty"), None);
}

#[test]
fn indentation_is_two_spaces_per_level() {
    assert_eq!(indent(0), "");
    assert_eq!(indent(3), "      ");
}

#[test]
fn safety_limit_stops_the_walk() {
    let mut data = header();
    let one = bool_prop("B", true);
    for _ in 0..200_001 {
        data.extend_from_slice(&one);
    }
    data.extend(int_prop("Never", 1));
    data.extend(fstr("None"));
    let r = interpret(&data);
    assert_eq!(r.properties_found, 200_001);
    assert!(!r.stopped_early);
    assert_eq!(r.text.len(), 200_002);
    assert_eq!(r.text[0], Fragment::Text("B: BoolProperty = true\n".to_string()));
    assert_eq!(
        r.text.last(),
        Some(&Fragment::Text("\n[stopped after 200000 properties as a safety limit]\n".to_string()))
    );
}

#[test]
fn top_level_walk_starts_where_it_is_told() {
    let mut body = vec![0xEEu8; 5];
    body.extend(int_prop("Level", 8));
    body.extend(fstr("None"));
    let r = walk_top_level(&body, 5);
    assert_eq!(text_of(&r), "Level: IntProperty = 8\n");
    assert_eq!(r.properties_found, 1);
    assert!(!r.stopped_early);
    let past_end = walk_top_level(&body, 1000);
    assert!(past_end.stopped_early);
    assert_eq!(past_end.properties_found, 0);
}

#[test]
fn closing_name_past_the_declared_end_is_shown_by_size() {
    let mut th = fstr("Opaque");
    th.extend_from_slice(&[0u8; 16]);
    let mut p = fstr("Blob");
    p.extend(fstr("StructProperty"));
    p.extend_from_slice(&1u32.to_le_bytes());
    p.extend_from_slice(&0u32.to_le_bytes());
    p.extend(th);
    p.push(0);
    p.extend(fstr("None"));
    let r = interpret(&save(&[p]));
    assert!(text_of(&r).starts_with("Blob: StructProperty<Opaque> = <1 bytes>\n"));
    assert_eq!(r.properties_found, 1);
    assert!(r.stopped_early);
}

#[test]
fn empty_data_has_no_header() {
    let r = interpret(b"");
    assert!(r.stopped_early);
    assert_eq!(r.properties_found, 0);
    let text = text_of(&r);
    assert!(text.starts_with("Could not read the inner save header: "));
    assert!(text.ends_with('\n'));
}

#[test]
fn non_ascii_type_names_are_decoded() {
    let arr = fstr("Caf\u{e9}");
    assert_eq!(read_type_specific_header(&arr, 0, "ArrayProperty"), Some(("Caf\u{e9}".to_string(), arr.len() as u64)));
    let bad = [3u8, 0, 0, 0, 0xC3, 0x28, 0];
    assert_eq!(read_type_specific_header(&bad, 0, "EnumProperty"), None);
}
