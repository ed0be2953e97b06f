use save_decoder::hexdump::to_hex_dump;

#[test]
fn empty_input_gives_empty_dump() {
    assert_eq!(to_hex_dump(&[]), "");
}

#[test]
fn short_row() {
    assert_eq!(
        to_hex_dump(b"Hi!\x00\x7f"),
        format!("00000000  48 69 21 00 7F{}|Hi!..|\n", " ".repeat(36))
    );
}

#[test]
fn full_and_partial_rows() {
    let data: Vec<u8> = (0x30u8..0x41).collect();
    let dump = to_hex_dump(&data);
    assert_eq!(
        dump,
        format!(
            "00000000  30 31 32 33 34 35 36 37  38 39 3A 3B 3C 3D 3E 3F  |0123456789:;<=>?|\n00000010  40{}|@|\n",
            " ".repeat(48)
        )
    );
}

#[test]
fn length_is_63_per_row_plus_one_per_byte() {
    for len in [0usize, 1, 15, 16, 17, 40, 64, 100] {
        let data: Vec<u8> = (0..len).map(|i| (i * 7) as u8).collect();
        let rows = (len + 15) / 16;
        let dump = to_hex_dump(&data);
        assert_eq!(dump.chars().count(), 63 * rows + len);
        assert_eq!(dump.lines().count(), rows);
    }
}

#[test]
fn offsets_count_up_by_sixteen() {
    let data = vec![0xFFu8; 16 * 20];
    let dump = to_hex_dump(&data);
    let last = dump.lines().last().unwrap();
    assert!(last.starts_with("00000130  FF FF"));
    assert!(last.ends_with("|................|"));
}
