use save_decoder::decoder::{
    decode_chunk_chain, extract_altar_bytes, find_min_compressed_len, pick_altar_bytes, ExtractError, BLOCK_SIZE,
    NO_BYTE_ARRAY_MESSAGE,
};
use std::cell::{Cell, RefCell};
use std::io::Cursor;

/// Reads a GVAS save wrapper with the `gvas` crate: one entry per top-level
/// property, holding the bytes of a byte-array property.
fn gvas_parse(save: &[u8]) -> Result<Vec<Option<Vec<u8>>>, String> {
    let mut cursor = Cursor::new(save);
    match gvas::GvasFile::read(&mut cursor, gvas::game_version::GameVersion::Default) {
        Ok(file) => Ok(file
            .properties
            .0
            .into_iter()
            .map(|(_, property)| match property {
                gvas::properties::Property::ArrayProperty(
                    gvas::properties::array_property::ArrayProperty::Bytes { bytes },
                ) => Some(bytes),
                _ => None,
            })
            .collect()),
        Err(e) => Err(format!("{e:?}")),
    }
}

/// Takes any input of at least four bytes that starts with 0x8C, and fills the
/// output with the input's second byte.
fn marker_decoder(input: &[u8], out_size: usize) -> Option<Vec<u8>> {
    if input.len() >= 4 && input[0] == 0x8C {
        Some(vec![input[1]; out_size])
    } else {
        None
    }
}

#[test]
fn least_length_is_found() {
    let data = [0x8Cu8, 5, 0, 0, 9, 9, 9];
    assert_eq!(find_min_compressed_len(&data, 0, 10, 100, &marker_decoder), Some(4));
    assert_eq!(find_min_compressed_len(&data, 0, 10, 4, &marker_decoder), Some(4));
}

#[test]
fn nothing_found_when_reach_is_too_short() {
    let data = [0x8Cu8, 5, 0, 0, 9, 9, 9];
    assert_eq!(find_min_compressed_len(&data, 0, 10, 3, &marker_decoder), None);
    assert_eq!(find_min_compressed_len(&data, 1, 10, 100, &marker_decoder), None);
    assert_eq!(find_min_compressed_len(&data, 7, 10, 100, &marker_decoder), None);
    assert_eq!(find_min_compressed_len(&data, 20, 10, 100, &marker_decoder), None);
    assert_eq!(find_min_compressed_len(&data, 0, 10, 0, &marker_decoder), None);
}

#[test]
fn least_length_for_every_threshold() {
    let data = vec![0x8Cu8; 300];
    for need in 1..=300usize {
        let dec = |input: &[u8], n: usize| if input.len() >= need { Some(vec![0u8; n]) } else { None };
        assert_eq!(find_min_compressed_len(&data, 0, 1, 300, &dec), Some(need));
    }
}

#[test]
fn chain_of_two_chunks() {
    let mut data = vec![0u8; 49];
    data.extend_from_slice(&[0x8C, 7, 1, 2]);
    data.extend_from_slice(&[0x00, 0x11]);
    data.extend_from_slice(&[0x8C, 9, 3, 4]);
    let calls = RefCell::new(Vec::new());
    let progress = |done: usize, total: usize| calls.borrow_mut().push((done, total));
    let (out, report) = decode_chunk_chain(&data, &marker_decoder, &progress);
    assert_eq!(report.chunks_decoded, 2);
    assert_eq!(report.decoded_bytes, 2 * BLOCK_SIZE);
    assert_eq!(out.len(), 2 * BLOCK_SIZE);
    assert!(out[..BLOCK_SIZE].iter().all(|&b| b == 7));
    assert!(out[BLOCK_SIZE..].iter().all(|&b| b == 9));
    assert_eq!(report.source_bytes, 59);
    assert_eq!(report.bytes_consumed, 59);
    assert_eq!(report.tail_bytes_left_raw, 0);
    assert_eq!(*calls.borrow(), vec![(53, 59), (59, 59)]);
}

#[test]
fn smaller_sizes_are_tried_when_no_full_chunk_decodes() {
    let mut data = vec![0u8; 49];
    data.extend_from_slice(&[0x8C, 1, 0, 0]);
    let dec = |input: &[u8], n: usize| if n == 256 { marker_decoder(input, n) } else { None };
    let (out, report) = decode_chunk_chain(&data, &dec, &|_, _| {});
    assert_eq!(report.chunks_decoded, 1);
    assert_eq!(out, vec![1u8; 256]);
    assert_eq!(report.bytes_consumed, 53);
}

#[test]
fn short_data_starts_at_zero() {
    let data = [0x8Cu8, 3, 0, 0];
    let (out, report) = decode_chunk_chain(&data, &marker_decoder, &|_, _| {});
    assert_eq!(report.chunks_decoded, 1);
    assert_eq!(out.len(), BLOCK_SIZE);
    assert_eq!(report.bytes_consumed, 4);
}

#[test]
fn no_chunk_leaves_the_tail_raw() {
    let data = vec![0u8; 60];
    let (out, report) = decode_chunk_chain(&data, &marker_decoder, &|_, _| {});
    assert!(out.is_empty());
    assert_eq!(report.chunks_decoded, 0);
    assert_eq!(report.decoded_bytes, 0);
    assert_eq!(report.bytes_consumed, 49);
    assert_eq!(report.tail_bytes_left_raw, 11);
}

#[test]
fn refused_final_decode_ends_the_walk() {
    let data = [0x8Cu8, 1, 0, 0];
    let calls = Cell::new(0usize);
    let dec = |input: &[u8], n: usize| {
        calls.set(calls.get() + 1);
        if calls.get() == 4 { None } else { marker_decoder(input, n) }
    };
    let (out, report) = decode_chunk_chain(&data, &dec, &|_, _| {});
    assert_eq!(calls.get(), 4);
    assert!(out.is_empty());
    assert_eq!(report.chunks_decoded, 0);
    assert_eq!(report.bytes_consumed, 0);
    assert_eq!(report.tail_bytes_left_raw, 4);
}

#[test]
fn empty_data_decodes_nothing() {
    let (out, report) = decode_chunk_chain(&[], &marker_decoder, &|_, _| {});
    assert!(out.is_empty());
    assert_eq!(report.chunks_decoded, 0);
    assert_eq!(report.source_bytes, 0);
    assert_eq!(report.bytes_consumed, 0);
}

fn fstr(s: &str) -> Vec<u8> {
    let mut v = ((s.len() + 1) as i32).to_le_bytes().to_vec();
    v.extend_from_slice(s.as_bytes());
    v.push(0);
    v
}

fn gvas_file(props: &[u8]) -> Vec<u8> {
    let mut v = b"GVAS".to_vec();
    v.extend_from_slice(&2u32.to_le_bytes());
    v.extend_from_slice(&0x20Bu32.to_le_bytes());
    v.extend_from_slice(&4u16.to_le_bytes());
    v.extend_from_slice(&27u16.to_le_bytes());
    v.extend_from_slice(&2u16.to_le_bytes());
    v.extend_from_slice(&0u32.to_le_bytes());
    v.extend(fstr("++UE4+Release-4.27"));
    v.extend_from_slice(&3u32.to_le_bytes());
    v.extend_from_slice(&0u32.to_le_bytes());
    v.extend(fstr("/Script/Game.SaveData"));
    v.extend_from_slice(props);
    v.extend(fstr("None"));
    v.extend_from_slice(&[0u8; 4]);
    v
}

fn int_prop(name: &str, value: i32) -> Vec<u8> {
    let mut v = fstr(name);
    v.extend(fstr("IntProperty"));
    v.extend_from_slice(&4u64.to_le_bytes());
    v.push(0);
    v.extend_from_slice(&value.to_le_bytes());
    v
}

fn byte_array_prop(name: &str, bytes: &[u8]) -> Vec<u8> {
    let mut v = fstr(name);
    v.extend(fstr("ArrayProperty"));
    v.extend_from_slice(&((bytes.len() + 4) as u32).to_le_bytes());
    v.extend_from_slice(&0u32.to_le_bytes());
    v.extend(fstr("ByteProperty"));
    v.push(0);
    v.extend_from_slice(&(bytes.len() as u32).to_le_bytes());
    v.extend_from_slice(bytes);
    v
}

#[test]
fn first_byte_array_is_taken() {
    let mut props = int_prop("Version", 3);
    props.extend(byte_array_prop("AltarSaveData", &[1, 2, 3, 4, 5]));
    props.extend(byte_array_prop("Thumbnail", &[9, 9]));
    let file = gvas_file(&props);
    match extract_altar_bytes(&file, &gvas_parse) {
        Ok(bytes) => assert_eq!(bytes, vec![1, 2, 3, 4, 5]),
        Err(e) => panic!("unexpected error: {}", e.message()),
    }
}

#[test]
fn file_without_byte_array_is_refused() {
    let file = gvas_file(&int_prop("Version", 3));
    let err = extract_altar_bytes(&file, &gvas_parse).err().unwrap();
    assert!(matches!(err, ExtractError::NoByteArray));
    assert_eq!(err.message(), NO_BYTE_ARRAY_MESSAGE);
    assert_eq!(
        err.message(),
        "No byte-array property found in this save's GVAS wrapper \u{2014} is this an Oblivion Remastered .sav file?"
    );
}

#[test]
fn unreadable_file_is_refused_with_the_reason() {
    let err = extract_altar_bytes(b"definitely not gvas", &gvas_parse).err().unwrap();
    match &err {
        ExtractError::Unreadable(reason) => {
            assert!(!reason.is_empty());
            assert_eq!(&err.message(), reason);
        }
        ExtractError::NoByteArray => panic!("expected an unreadable file"),
    }
}

#[test]
fn picking_takes_the_first_byte_array() {
    let parsed = Ok(vec![None, Some(vec![4u8, 5]), None, Some(vec![6u8])]);
    assert_eq!(pick_altar_bytes(parsed).ok(), Some(vec![4u8, 5]));
    let empty_first = Ok(vec![Some(vec![]), Some(vec![1u8])]);
    assert_eq!(pick_altar_bytes(empty_first).ok(), Some(vec![]));
}

#[test]
fn picking_reports_why_nothing_was_found() {
    assert!(matches!(pick_altar_bytes(Ok(vec![None, None])), Err(ExtractError::NoByteArray)));
    assert!(matches!(pick_altar_bytes(Ok(vec![])), Err(ExtractError::NoByteArray)));
    match pick_altar_bytes(Err("bad header".to_string())) {
        Err(ExtractError::Unreadable(m)) => assert_eq!(m, "bad header"),
        _ => panic!("expected an unreadable wrapper"),
    }
}

/// Takes inputs of exactly 4, 5 or 10 bytes, and nothing else.
fn picky_decoder(input: &[u8], out_size: usize) -> Option<Vec<u8>> {
    if input.len() == 4 || input.len() == 5 || input.len() == 10 {
        Some(vec![0u8; out_size])
    } else {
        None
    }
}

#[test]
fn search_lands_where_the_bisection_does() {
    let data = [7u8; 10];
    assert_eq!(find_min_compressed_len(&data, 0, 8, 100, &picky_decoder), Some(4));
    assert_eq!(find_min_compressed_len(&data, 0, 8, 9, &picky_decoder), None);
}

/// Answers every input, but always with one byte fewer than asked for.
fn short_decoder(_input: &[u8], out_size: usize) -> Option<Vec<u8>> {
    Some(vec![1u8; out_size.saturating_sub(1)])
}

#[test]
fn answers_of_the_wrong_size_count_as_refusals() {
    let data = vec![0x8Cu8; 120];
    assert_eq!(find_min_compressed_len(&data, 0, 256, 100, &short_decoder), None);
    let (out, report) = decode_chunk_chain(&data, &short_decoder, &|_, _| {});
    assert!(out.is_empty());
    assert_eq!(report.chunks_decoded, 0);
    assert_eq!(report.bytes_consumed, 49);
}
