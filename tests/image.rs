use pickle_risc::image::{
    convert_u8_segments, image_records, load_ihex, load_ihex_segments, segments_from_records, HexRecord, HexRecordError,
    LoadingRomError, U8Segment, UnsupportedRecord,
};

fn seg(offset: u32, data: Vec<u8>) -> U8Segment {
    U8Segment { offset, data }
}

#[test]
fn image_test_u8segment_end() {
    let segment = seg(123, vec![0; 1]);
    assert_eq!(segment.end(), 124);
}

#[test]
fn memory_test_u8segment_end() {
    let segment = seg(123, vec![0; 1]);
    assert_eq!(segment.end(), 124);
}

#[test]
fn image_test_u8segment_iter_u16() {
    let segment = seg(123, vec![0x01, 0x02, 0x03, 0x04, 0x05, 0x06]);
    assert_eq!(segment.to_words(), vec![0x0102, 0x0304, 0x0506]);
}

#[test]
fn memory_test_u8segment_iter_u16() {
    let segment = seg(123, vec![0x01, 0x02, 0x03, 0x04, 0x05, 0x06]);
    assert_eq!(segment.to_words(), vec![0x0102, 0x0304, 0x0506]);
}

fn check_load_ihex() {
    let ihex = ":040010001122334442";
    let segments = load_ihex_segments(ihex).unwrap();
    assert_eq!(segments, vec![seg(0x0010, vec![0x11, 0x22, 0x33, 0x44])]);
}

#[test]
fn image_test_load_ihex() {
    check_load_ihex();
}

#[test]
fn memory_test_load_ihex() {
    check_load_ihex();
}

fn check_extended_address() {
    let ihex = ":040010001122334442\n:02000004FFFFFC\n:040010001122334442";
    let segments = load_ihex_segments(ihex).unwrap();
    assert_eq!(
        segments,
        vec![
            seg(0x00000010, vec![0x11, 0x22, 0x33, 0x44]),
            seg(0xffff0010, vec![0x11, 0x22, 0x33, 0x44]),
        ]
    );
    // The word image must start at address 0.
    assert_eq!(convert_u8_segments(&segments), Err(LoadingRomError::Offset));
}

#[test]
fn image_test_load_ihex_extended_address() {
    check_extended_address();
}

#[test]
fn memory_test_load_ihex_extended_address() {
    check_extended_address();
}

fn check_unsupported() {
    let ihex = ":020000021200EA";
    assert_eq!(
        load_ihex_segments(ihex),
        Err(LoadingRomError::UnsupportedRecordType {
            record: UnsupportedRecord::ExtendedSegmentAddress(4608)
        })
    );
}

#[test]
fn image_test_load_ihex_unsupported() {
    check_unsupported();
}

#[test]
fn memory_test_load_ihex_unsupported() {
    check_unsupported();
}

fn check_odd_offset() {
    let ihex = ":040011001122334441";
    assert_eq!(load_ihex_segments(ihex), Err(LoadingRomError::OddRecord { offset: 0x0011, size: 4 }));
}

#[test]
fn image_test_load_ihex_odd_offset() {
    check_odd_offset();
}

#[test]
fn memory_test_load_ihex_odd_offset() {
    check_odd_offset();
}

fn check_odd_length() {
    let ihex = ":05001000112233440041";
    assert_eq!(load_ihex_segments(ihex), Err(LoadingRomError::OddRecord { offset: 0x0010, size: 5 }));
}

#[test]
fn image_test_load_ihex_odd_length() {
    check_odd_length();
}

#[test]
fn memory_test_load_ihex_odd_length() {
    check_odd_length();
}

#[test]
fn image_test_rom_from_segments_empty() {
    assert_eq!(convert_u8_segments(&vec![]), Err(LoadingRomError::Empty));
}

#[test]
fn memory_test_rom_from_segments_empty() {
    assert_eq!(convert_u8_segments(&vec![]), Err(LoadingRomError::Empty));
}

#[test]
fn malformed_record_is_refused() {
    assert_eq!(load_ihex_segments(":0400100011223344FF"), Err(LoadingRomError::InvalidRecord));
}

#[test]
fn segments_are_sorted_and_eof_ends_input() {
    let ihex = ":02002000123498\n\n:02000000AABB99\n:00000001FF\n:020040000102BB";
    let segments = load_ihex_segments(ihex).unwrap();
    assert_eq!(segments, vec![seg(0, vec![0xaa, 0xbb]), seg(0x20, vec![0x12, 0x34])]);
    let words = convert_u8_segments(&segments).unwrap();
    assert_eq!(words.len(), 0x11);
    assert_eq!(words[0], 0xaabb);
    assert_eq!(words[1], 0);
    assert_eq!(words[0x10], 0x1234);
}

#[test]
fn records_to_segments() {
    let records = vec![
        Ok(HexRecord::Data { offset: 4, value: vec![1, 2] }),
        Ok(HexRecord::Data { offset: 8, value: vec![] }),
        Ok(HexRecord::ExtendedLinearAddress(1)),
        Ok(HexRecord::Data { offset: 0, value: vec![3, 4] }),
        Ok(HexRecord::EndOfFile),
        Err(HexRecordError),
    ];
    assert_eq!(
        segments_from_records(&records),
        Ok(vec![seg(4, vec![1, 2]), seg(0x1_0000, vec![3, 4])])
    );
    assert_eq!(segments_from_records(&vec![Err(HexRecordError)]), Err(LoadingRomError::InvalidRecord));
}

#[test]
fn word_image_fills_gaps() {
    let segments = vec![seg(0, vec![1, 1, 1, 1]), seg(8, vec![2, 2])];
    assert_eq!(convert_u8_segments(&segments), Ok(vec![0x0101, 0x0101, 0, 0, 0x0202]));
}

#[test]
fn word_image_refuses_overlap() {
    let segments = vec![seg(0, vec![0; 6]), seg(2, vec![0; 4])];
    assert_eq!(
        convert_u8_segments(&segments),
        Err(LoadingRomError::Overlapping { offset: 2, size: 4 })
    );
}

#[test]
fn whole_image_from_text() {
    let ihex = ":02002000123498\n:02000000AABB99\n:00000001FF";
    let words = load_ihex(ihex).unwrap();
    assert_eq!(words.len(), 0x11);
    assert_eq!(words[0], 0xaabb);
    assert_eq!(words[0x10], 0x1234);
    assert_eq!(load_ihex(":040010001122334442"), Err(LoadingRomError::Offset));
    assert_eq!(load_ihex(""), Err(LoadingRomError::Empty));
}

#[test]
fn image_records_layout_and_round_trip() {

    let words: Vec<u16> = (0..20u16).map(|i| i.wrapping_mul(0x1357)).collect();
    let records = image_records(&words);
    assert_eq!(records.len(), 5);
    assert_eq!(records[0], HexRecord::ExtendedLinearAddress(0));
    assert_eq!(records[1], HexRecord::Data { offset: 0, value: words[..8].iter().flat_map(|w| w.to_be_bytes()).collect() });
    assert_eq!(records[3], HexRecord::Data { offset: 32, value: words[16..].iter().flat_map(|w| w.to_be_bytes()).collect() });
    assert_eq!(records[4], HexRecord::EndOfFile);
    let ihex_records: Vec<ihex::Record> = records
        .into_iter()
        .map(|r| match r {
            HexRecord::Data { offset, value } => ihex::Record::Data { offset, value },
            HexRecord::ExtendedLinearAddress(a) => ihex::Record::ExtendedLinearAddress(a),
            _ => ihex::Record::EndOfFile,
        })
        .collect();
    let text = ihex::create_object_file_representation(&ihex_records).unwrap();
    assert_eq!(load_ihex(&text), Ok(words));
}
