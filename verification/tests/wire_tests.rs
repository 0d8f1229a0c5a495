use speedy_schema::error::CodecError;
use speedy_schema::wire::{read_uint, width_max, width_min_bytes, write_uint, Width};

fn enc(w: Width, x: u64) -> Vec<u8> {
    let mut out = Vec::new();
    write_uint(w, x, &mut out).unwrap();
    out
}

#[test]
fn fixed_widths_encode_little_endian() {
    assert_eq!(enc(Width::W8, 0xAB), vec![0xAB]);
    assert_eq!(enc(Width::W16, 0x1234), vec![0x34, 0x12]);
    assert_eq!(enc(Width::W32, 0x12345678), vec![0x78, 0x56, 0x34, 0x12]);
    assert_eq!(
        enc(Width::W64, 0x0102030405060708),
        vec![8, 7, 6, 5, 4, 3, 2, 1]
    );
}

#[test]
fn seven_bit_width_is_one_byte() {
    assert_eq!(enc(Width::W7, 0), vec![0]);
    assert_eq!(enc(Width::W7, 127), vec![127]);
    let mut out = Vec::new();
    assert_eq!(write_uint(Width::W7, 128, &mut out), Err(CodecError::OutOfRange));
    assert!(out.is_empty());
}

#[test]
fn varint_encodings_are_leb128() {
    assert_eq!(enc(Width::WVar, 0), vec![0]);
    assert_eq!(enc(Width::WVar, 127), vec![127]);
    assert_eq!(enc(Width::WVar, 128), vec![0x80, 0x01]);
    assert_eq!(enc(Width::WVar, 300), vec![0xAC, 0x02]);
    assert_eq!(
        enc(Width::WVar, u64::MAX),
        vec![0xFF, 0xFF, 0xFF, 0xFF, 0xFF, 0xFF, 0xFF, 0xFF, 0xFF, 0x01]
    );
}

#[test]
fn widths_that_do_not_fit_are_rejected() {
    let mut out = Vec::new();
    assert_eq!(write_uint(Width::W8, 256, &mut out), Err(CodecError::OutOfRange));
    assert_eq!(write_uint(Width::W16, 0x1_0000, &mut out), Err(CodecError::OutOfRange));
    assert_eq!(
        write_uint(Width::W32, 0x1_0000_0000, &mut out),
        Err(CodecError::OutOfRange)
    );
    assert!(out.is_empty());
}

#[test]
fn read_round_trips_every_width() {
    for (w, x) in [
        (Width::W7, 99u64),
        (Width::W8, 255),
        (Width::W16, 0xFFFF),
        (Width::W32, 0xFFFF_FFFF),
        (Width::W64, u64::MAX),
        (Width::WVar, u64::MAX),
        (Width::WVar, 16384),
    ] {
        let mut data = vec![0xEE];
        write_uint(w, x, &mut data).unwrap();
        data.push(0xEE);
        let (v, p) = read_uint(w, &data, 1).unwrap();
        assert_eq!(v, x);
        assert_eq!(p, data.len() - 1);
    }
}

#[test]
fn read_reports_eof_at_the_failing_position() {
    let data = vec![1, 2];
    assert_eq!(
        read_uint(Width::W32, &data, 0),
        Err((CodecError::UnexpectedEof, 0))
    );
    assert_eq!(read_uint(Width::W8, &data, 2), Err((CodecError::UnexpectedEof, 2)));
    // A varint whose continuation runs past the end fails at the byte that
    // was missing.
    let data = vec![0x80, 0x80];
    assert_eq!(
        read_uint(Width::WVar, &data, 0),
        Err((CodecError::UnexpectedEof, 2))
    );
}

#[test]
fn seven_bit_read_rejects_a_high_bit() {
    let data = vec![0x80];
    assert_eq!(read_uint(Width::W7, &data, 0), Err((CodecError::OutOfRange, 0)));
}

#[test]
fn width_tables() {
    assert_eq!(width_max(Width::W7), 127);
    assert_eq!(width_max(Width::W8), 255);
    assert_eq!(width_max(Width::W16), 65535);
    assert_eq!(width_max(Width::WVar), u64::MAX);
    assert_eq!(width_min_bytes(Width::W7), 1);
    assert_eq!(width_min_bytes(Width::W8), 1);
    assert_eq!(width_min_bytes(Width::W16), 2);
    assert_eq!(width_min_bytes(Width::W32), 4);
    assert_eq!(width_min_bytes(Width::W64), 8);
    assert_eq!(width_min_bytes(Width::WVar), 1);
}
