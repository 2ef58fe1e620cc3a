use packet_captor::pcap::{ByteOrder, PcapError, PcapReader2, PcapRecordHeader};

fn put_u16(out: &mut Vec<u8>, v: u16, little: bool) {
    if little {
        out.extend_from_slice(&v.to_le_bytes());
    } else {
        out.extend_from_slice(&v.to_be_bytes());
    }
}

fn put_u32(out: &mut Vec<u8>, v: u32, little: bool) {
    if little {
        out.extend_from_slice(&v.to_le_bytes());
    } else {
        out.extend_from_slice(&v.to_be_bytes());
    }
}

fn capture_file(magic: u32, little: bool, records: &[(u32, u32, Vec<u8>)]) -> Vec<u8> {
    let mut out = Vec::new();
    put_u32(&mut out, magic, little);
    put_u16(&mut out, 2, little);
    put_u16(&mut out, 4, little);
    put_u32(&mut out, 0, little);
    put_u32(&mut out, 0, little);
    put_u32(&mut out, 65535, little);
    put_u32(&mut out, 1, little);
    for (sec, frac, data) in records {
        put_u32(&mut out, *sec, little);
        put_u32(&mut out, *frac, little);
        put_u32(&mut out, data.len() as u32, little);
        put_u32(&mut out, data.len() as u32 + 4, little);
        out.extend_from_slice(data);
    }
    out
}

fn sample_records() -> Vec<(u32, u32, Vec<u8>)> {
    vec![
        (1_500_000_000, 250, vec![1, 2, 3]),
        (1_500_000_001, 999, vec![]),
        (1_500_000_002, 7, vec![9; 40]),
    ]
}

fn check_round_trip(magic: u32, little: bool, nanos: bool) {
    let records = sample_records();
    let bytes = capture_file(magic, little, &records);
    let mut reader = PcapReader2::from_bytes(bytes).expect("valid header");
    assert_eq!(reader.is_nanosecond_res(), nanos);
    assert_eq!(
        reader.header.byte_order,
        if little { ByteOrder::Little } else { ByteOrder::Big }
    );
    assert_eq!(reader.header.version_major, 2);
    assert_eq!(reader.header.version_minor, 4);
    assert_eq!(reader.header.snaplen, 65535);
    assert_eq!(reader.header.network, 1);
    let read = reader.read_all().expect("valid records");
    assert_eq!(read.len(), records.len());
    for (rec, (sec, frac, data)) in read.iter().zip(records.iter()) {
        assert_eq!(rec.header.ts_sec, *sec);
        assert_eq!(rec.header.ts_usec, *frac);
        assert_eq!(rec.header.incl_len, data.len() as u32);
        assert_eq!(rec.header.orig_len, data.len() as u32 + 4);
        assert_eq!(&rec.data, data);
        let scale: u64 = if nanos { 1 } else { 1000 };
        assert_eq!(
            rec.header.get_time_as_nanos(reader.is_nanosecond_res()),
            *sec as u64 * 1_000_000_000 + *frac as u64 * scale
        );
    }
}

#[test]
fn round_trip_microseconds_little_endian() {
    check_round_trip(0xA1B2C3D4, true, false);
}

#[test]
fn round_trip_microseconds_big_endian() {
    check_round_trip(0xA1B2C3D4, false, false);
}

#[test]
fn round_trip_nanoseconds_little_endian() {
    check_round_trip(0xA1B23C4D, true, true);
}

#[test]
fn round_trip_nanoseconds_big_endian() {
    check_round_trip(0xA1B23C4D, false, true);
}

#[test]
fn empty_capture_has_no_records() {
    let bytes = capture_file(0xA1B2C3D4, true, &[]);
    let mut reader = PcapReader2::from_bytes(bytes).unwrap();
    assert!(reader.next_record().is_none());
    assert!(reader.next_record().is_none());
}

#[test]
fn bad_magic_is_invalid_format() {
    let mut bytes = capture_file(0xA1B2C3D4, true, &sample_records());
    bytes[0] = 0;
    assert_eq!(PcapReader2::from_bytes(bytes).err(), Some(PcapError::InvalidFormat));
}

#[test]
fn short_header_is_truncated() {
    let bytes = capture_file(0xA1B2C3D4, true, &[]);
    assert_eq!(
        PcapReader2::from_bytes(bytes[..10].to_vec()).err(),
        Some(PcapError::TruncatedHeader)
    );
    assert_eq!(
        PcapReader2::from_bytes(bytes[..3].to_vec()).err(),
        Some(PcapError::TruncatedHeader)
    );
}

#[test]
fn short_record_is_truncated() {
    let mut bytes = capture_file(0xA1B2C3D4, true, &sample_records());
    bytes.pop();
    let mut reader = PcapReader2::from_bytes(bytes.clone()).unwrap();
    assert_eq!(reader.read_all().err(), Some(PcapError::TruncatedRecord));
    let mut lazy = PcapReader2::from_bytes(bytes).unwrap();
    assert!(matches!(lazy.next_record(), Some(Ok(_))));
    assert!(matches!(lazy.next_record(), Some(Ok(_))));
    assert_eq!(lazy.next_record().map(|r| r.err()), Some(Some(PcapError::TruncatedRecord)));
    assert!(lazy.next_record().is_none());
}

#[test]
fn partial_record_header_is_truncated() {
    let mut bytes = capture_file(0xA1B2C3D4, true, &[]);
    bytes.extend_from_slice(&[1, 2, 3, 4, 5]);
    let mut reader = PcapReader2::from_bytes(bytes).unwrap();
    assert_eq!(reader.read_all().err(), Some(PcapError::TruncatedRecord));
}

#[test]
fn time_as_nanos_exact_values() {
    let h = PcapRecordHeader { ts_sec: 2, ts_usec: 5, incl_len: 0, orig_len: 0 };
    assert_eq!(h.get_time_as_nanos(false), 2_000_005_000);
    assert_eq!(h.get_time_as_nanos(true), 2_000_000_005);
    let max = PcapRecordHeader { ts_sec: u32::MAX, ts_usec: u32::MAX, incl_len: 0, orig_len: 0 };
    assert_eq!(
        max.get_time_as_nanos(false),
        u32::MAX as u64 * 1_000_000_000 + u32::MAX as u64 * 1000
    );
}
