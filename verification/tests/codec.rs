use csv_utils::errors::SortError;
use csv_utils::ewkb::GeoPoint;
use csv_utils::record::SortRecord;
use csv_utils::runfile::{decode_records, encode_records};
use csv_utils::session::Sorter;
use csv_utils::wire::{push_be16, push_be32, push_be64, push_decimal, push_le32, push_le64, read_le32, read_le64};
use sha1::Digest;

fn key_digest(preimage: &[u8]) -> [u8; 20] {
    let mut h = sha1::Sha1::new();
    h.update(preimage);
    h.finalize().into()
}

fn rec(key: [u8; 20], position: u64, cols: &[&[u8]]) -> SortRecord {
    SortRecord {
        key,
        position,
        row: cols.iter().map(|c| c.to_vec()).collect(),
    }
}

#[test]
fn little_endian_words_round_trip() {
    let mut v = Vec::new();
    push_le32(&mut v, 0x01020304);
    assert_eq!(v, vec![0x04, 0x03, 0x02, 0x01]);
    assert_eq!(read_le32(&v, 0), 0x01020304);
    let mut w = Vec::new();
    push_le64(&mut w, 0x0102030405060708);
    assert_eq!(w, vec![0x08, 0x07, 0x06, 0x05, 0x04, 0x03, 0x02, 0x01]);
    assert_eq!(read_le64(&w, 0), 0x0102030405060708);
}

#[test]
fn big_endian_words_are_most_significant_first() {
    let mut v = Vec::new();
    push_be16(&mut v, 6);
    assert_eq!(v, vec![0, 6]);
    let mut w = Vec::new();
    push_be32(&mut w, 0x01020304);
    assert_eq!(w, vec![0x01, 0x02, 0x03, 0x04]);
    let mut x = Vec::new();
    push_be64(&mut x, 0x0102030405060708);
    assert_eq!(x, vec![0x01, 0x02, 0x03, 0x04, 0x05, 0x06, 0x07, 0x08]);
}

#[test]
fn decimal_digits_render_most_significant_first() {
    let mut v = Vec::new();
    push_decimal(&mut v, 0);
    assert_eq!(v, b"0".to_vec());
    let mut w = Vec::new();
    push_decimal(&mut w, 12045);
    assert_eq!(w, b"12045".to_vec());
}

#[test]
fn run_file_round_trips() {
    let records = vec![
        rec([1u8; 20], 7, &[b"alpha", b""]),
        rec([2u8; 20], 3, &[]),
        rec([2u8; 20], 1, &[b"x"]),
    ];
    let bytes = encode_records(&records).unwrap();
    let back = decode_records(&bytes).unwrap();
    assert_eq!(back.len(), records.len());
    for (a, b) in records.iter().zip(back.iter()) {
        assert_eq!(a.key, b.key);
        assert_eq!(a.position, b.position);
        assert_eq!(a.row, b.row);
    }
}

#[test]
fn run_file_layout_has_key_position_length_payload() {
    let records = vec![rec([9u8; 20], 0x0102030405060708, &[b"ab"])];
    let bytes = encode_records(&records).unwrap();
    assert_eq!(&bytes[0..20], &[9u8; 20]);
    // position, little-endian
    assert_eq!(&bytes[20..28], &[0x08, 0x07, 0x06, 0x05, 0x04, 0x03, 0x02, 0x01]);
    // payload length covers key + position + column count + one column
    let plen = u32::from_le_bytes([bytes[28], bytes[29], bytes[30], bytes[31]]) as usize;
    assert_eq!(bytes.len(), 32 + plen);
    // the payload repeats the 28-byte key prefix for key-only scans
    assert_eq!(&bytes[32..52], &[9u8; 20]);
}

#[test]
fn corrupt_run_is_rejected() {
    let garbage = vec![1u8, 2, 3];
    match decode_records(&garbage) {
        Err(e) => assert_eq!(e, SortError::CorruptRun),
        Ok(_) => panic!("garbage decoded"),
    }
    // a frame announcing more bytes than exist
    let mut v = vec![0u8; 28];
    v.extend_from_slice(&1000u32.to_le_bytes());
    match decode_records(&v) {
        Err(e) => assert_eq!(e, SortError::CorruptRun),
        Ok(_) => panic!("truncated frame decoded"),
    }
}

fn copy_fields(bytes: &[u8]) -> Vec<Option<Vec<u8>>> {
    // walk one row of a binary-COPY file and return its column payloads
    assert_eq!(&bytes[0..11], b"PGCOPY\n\xff\r\n\0");
    let mut off = 19;
    let ncols = u16::from_be_bytes([bytes[off], bytes[off + 1]]);
    off += 2;
    let mut out = Vec::new();
    for _ in 0..ncols {
        let len = i32::from_be_bytes([
            bytes[off],
            bytes[off + 1],
            bytes[off + 2],
            bytes[off + 3],
        ]);
        off += 4;
        if len < 0 {
            out.push(None);
        } else {
            out.push(Some(bytes[off..off + len as usize].to_vec()));
            off += len as usize;
        }
    }
    out
}

#[test]
fn geometry_encodes_as_ewkb_point_with_srid() {
    let mut s = Sorter::new("src".to_string(), "sk".to_string(), vec![0], Some((1, 2)), 10);
    assert!(s.add_row(
        vec!["a".to_string(), "40.0".to_string(), "-74.0".to_string()],
        0
    ));
    s.sort().unwrap();

    let inputs = s.geo_inputs();
    assert_eq!(inputs.len(), 1);
    assert_eq!(inputs[0].0.as_deref(), Some(b"40.0".as_ref()));
    assert_eq!(inputs[0].1.as_deref(), Some(b"-74.0".as_ref()));

    // the caller parses the coordinates; longitude is x, latitude is y
    let lat: f64 = "40.0".parse().unwrap();
    let lon: f64 = "-74.0".parse().unwrap();
    let geo = vec![Some(GeoPoint {
        x_le: lon.to_le_bytes().to_vec(),
        y_le: lat.to_le_bytes().to_vec(),
    })];
    let bytes = s.binary_copy_bytes(&geo, 1234567890).unwrap();
    let fields = copy_fields(&bytes);
    assert_eq!(fields.len(), 6);
    assert_eq!(fields[0].as_deref(), Some(b"sk".as_ref()));
    let expected_hex = faster_hex::hex_string(&key_digest(b"src,a")).into_bytes();
    assert_eq!(fields[1].as_deref(), Some(expected_hex.as_slice()));

    let gexp: Vec<u8> = {
        let mut v = vec![0x01u8, 0x01, 0x00, 0x00, 0x20, 0xE6, 0x10, 0x00, 0x00];
        v.extend_from_slice(&lon.to_le_bytes());
        v.extend_from_slice(&lat.to_le_bytes());
        v
    };
    assert_eq!(fields[2].as_deref(), Some(gexp.as_slice()));

    // text array: dims 1, no nulls, varchar oid, 3 elements, lower bound 1
    let arr = fields[3].as_ref().unwrap();
    assert_eq!(&arr[0..4], &1u32.to_be_bytes());
    assert_eq!(&arr[4..8], &0u32.to_be_bytes());
    assert_eq!(&arr[8..12], &1043u32.to_be_bytes());
    assert_eq!(&arr[12..16], &3u32.to_be_bytes());
    assert_eq!(&arr[16..20], &1u32.to_be_bytes());
    assert_eq!(&arr[20..24], &1u32.to_be_bytes());
    assert_eq!(&arr[24..25], b"a");

    // both timestamps carry the supplied microseconds, big-endian
    assert_eq!(fields[4].as_deref(), Some(1234567890i64.to_be_bytes().as_ref()));
    assert_eq!(fields[5].as_deref(), Some(1234567890i64.to_be_bytes().as_ref()));

    assert_eq!(&bytes[bytes.len() - 2..], &[0xffu8, 0xff]);
}

#[test]
fn unparseable_coordinates_become_null_geometry() {
    let mut s = Sorter::new("src".to_string(), "sk".to_string(), vec![0], Some((1, 2)), 10);
    assert!(s.add_row(
        vec!["a".to_string(), "nope".to_string(), "-74.0".to_string()],
        0
    ));
    s.sort().unwrap();
    // the caller fails to parse "nope" and supplies no point
    let parsed: Option<f64> = "nope".parse().ok();
    assert!(parsed.is_none());
    let geo = vec![None];
    let bytes = s.binary_copy_bytes(&geo, 0).unwrap();
    let fields = copy_fields(&bytes);
    assert!(fields[2].is_none());
}

#[test]
fn missing_geo_columns_yield_no_inputs() {
    let mut s = Sorter::new("src".to_string(), "sk".to_string(), vec![0], Some((5, 6)), 10);
    assert!(s.add_row(vec!["a".to_string()], 0));
    s.sort().unwrap();
    let inputs = s.geo_inputs();
    assert_eq!(inputs.len(), 1);
    assert!(inputs[0].0.is_none());
    assert!(inputs[0].1.is_none());
}
