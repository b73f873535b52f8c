//! Tests of the frame codec: per-type round trips, the wire format, and the
//! defensive decoders.

use mixlayer::codec::MxlData;
use mixlayer::{Frame, KV};

fn read_u32_be(b: &[u8], pos: usize) -> u32 {
    ((b[pos] as u32) << 24) | ((b[pos + 1] as u32) << 16) | ((b[pos + 2] as u32) << 8)
        | (b[pos + 3] as u32)
}

#[test]
fn kv_serialize() {
    let sample = KV("A".to_owned(), "ab".to_owned());
    let data = sample.into_buffer_frame().unwrap();

    if let Frame::Data(data) = data {
        assert_eq!(data.len(), 8 + 3);

        let key_len = read_u32_be(&data, 0) as usize;
        let val_len = read_u32_be(&data, 4) as usize;

        assert_eq!(key_len, 1);
        assert_eq!(val_len, 2);

        let key_bytes = &data[8..8 + key_len];
        let val_bytes = &data[8 + key_len..8 + key_len + val_len];

        let key_str = String::from_utf8(key_bytes.to_vec()).unwrap();
        let val_str = String::from_utf8(val_bytes.to_vec()).unwrap();

        assert_eq!("A", key_str);
        assert_eq!("ab", val_str);
    } else {
        panic!("frame was not data")
    }
}

#[test]
fn kv_serialize_nested() {
    let sample = KV("A".to_owned(), KV("AA".to_owned(), "aa".to_owned()));
    let data = sample.into_buffer_frame().unwrap();

    if let Frame::Data(data) = data {
        assert_eq!(data.len(), 16 + 1 + 4);
    } else {
        panic!("frame was not data")
    }
}

#[test]
fn u32_round_trip() {
    let f = 305419896u32.into_buffer_frame().unwrap();
    if let Frame::Data(b) = &f {
        assert_eq!(b, &vec![0x12u8, 0x34, 0x56, 0x78]);
    } else {
        panic!("frame was not data")
    }
    match u32::from_buffer_frame(f) {
        Frame::Data(v) => assert_eq!(v, 305419896),
        _ => panic!("expected data"),
    }
}

#[test]
fn u32_truncated_is_error() {
    let f = Frame::Data(vec![1u8, 2]);
    assert!(matches!(u32::from_buffer_frame(f), Frame::<u32>::Error));
}

#[test]
fn string_round_trip() {
    let f = "héllo".to_owned().into_buffer_frame().unwrap();
    match String::from_buffer_frame(f) {
        Frame::Data(s) => assert_eq!(s, "héllo"),
        _ => panic!("expected data"),
    }
}

#[test]
fn string_invalid_utf8_is_error() {
    let f = Frame::Data(vec![0xffu8, 0xfe]);
    assert!(matches!(String::from_buffer_frame(f), Frame::<String>::Error));
}

#[test]
fn option_round_trip() {
    let none: Option<u32> = None;
    let f = none.into_buffer_frame().unwrap();
    if let Frame::Data(b) = &f {
        assert_eq!(b, &vec![0u8]);
    } else {
        panic!("frame was not data")
    }
    assert!(matches!(Option::<u32>::from_buffer_frame(f), Frame::Data(None)));

    let some = Some(7u32);
    let f = some.into_buffer_frame().unwrap();
    if let Frame::Data(b) = &f {
        assert_eq!(b[0], 1u8);
        assert_eq!(b.len(), 5);
    } else {
        panic!("frame was not data")
    }
    assert!(matches!(Option::<u32>::from_buffer_frame(f), Frame::Data(Some(7))));
}

#[test]
fn vec_round_trip() {
    let v: Vec<u32> = vec![1, 2, 3];
    let f = v.into_buffer_frame().unwrap();
    match Vec::<u32>::from_buffer_frame(f) {
        Frame::Data(out) => assert_eq!(out, vec![1, 2, 3]),
        _ => panic!("expected data"),
    }
}

#[test]
fn empty_vec_is_zero_bytes() {
    let v: Vec<u32> = vec![];
    let f = v.into_buffer_frame().unwrap();
    if let Frame::Data(b) = &f {
        assert_eq!(b.len(), 0);
    } else {
        panic!("frame was not data")
    }
    match Vec::<u32>::from_buffer_frame(f) {
        Frame::Data(out) => assert!(out.is_empty()),
        _ => panic!("expected data"),
    }
}

#[test]
fn kv_round_trip() {
    let kv = KV("key".to_owned(), vec![10u32, 20]);
    let f = kv.into_buffer_frame().unwrap();
    match KV::<String, Vec<u32>>::from_buffer_frame(f) {
        Frame::Data(KV(k, v)) => {
            assert_eq!(k, "key");
            assert_eq!(v, vec![10, 20]);
        }
        _ => panic!("expected data"),
    }
}

#[test]
fn kv_short_payload_is_error() {
    let f = Frame::Data(vec![0u8; 7]);
    assert!(matches!(
        KV::<String, String>::from_buffer_frame(f),
        Frame::<KV<String, String>>::Error
    ));
}

#[test]
fn unencodable_element_is_hard_error() {
    // a sequence whose elements encode to no data payload cannot be encoded
    let v: Vec<()> = vec![(), ()];
    assert!(v.into_buffer_frame().is_err());
}

#[test]
fn unit_encodes_as_end() {
    let f = ().into_buffer_frame().unwrap();
    assert!(matches!(f, Frame::End));
    assert!(matches!(<()>::from_buffer_frame(Frame::Data(vec![1u8])), Frame::End));
}

#[test]
fn frame_wire_format() {
    let bytes = Frame::Data(vec![9u8, 8, 7]).into_bytes();
    assert_eq!(bytes, vec![0u8, 0, 0, 0, 3, 9, 8, 7]);
    assert_eq!(Frame::End.into_bytes(), vec![1u8]);
    assert_eq!(Frame::Error.into_bytes(), vec![2u8]);

    match Frame::from_bytes(&[0u8, 0, 0, 0, 2, 5, 6]) {
        Frame::Data(b) => assert_eq!(b, vec![5u8, 6]),
        _ => panic!("expected data"),
    }
    assert!(matches!(Frame::from_bytes(&[1u8]), Frame::End));
    assert!(matches!(Frame::from_bytes(&[2u8]), Frame::Error));
    assert!(matches!(Frame::from_bytes(&[9u8]), Frame::Error));
    assert!(matches!(Frame::from_bytes(&[0u8, 0, 0, 0, 9, 1]), Frame::Error));
    assert!(matches!(Frame::from_bytes(&[]), Frame::Error));
}

#[test]
fn frame_map_and_flat_map() {
    let f: Frame<u32> = Frame::Data(3);
    match f.map(|x| x + 1) {
        Frame::Data(v) => assert_eq!(v, 4),
        _ => panic!("expected data"),
    }
    let e: Frame<u32> = Frame::End;
    assert!(matches!(e.map(|x| x + 1), Frame::End));
    let f: Frame<u32> = Frame::Data(3);
    assert!(matches!(f.flat_map(|_| Frame::<u32>::Error), Frame::Error));
    let e: Frame<u32> = Frame::Error;
    assert!(matches!(e.flat_map(|x| Frame::Data(x)), Frame::Error));
}

#[test]
fn md_eq_agrees_with_values() {
    assert!(KV("a".to_owned(), 1u32).md_eq(&KV("a".to_owned(), 1u32)));
    assert!(!KV("a".to_owned(), 1u32).md_eq(&KV("b".to_owned(), 1u32)));
    assert!(vec![1u32, 2].md_eq(&vec![1u32, 2]));
    assert!(!vec![1u32, 2].md_eq(&vec![1u32, 3]));
    assert!(!vec![1u32, 2].md_eq(&vec![1u32]));
    assert!(Some("x".to_owned()).md_eq(&Some("x".to_owned())));
    assert!(!Some("x".to_owned()).md_eq(&None));
}
