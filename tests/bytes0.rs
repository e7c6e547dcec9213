use rwutil::bytes0::{ReadBytes0Ext, WriteBytes0Ext};
use rwutil::cstring::{Bytes0Read, Bytes0Write};

#[test]
fn test_bytes0() {
    let buf = vec![0x61, 0x62, 0x63, 0];
    assert_eq!(buf.as_slice().read_bytes0().unwrap(), b"abc");

    let mut out = Vec::new();
    out.write_bytes0(b"abc").unwrap();
    assert_eq!(buf, out);
}

#[test]
fn test_cstring_raw() {
    let buf = vec![0x61, 0x62, 0x63, 0];
    assert_eq!(buf.as_slice().read_cstring_raw().unwrap(), b"abc");

    let mut out = Vec::new();
    out.write_cstring_raw(b"abc").unwrap();
    assert_eq!(buf, out);
}

#[test]
fn bytes0_leaves_what_follows_the_terminator() {
    let buf = vec![0x61, 0, 0x62, 0x63, 0, 0x64];
    let mut src: &[u8] = buf.as_slice();
    assert_eq!(src.read_bytes0().unwrap(), b"a");
    assert_eq!(src, &[0x62, 0x63, 0, 0x64][..]);
    assert_eq!(src.read_bytes0().unwrap(), b"bc");
    assert_eq!(src, &[0x64][..]);
    assert_eq!(src.read_bytes0().unwrap(), b"d");
    assert!(src.is_empty());
}

#[test]
fn bytes0_without_terminator_reads_to_the_end() {
    let buf = vec![1, 2, 3];
    let mut src: &[u8] = buf.as_slice();
    assert_eq!(src.read_cstring_raw().unwrap(), vec![1, 2, 3]);
    assert!(src.is_empty());
    assert_eq!(src.read_cstring_raw().unwrap(), Vec::<u8>::new());
}

#[test]
fn bytes0_empty_string() {
    let mut out = Vec::new();
    out.write_bytes0(b"").unwrap();
    assert_eq!(out, vec![0]);
    let mut src: &[u8] = out.as_slice();
    assert_eq!(src.read_bytes0().unwrap(), Vec::<u8>::new());
    assert!(src.is_empty());
}

#[test]
fn bytes0_appends_to_existing_output() {
    let mut out = vec![9];
    out.write_cstring_raw(b"xy").unwrap();
    out.write_bytes0(b"z").unwrap();
    assert_eq!(out, vec![9, 0x78, 0x79, 0, 0x7a, 0]);
}
