use ncore::cpio::{
    align4, hex32, parse_cpio, reaches_empty_name, write_cpio, write_cpio_entry, CpioEntry, CpioError,
};

fn entry(name: &str, mode: u32, uid: u32, gid: u32, data: &[u8]) -> CpioEntry {
    CpioEntry { name: name.to_string(), mode, uid, gid, data: data.to_vec() }
}

#[test]
fn align4_rounds_up_to_multiple_of_four() {
    assert_eq!(align4(0), 0);
    assert_eq!(align4(1), 4);
    assert_eq!(align4(3), 4);
    assert_eq!(align4(4), 4);
    assert_eq!(align4(5), 8);
    assert_eq!(align4(111), 112);
    assert_eq!(align4(usize::MAX - 3), usize::MAX - 3);
}

#[test]
fn hex32_reads_header_fields() {
    assert_eq!(hex32(b"0000001a").ok(), Some(26));
    assert_eq!(hex32(b"FFFFFFFF").ok(), Some(u32::MAX));
    assert_eq!(hex32(b"+1A").ok(), Some(26));
    assert_eq!(hex32(b"00000000").ok(), Some(0));
}

#[test]
fn hex32_rejects_bad_fields() {
    assert!(matches!(hex32(b""), Err(CpioError::InvalidHex { .. })));
    assert!(matches!(hex32(b"+"), Err(CpioError::InvalidHex { .. })));
    assert!(matches!(hex32(b"-1"), Err(CpioError::InvalidHex { .. })));
    assert!(matches!(hex32(b"0000 01a"), Err(CpioError::InvalidHex { .. })));
    assert!(matches!(hex32(b"100000000"), Err(CpioError::InvalidHex { .. })));
    match hex32(b"zz") {
        Err(CpioError::InvalidHex { field }) => assert_eq!(field, "zz"),
        _ => panic!("expected InvalidHex"),
    }
    assert!(matches!(hex32(&[0xff, 0x30]), Err(CpioError::NonUtf8Field)));
}

#[test]
fn write_cpio_entry_lays_out_one_member() {
    let mut out = Vec::new();
    write_cpio_entry(&mut out, 300, "init", 0o100755, 0, 0, b"hello");
    let hdr = String::from_utf8(out[..110].to_vec()).unwrap();
    assert_eq!(
        hdr,
        "070701\
         0000012c000081ed00000000000000000000000100000000\
         00000005000000000000000000000000000000000000000500000000"
    );
    assert_eq!(&out[110..114], b"init");
    assert_eq!(out[114], 0);
    // 110 + 5 = 115, padded to 116
    assert_eq!(out.len(), 116 + 8);
    assert_eq!(out[115], 0);
    assert_eq!(&out[116..121], b"hello");
    assert_eq!(&out[121..124], &[0, 0, 0]);
}

#[test]
fn write_cpio_pads_archive_to_512() {
    let out = write_cpio(&[entry("a", 0o644, 1, 2, b"x")]).unwrap();
    assert_eq!(out.len() % 512, 0);
    let empty = write_cpio(&[]).unwrap();
    assert_eq!(empty.len(), 512);
    assert_eq!(&empty[..6], b"070701");
    assert_eq!(&empty[110..120], b"TRAILER!!!");
}

#[test]
fn parse_cpio_reads_back_what_write_cpio_wrote() {
    let entries = vec![
        entry("init", 0o100755, 0, 0, b"#!/bin/sh\n"),
        entry("dev", 0o40755, 0, 0, b""),
        entry("etc/ünïcode", 0o100644, 1000, 1000, &[0u8, 1, 2, 3, 255]),
        entry("", 0o100600, 7, 8, b"abc"),
    ];
    let archive = write_cpio(&entries).unwrap();
    let back = parse_cpio(&archive).unwrap();
    assert_eq!(back.len(), entries.len());
    for (a, b) in entries.iter().zip(back.iter()) {
        assert_eq!(a.name, b.name);
        assert_eq!(a.mode, b.mode);
        assert_eq!(a.uid, b.uid);
        assert_eq!(a.gid, b.gid);
        assert_eq!(a.data, b.data);
    }
}

#[test]
fn parse_cpio_accepts_crc_magic_and_ignores_what_follows_the_trailer() {
    let mut archive = write_cpio(&[entry("f", 1, 2, 3, b"data")]).unwrap();
    archive[5] = b'2';
    archive.extend_from_slice(b"garbage after the trailer");
    let back = parse_cpio(&archive).unwrap();
    assert_eq!(back.len(), 1);
    assert_eq!(back[0].name, "f");
    assert_eq!(back[0].data, b"data");
}

#[test]
fn parse_cpio_reports_truncation() {
    assert!(matches!(parse_cpio(&[]), Err(CpioError::Truncated { offset: 0 })));
    let mut out = Vec::new();
    write_cpio_entry(&mut out, 1, "a", 0, 0, 0, b"");
    // a member but no trailer after it
    let len = out.len();
    assert!(matches!(parse_cpio(&out), Err(CpioError::Truncated { offset }) if offset == len));
}

#[test]
fn parse_cpio_reports_bad_magic() {
    let mut archive = write_cpio(&[]).unwrap();
    archive[0] = b'1';
    assert!(matches!(parse_cpio(&archive), Err(CpioError::BadMagic { offset: 0 })));
}

#[test]
fn parse_cpio_reports_bad_field() {
    let mut archive = write_cpio(&[]).unwrap();
    archive[14] = b'x';
    assert!(matches!(parse_cpio(&archive), Err(CpioError::InvalidHex { .. })));
}

#[test]
fn parse_cpio_reports_name_out_of_bounds() {
    let mut out = Vec::new();
    write_cpio_entry(&mut out, 1, "name", 0, 0, 0, b"");
    out.truncate(112);
    assert!(matches!(parse_cpio(&out), Err(CpioError::NameOutOfBounds { offset: 0 })));
}

#[test]
fn parse_cpio_reports_data_out_of_bounds_with_the_name() {
    let mut out = Vec::new();
    write_cpio_entry(&mut out, 1, "big", 0, 0, 0, &[7u8; 40]);
    out.truncate(130);
    match parse_cpio(&out) {
        Err(CpioError::DataOutOfBounds { name }) => assert_eq!(name, "big"),
        _ => panic!("expected DataOutOfBounds"),
    }
}

#[test]
fn parse_cpio_names_that_are_not_utf8_read_as_empty() {
    let mut out = Vec::new();
    write_cpio_entry(&mut out, 1, "ab", 0, 0, 0, b"z");
    out[110] = 0xff;
    write_cpio_entry(&mut out, 0, "TRAILER!!!", 0, 0, 0, b"");
    let back = parse_cpio(&out).unwrap();
    assert_eq!(back.len(), 1);
    assert_eq!(back[0].name, "");
    assert_eq!(back[0].data, b"z");
}

#[test]
fn hex32_reads_both_letter_cases() {
    for v in [0u32, 0xabcdef01, 0x1234_5678, u32::MAX, 0xdead_beef] {
        assert_eq!(hex32(format!("{:08x}", v).as_bytes()).ok(), Some(v));
        assert_eq!(hex32(format!("{:08X}", v).as_bytes()).ok(), Some(v));
    }
}

#[test]
fn cut_archive_is_rejected_until_the_trailer_ends() {
    let es = vec![entry("a", 0o100644, 0, 0, b"xyz"), entry("dir/b", 0o40755, 1, 2, b"")];
    let d = write_cpio(&es).ok().unwrap();
    let trailer_at = 112 + 4 + 116;
    let end = trailer_at + 124;
    for k in 0..end {
        assert!(parse_cpio(&d[..k]).is_err(), "cut at {} accepted", k);
    }
    for k in end..=d.len() {
        let r = parse_cpio(&d[..k]).ok().unwrap();
        assert_eq!(r.len(), 2);
        assert_eq!(r[1].name, "dir/b");
    }
}

#[test]
fn write_cpio_entry_appends_a_four_aligned_record() {
    let mut out = vec![1u8, 2, 3, 4];
    write_cpio_entry(&mut out, 7, "abc", 0, 0, 0, b"hello");
    assert_eq!(out.len(), 4 + align4(111 + 3) + align4(5));
    assert_eq!(out.len() % 4, 0);
}

#[test]
fn empty_name_fields_are_detected() {
    let es = vec![entry("a", 0, 0, 0, b"1")];
    let mut d = write_cpio(&es).ok().unwrap();
    assert!(!reaches_empty_name(&d));
    d[94..102].copy_from_slice(b"00000000");
    assert!(reaches_empty_name(&d));
    assert!(!reaches_empty_name(b"short"));
}

#[test]
fn error_messages() {
    assert_eq!(CpioError::Truncated { offset: 0 }.message(), "cpio truncated at offset 0");
    assert_eq!(CpioError::BadMagic { offset: 1234 }.message(), "invalid cpio magic at offset 1234");
    assert_eq!(CpioError::NonUtf8Field.message(), "non-utf8 cpio field");
    assert_eq!(
        CpioError::NameOutOfBounds { offset: 512 }.message(),
        "cpio name out of bounds at offset 512"
    );
    assert_eq!(
        CpioError::DataOutOfBounds { name: "etc/init".to_string() }.message(),
        "cpio data out of bounds for entry 'etc/init'"
    );
    for field in ["", "+", "-1", "0000 01a", "100000000", "zz", "1ffffffffz", "ffffffffff"] {
        let want = match u32::from_str_radix(field, 16) {
            Err(e) => format!("hex32 parse '{}': {}", field, e),
            Ok(_) => unreachable!(),
        };
        match hex32(field.as_bytes()) {
            Err(e) => assert_eq!(e.message(), want),
            Ok(_) => panic!("field {} accepted", field),
        }
    }
}
