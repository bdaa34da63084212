use kernel::fat32::{
    entry_cluster, lfn_char_to_utf8, lfn_entry_count, name_to_short, names_match_case_insensitive,
    needs_lfn, short_name_to_str, vfat_checksum, Fat32DirEntry,
};

fn reference_checksum(name: &[u8; 11]) -> u8 {
    let mut sum: u8 = 0;
    for &c in name {
        sum = ((sum & 1) << 7).wrapping_add(sum >> 1).wrapping_add(c);
    }
    sum
}

#[test]
fn short_name_conversion_keeps_case_bits() {
    let mut out = [0u8; 11];
    let nt = name_to_short("readme.txt", &mut out);
    assert_eq!(&out, b"README  TXT");
    assert_eq!(nt, 0x18);
    assert_eq!(short_name_to_str(&out, nt), "readme.txt");
    let nt = name_to_short("KERNEL", &mut out);
    assert_eq!(&out, b"KERNEL     ");
    assert_eq!(nt, 0);
    assert_eq!(short_name_to_str(&out, nt), "KERNEL");
}

#[test]
fn short_name_display_without_extension() {
    assert_eq!(short_name_to_str(b"BOOT       ", 0), "BOOT");
    assert_eq!(short_name_to_str(b"A       B  ", 0x10), "A.b");
}

#[test]
fn vfat_checksum_matches_reference() {
    for name in [b"README  TXT", b"KERNEL     ", b"A       B  "] {
        assert_eq!(vfat_checksum(name), reference_checksum(name));
    }
}

#[test]
fn long_name_decisions() {
    assert!(!needs_lfn("README.TXT"));
    assert!(!needs_lfn("readme.txt"));
    assert!(needs_lfn("ReadMe.txt"));
    assert!(needs_lfn("verylongname.txt"));
    assert!(needs_lfn("a.text"));
    assert!(needs_lfn("my file"));
    assert_eq!(lfn_entry_count("abc"), 1);
    assert_eq!(lfn_entry_count("abcdefghijklm"), 1);
    assert_eq!(lfn_entry_count("abcdefghijklmn"), 2);
}

#[test]
fn case_insensitive_names() {
    assert!(names_match_case_insensitive("Hello.TXT", "hello.txt"));
    assert!(!names_match_case_insensitive("hello", "hello2"));
}

#[test]
fn lfn_code_units() {
    assert_eq!(lfn_char_to_utf8(0x41), 'A');
    assert_eq!(lfn_char_to_utf8(0x00E9), '\u{e9}');
    assert_eq!(lfn_char_to_utf8(0xD800), '\u{FFFD}');
}

#[test]
fn dir_entry_round_trip() {
    let mut raw = [0u8; 32];
    raw[..11].copy_from_slice(b"HELLO   TXT");
    raw[11] = 0x20;
    raw[20..22].copy_from_slice(&0x0001u16.to_le_bytes());
    raw[26..28].copy_from_slice(&0x0203u16.to_le_bytes());
    raw[28..32].copy_from_slice(&1234u32.to_le_bytes());
    let e = Fat32DirEntry::from_bytes(&raw);
    assert_eq!(entry_cluster(&e), 0x0001_0203);
    assert_eq!(e.file_size, 1234);
    assert_eq!(e.encode(), raw.to_vec());
}
