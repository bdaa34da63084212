use kernel::crc32c::{btrfs_checksum, crc32c};

#[test]
fn known_vector() {
    // CRC32C("123456789") = 0xE3069283
    let result = !crc32c(!0u32, b"123456789");
    assert_eq!(result, 0xE3069283);
}

#[test]
fn empty_input() {
    let result = !crc32c(!0u32, b"");
    assert_eq!(result, 0x00000000);
}

#[test]
fn btrfs_checksum_matches_complemented_crc() {
    assert_eq!(btrfs_checksum(b"123456789"), 0xE3069283);
    assert_eq!(btrfs_checksum(b""), 0);
}

#[test]
fn crc32c_concatenation() {
    let whole = crc32c(!0u32, b"123456789");
    let split = crc32c(crc32c(!0u32, b"1234"), b"56789");
    assert_eq!(whole, split);
}
