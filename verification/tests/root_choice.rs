use kernel::boot::{btrfs_is_root_candidate, fat32_is_root_candidate, is_home_candidate};

#[test]
fn btrfs_root_selection() {
    assert!(btrfs_is_root_candidate(None, Some(b"BAZZULTO"), false));
    assert!(!btrfs_is_root_candidate(None, Some(b"bazzulto"), false));
    assert!(!btrfs_is_root_candidate(None, Some(b"BAZZULTO"), true));
    assert!(!btrfs_is_root_candidate(Some(b"DATA"), None, false));
    assert!(btrfs_is_root_candidate(Some(b"data"), Some(b"DATA"), false));
    assert!(btrfs_is_root_candidate(Some(b"UUID=1234-ABCD"), Some(b"BAZZULTO"), false));
    assert!(!btrfs_is_root_candidate(Some(b"UUID=1234-ABCD"), Some(b"DATA"), false));
}

#[test]
fn fat32_root_selection() {
    let label = *b"BOOT       ";
    assert!(fat32_is_root_candidate(Some(b"UUID=1234-ABCD"), 0x1234ABCD, &label, true));
    assert!(!fat32_is_root_candidate(Some(b"UUID=1234-ABCD"), 0x1234ABCE, &label, false));
    assert!(fat32_is_root_candidate(Some(b"boot"), 0, &label, false));
    assert!(!fat32_is_root_candidate(Some(b"root"), 0, &label, false));
    assert!(fat32_is_root_candidate(None, 0, &label, false));
    assert!(!fat32_is_root_candidate(None, 0, &label, true));
}

#[test]
fn home_selection() {
    assert!(!is_home_candidate(Some(b"BAZZULTO")));
    assert!(is_home_candidate(Some(b"HOME")));
    assert!(is_home_candidate(None));
}
