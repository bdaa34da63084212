use kernel::loader::{
    aslr_page_offset, build_argv_page, entry_point, image_base, parse_elf_header, plan_load_segments,
    plan_segment_page, stack_layout, FileCopy, LoaderError, USER_IMAGE_BASE, USER_STACK_TOP_BASE,
};

fn elf_with_segment(e_type: u16, p_type: u32, vaddr: u64, filesz: u64, memsz: u64) -> Vec<u8> {
    let mut d = vec![0u8; 64 + 56 + 0x2000];
    d[..4].copy_from_slice(b"\x7FELF");
    d[4] = 2;
    d[5] = 1;
    d[16..18].copy_from_slice(&e_type.to_le_bytes());
    d[18..20].copy_from_slice(&183u16.to_le_bytes());
    d[24..32].copy_from_slice(&0x1234u64.to_le_bytes());
    d[32..40].copy_from_slice(&64u64.to_le_bytes());
    d[54..56].copy_from_slice(&56u16.to_le_bytes());
    d[56..58].copy_from_slice(&1u16.to_le_bytes());
    let ph = 64;
    d[ph..ph + 4].copy_from_slice(&p_type.to_le_bytes());
    d[ph + 4..ph + 8].copy_from_slice(&5u32.to_le_bytes());
    d[ph + 8..ph + 16].copy_from_slice(&0x100u64.to_le_bytes());
    d[ph + 16..ph + 24].copy_from_slice(&vaddr.to_le_bytes());
    d[ph + 32..ph + 40].copy_from_slice(&filesz.to_le_bytes());
    d[ph + 40..ph + 48].copy_from_slice(&memsz.to_le_bytes());
    d
}

#[test]
fn elf_header_checks() {
    let d = elf_with_segment(2, 1, 0x400000, 0x10, 0x10);
    let info = parse_elf_header(&d).unwrap();
    assert_eq!(info.entry, 0x1234);
    assert!(!info.is_pie);
    assert_eq!((info.phoff, info.phentsize, info.phnum), (64, 56, 1));
    assert_eq!(parse_elf_header(&d[..63]), Err(LoaderError::Truncated));
    let mut bad = d.clone();
    bad[1] = b'X';
    assert_eq!(parse_elf_header(&bad), Err(LoaderError::NotAnElf));
    let mut bad = d.clone();
    bad[18] = 62;
    assert_eq!(parse_elf_header(&bad), Err(LoaderError::UnsupportedFormat));
    let mut bad = d.clone();
    bad[16] = 4;
    assert_eq!(parse_elf_header(&bad), Err(LoaderError::NotExecutable));
    let pie = elf_with_segment(3, 1, 0, 0x10, 0x10);
    assert!(parse_elf_header(&pie).unwrap().is_pie);
}

#[test]
fn segment_plan_and_pages() {
    let d = elf_with_segment(2, 1, 0x400000, 0x1800, 0x3000);
    let info = parse_elf_header(&d).unwrap();
    let base = image_base(&info, 0x5000);
    assert_eq!(base, 0);
    let segs = plan_load_segments(&d, &info, base, 4096).unwrap();
    assert_eq!(segs.len(), 1);
    let s = segs[0];
    assert_eq!((s.vaddr, s.vaddr_page, s.page_count), (0x400000, 0x400000, 3));
    assert!(s.executable);
    let p0 = plan_segment_page(&s, 0, 4096, d.len());
    assert_eq!(p0.page_vaddr, 0x400000);
    assert_eq!(p0.copy, Some(FileCopy { offset: 0x100, length: 0x1000 }));
    let p1 = plan_segment_page(&s, 1, 4096, d.len());
    assert_eq!(p1.copy, Some(FileCopy { offset: 0x1100, length: 0x800 }));
    let p2 = plan_segment_page(&s, 2, 4096, d.len());
    assert_eq!(p2.copy, None);
    // Past the end of the file nothing is copied.
    let p1_short = plan_segment_page(&s, 1, 4096, 0x1200);
    assert_eq!(p1_short.copy, None);
}

#[test]
fn non_load_headers_are_skipped_and_bad_offsets_fail() {
    let d = elf_with_segment(2, 4, 0x400000, 0x10, 0x10);
    let info = parse_elf_header(&d).unwrap();
    assert_eq!(plan_load_segments(&d, &info, 0, 4096).unwrap().len(), 0);
    let mut t = elf_with_segment(2, 1, 0x400000, 0x10, 0x10);
    t[32..40].copy_from_slice(&(u64::MAX - 8).to_le_bytes());
    let info = parse_elf_header(&t).unwrap();
    assert_eq!(plan_load_segments(&t, &info, 0, 4096), Err(LoaderError::Truncated));
}

#[test]
fn unaligned_pie_segment_fails() {
    let d = elf_with_segment(3, 1, 0x10, 0x10, 0x10);
    let info = parse_elf_header(&d).unwrap();
    let base = image_base(&info, 0x3);
    assert_eq!(base, USER_IMAGE_BASE + 3);
    assert_eq!(plan_load_segments(&d, &info, base, 4096), Err(LoaderError::UnalignedSegment));
    assert_eq!(entry_point(&info, 0x2000), 0x1234 + USER_IMAGE_BASE + 0x2000);
}

#[test]
fn aslr_and_stack() {
    assert_eq!(aslr_page_offset(70000, 4096, 65536), (70000 % 65536) * 4096);
    let l = stack_layout(0x3000, 4096);
    assert_eq!(l.stack_top, USER_STACK_TOP_BASE - 0x3000);
    assert_eq!(l.top_page_va, l.stack_top - 4096);
    assert_eq!(l.stack_bottom, l.stack_top - 2048 * 4096);
}

#[test]
fn argv_page_layout() {
    let argv: [&[u8]; 2] = [b"init", b""];
    let envp: [&[u8]; 1] = [b"HOME=/"];
    let top = 0x8000u64;
    let r = build_argv_page(&argv, &envp, top, 4096);
    let page_va = top - 4096;
    let word = |off: usize| u64::from_le_bytes(r.page[off..off + 8].try_into().unwrap());
    assert_eq!(r.initial_stack_pointer, page_va);
    assert_eq!(r.argc, 2);
    assert_eq!(r.argv_va, page_va + 8);
    assert_eq!(r.envp_va, page_va + 32);
    assert_eq!(word(0), 2);
    let header = 8 * (3 + 2 + 1);
    assert_eq!(word(8), page_va + header as u64);
    assert_eq!(&r.page[header..header + 5], b"init\0");
    assert_eq!(word(16), page_va + header as u64 + 5);
    assert_eq!(r.page[header + 5], 0);
    assert_eq!(word(24), 0);
    assert_eq!(word(32), page_va + header as u64 + 6);
    assert_eq!(&r.page[header + 6..header + 13], b"HOME=/\0");
    assert_eq!(word(40), 0);
}
