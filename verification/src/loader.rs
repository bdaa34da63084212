//! ELF64 loading for AArch64 user processes: header validation, the plan
//! of the pages each PT_LOAD segment needs, and the initial stack page.
//!
//! Allocating physical pages and mapping them is the memory manager's
//! work; the functions here decide what goes where.

use vstd::prelude::*;
use vstd::slice::slice_subrange;
use vstd::bytes::{spec_u64_to_le_bytes, u64_to_le_bytes};
use crate::bytes::{le16, le32, le64, lemma_le_codec, read_u16_le, read_u32_le, read_u64_le, spliced, vec_of_zeros, write_bytes_at};

verus! {

/// ELF type of a fixed-address executable.
pub const ELF_TYPE_EXECUTABLE: u16 = 2;
/// ELF type of a position-independent executable.
pub const ELF_TYPE_SHARED: u16 = 3;
/// ELF machine number of AArch64.
pub const ELF_MACHINE_AARCH64: u16 = 183;
/// Program header type of a loadable segment.
pub const PT_LOAD: u32 = 1;
/// Segment flag: executable.
pub const PF_X: u32 = 0x1;
/// Size of the ELF64 file header.
pub const ELF_HEADER_SIZE: usize = 64;
/// Size of an ELF64 program header.
pub const PROGRAM_HEADER_SIZE: usize = 56;
/// Pages in the user stack region.
pub const USER_STACK_PAGES: u64 = 2048;
/// The ASLR offset is below this many pages.
pub const ASLR_MAX_OFFSET_PAGES: u64 = 65536;
/// Where position-independent images are loaded.
pub const USER_IMAGE_BASE: u64 = 0x0000_0000_0040_0000;
/// The user stack top before its ASLR offset.
pub const USER_STACK_TOP_BASE: u64 = 0x0000_7FFF_FFFF_F000;
/// At most this many arguments, and as many environment strings, are
/// placed on the initial stack.
pub const MAX_ARGS: usize = 64;

/// Why an image cannot be loaded.
#[derive(Clone, Copy, Debug, PartialEq, Eq, Structural)]
pub enum LoaderError {
    /// The binary does not start with the ELF magic bytes.
    NotAnElf,
    /// ELF class, data encoding, or machine type is incompatible.
    UnsupportedFormat,
    /// ELF type is neither ET_EXEC nor ET_DYN.
    NotExecutable,
    /// A PT_LOAD segment's address is not page-aligned.
    UnalignedSegment,
    /// Out of physical memory.
    OutOfPhysicalMemory,
    /// Page table mapping failed.
    MappingFailed,
    /// The ELF header or a program header lies outside the data.
    Truncated,
    /// The binary was not found.
    NotFound,
}

/// What the loader takes from a valid ELF header.
#[derive(Clone, Copy, Debug, PartialEq, Eq, Structural)]
pub struct ElfImageInfo {
    /// Entry point as linked.
    pub entry: u64,
    /// ET_DYN: loaded at `USER_IMAGE_BASE` plus a random offset.
    pub is_pie: bool,
    pub phoff: u64,
    pub phentsize: u16,
    pub phnum: u16,
}

/// The outcome of validating the header of `d`.
pub open spec fn elf_header_check(d: Seq<u8>) -> Result<ElfImageInfo, LoaderError> {
    if d.len() < 64 {
        Err(LoaderError::Truncated)
    } else if !(d[0] == 0x7F && d[1] == 0x45 && d[2] == 0x4C && d[3] == 0x46) {
        Err(LoaderError::NotAnElf)
    } else if d[4] != 2 || d[5] != 1 || le16(d, 18) != ELF_MACHINE_AARCH64 {
        Err(LoaderError::UnsupportedFormat)
    } else if le16(d, 16) != ELF_TYPE_EXECUTABLE && le16(d, 16) != ELF_TYPE_SHARED {
        Err(LoaderError::NotExecutable)
    } else {
        Ok(ElfImageInfo {
            entry: le64(d, 24),
            is_pie: le16(d, 16) == ELF_TYPE_SHARED,
            phoff: le64(d, 32),
            phentsize: le16(d, 54),
            phnum: le16(d, 56),
        })
    }
}

/// Validate the ELF64 header of `elf`: magic, 64-bit little-endian AArch64,
/// and an executable (fixed or position-independent) type.
pub fn parse_elf_header(elf: &[u8]) -> (r: Result<ElfImageInfo, LoaderError>)
    ensures
        r == elf_header_check(elf@),
{
    if elf.len() < ELF_HEADER_SIZE {
        return Err(LoaderError::Truncated);
    }
    if !(elf[0] == 0x7F && elf[1] == 0x45 && elf[2] == 0x4C && elf[3] == 0x46) {
        return Err(LoaderError::NotAnElf);
    }
    let machine = read_u16_le(elf, 18);
    if elf[4] != 2 || elf[5] != 1 || machine != ELF_MACHINE_AARCH64 {
        return Err(LoaderError::UnsupportedFormat);
    }
    let e_type = read_u16_le(elf, 16);
    if e_type != ELF_TYPE_EXECUTABLE && e_type != ELF_TYPE_SHARED {
        return Err(LoaderError::NotExecutable);
    }
    Ok(ElfImageInfo {
        entry: read_u64_le(elf, 24),
        is_pie: e_type == ELF_TYPE_SHARED,
        phoff: read_u64_le(elf, 32),
        phentsize: read_u16_le(elf, 54),
        phnum: read_u16_le(elf, 56),
    })
}

/// An ELF image is accepted exactly when it holds a whole 64-byte header
/// with the magic 7F 'E' 'L' 'F', class ELFCLASS64 (2), little-endian data
/// (1), machine AArch64 (183) and type ET_EXEC (2) or ET_DYN (3); the
/// errors are checked in that order.  An accepted image is
/// position-independent exactly when its type is ET_DYN, and its entry
/// point, program-header offset, entry size and count are the header's
/// fields at bytes 24, 32, 54 and 56.
pub proof fn lemma_elf_header_acceptance(d: Seq<u8>)
    ensures
        d.len() < 64 ==> elf_header_check(d) == Err::<ElfImageInfo, LoaderError>(LoaderError::Truncated),
        d.len() >= 64 && !(d[0] == 0x7F && d[1] == 0x45 && d[2] == 0x4C && d[3] == 0x46)
            ==> elf_header_check(d) == Err::<ElfImageInfo, LoaderError>(LoaderError::NotAnElf),
        elf_header_check(d) is Ok <==> (d.len() >= 64 && d[0] == 0x7F && d[1] == 0x45 && d[2] == 0x4C && d[3] == 0x46
            && d[4] == 2 && d[5] == 1 && le16(d, 18) == 183 && (le16(d, 16) == 2 || le16(d, 16) == 3)),
        elf_header_check(d) is Ok ==> elf_header_check(d)->Ok_0 == (ElfImageInfo {
            entry: le64(d, 24),
            is_pie: le16(d, 16) == 3,
            phoff: le64(d, 32),
            phentsize: le16(d, 54),
            phnum: le16(d, 56),
        }),
{
}

/// Where the image is based: `USER_IMAGE_BASE` for a position-independent
/// image, else 0.
pub open spec fn load_base_of(info: ElfImageInfo) -> u64 {
    if info.is_pie { USER_IMAGE_BASE } else { 0 }
}

/// `value` rounded down to a multiple of `alignment` (a power of two).
pub open spec fn align_down_spec(value: u64, alignment: u64) -> u64 {
    value & !((alignment - 1) as u64)
}

/// `value` rounded up to a multiple of `alignment` (a power of two); the
/// sum wraps.
pub open spec fn align_up_spec(value: u64, alignment: u64) -> u64 {
    (value.wrapping_add((alignment - 1) as u64)) & !((alignment - 1) as u64)
}

/// Page rounding: rounding down to 4096 drops the offset in the page;
/// rounding up gives the least multiple of 4096 not below the value (when
/// that does not pass 2^64).
pub proof fn lemma_page_rounding(x: u64)
    ensures
        align_down_spec(x, 4096) == x - x % 4096,
        x <= u64::MAX - 4095 ==> align_up_spec(x, 4096) == (x + 4095) / 4096 * 4096,
        x <= u64::MAX - 4095 ==> align_up_spec(x, 4096) >= x && align_up_spec(x, 4096) - x < 4096
            && align_up_spec(x, 4096) % 4096 == 0,
{
    assert(x & !(4095u64) == x - x % 4096) by (bit_vector);
    if x <= u64::MAX - 4095 {
        let y = x.wrapping_add(4095u64);
        assert(y == x + 4095);
        assert(y & !(4095u64) == y - y % 4096) by (bit_vector);
        assert((x + 4095) / 4096 * 4096 == (x + 4095) - (x + 4095) % 4096) by (nonlinear_arith);
    }
}

/// Round `value` down to a multiple of `alignment`.
pub fn align_down(value: u64, alignment: u64) -> (r: u64)
    requires
        alignment >= 1,
    ensures
        r == align_down_spec(value, alignment),
{
    value & !(alignment - 1)
}

/// Round `value` up to a multiple of `alignment` (the sum wraps).
pub fn align_up(value: u64, alignment: u64) -> (r: u64)
    requires
        alignment >= 1,
    ensures
        r == align_up_spec(value, alignment),
{
    value.wrapping_add(alignment - 1) & !(alignment - 1)
}

/// One PT_LOAD segment as it will be mapped.
#[derive(Clone, Copy, Debug, PartialEq, Eq, Structural)]
pub struct LoadSegment {
    /// Virtual address of the segment after relocation.
    pub vaddr: u64,
    /// First page of the segment.
    pub vaddr_page: u64,
    /// Number of pages to map from `vaddr_page`.
    pub page_count: u64,
    /// Mapped as code (PF_X), else as data.
    pub executable: bool,
    /// Where the segment's file bytes start, and how many there are.
    pub file_offset: u64,
    pub file_size: u64,
}

/// The segment described by the program header at `off` of `d`: `None`
/// for a header that is not PT_LOAD; addresses relocated by `base` (sums
/// and differences wrap).
pub open spec fn segment_at(d: Seq<u8>, off: int, base: u64, page_size: u64) -> Result<Option<LoadSegment>, LoaderError> {
    let p_vaddr = le64(d, off + 16);
    let vaddr = p_vaddr.wrapping_add(base);
    let vaddr_page = align_down_spec(vaddr, page_size);
    let end_page = align_up_spec(vaddr.wrapping_add(le64(d, off + 40)), page_size);
    if le32(d, off) != PT_LOAD {
        Ok(None)
    } else if vaddr % page_size != p_vaddr % page_size && p_vaddr % page_size != 0 {
        Err(LoaderError::UnalignedSegment)
    } else {
        Ok(Some(LoadSegment {
            vaddr,
            vaddr_page,
            page_count: end_page.wrapping_sub(vaddr_page) / page_size,
            executable: le32(d, off + 4) & PF_X != 0,
            file_offset: le64(d, off + 8),
            file_size: le64(d, off + 32),
        }))
    }
}

/// Where program header `index` starts, when its offset fits in 64 bits.
pub open spec fn ph_offset(info: ElfImageInfo, index: int) -> Option<int> {
    let rel = index * info.phentsize;
    if rel > u64::MAX || info.phoff + rel > u64::MAX { None } else { Some(info.phoff + rel) }
}

/// The segments of program headers `0..n`, in order, or the first error.
pub open spec fn segments_upto(d: Seq<u8>, info: ElfImageInfo, base: u64, page_size: u64, n: int) -> Result<Seq<LoadSegment>, LoaderError>
    decreases n,
{
    if n <= 0 {
        Ok(Seq::empty())
    } else {
        match segments_upto(d, info, base, page_size, n - 1) {
            Err(e) => Err(e),
            Ok(prev) => match ph_offset(info, n - 1) {
                None => Err(LoaderError::Truncated),
                Some(off) => if off + 56 > d.len() {
                    Err(LoaderError::Truncated)
                } else {
                    match segment_at(d, off, base, page_size) {
                        Err(e) => Err(e),
                        Ok(None) => Ok(prev),
                        Ok(Some(s)) => Ok(prev.push(s)),
                    }
                },
            },
        }
    }
}

/// The PT_LOAD segments of `elf`, relocated by `base` (the load base plus
/// the ASLR offset), in program header order.  `Truncated` for a program
/// header outside the data, `UnalignedSegment` as `segment_at` says.
pub fn plan_load_segments(elf: &[u8], info: &ElfImageInfo, base: u64, page_size: u64) -> (r: Result<Vec<LoadSegment>, LoaderError>)
    requires
        page_size >= 1,
    ensures
        match segments_upto(elf@, *info, base, page_size, info.phnum as int) {
            Ok(s) => r matches Ok(v) && v@ == s,
            Err(e) => r == Err::<Vec<LoadSegment>, LoaderError>(e),
        },
{
    let count = info.phnum as usize;
    let mut segments: Vec<LoadSegment> = Vec::new();
    let mut index: usize = 0;
    while index < count
        invariant
            count == info.phnum,
            index <= count,
            page_size >= 1,
            segments_upto(elf@, *info, base, page_size, index as int) == Ok::<Seq<LoadSegment>, LoaderError>(segments@),
        decreases count - index,
    {
        let rel = match (index as u64).checked_mul(info.phentsize as u64) {
            Some(v) => v,
            None => {
                proof { lemma_segments_error_stays(elf@, *info, base, page_size, index as int + 1, count as int); }
                return Err(LoaderError::Truncated);
            },
        };
        let off64 = match info.phoff.checked_add(rel) {
            Some(v) => v,
            None => {
                proof { lemma_segments_error_stays(elf@, *info, base, page_size, index as int + 1, count as int); }
                return Err(LoaderError::Truncated);
            },
        };
        assert(ph_offset(*info, index as int) == Some(off64 as int));
        if off64 > elf.len() as u64 || (elf.len() as u64) - off64 < PROGRAM_HEADER_SIZE as u64 {
            proof { lemma_segments_error_stays(elf@, *info, base, page_size, index as int + 1, count as int); }
            return Err(LoaderError::Truncated);
        }
        let off = off64 as usize;
        let p_type = read_u32_le(elf, off);
        if p_type == PT_LOAD {
            let p_flags = read_u32_le(elf, off + 4);
            let p_offset = read_u64_le(elf, off + 8);
            let p_vaddr = read_u64_le(elf, off + 16);
            let p_filesz = read_u64_le(elf, off + 32);
            let p_memsz = read_u64_le(elf, off + 40);
            let vaddr = p_vaddr.wrapping_add(base);
            let vaddr_page = align_down(vaddr, page_size);
            let end_page = align_up(vaddr.wrapping_add(p_memsz), page_size);
            assert(segment_at(elf@, off as int, base, page_size) == (if vaddr % page_size != p_vaddr % page_size && p_vaddr % page_size != 0 {
                Err(LoaderError::UnalignedSegment)
            } else {
                Ok(Some(LoadSegment {
                    vaddr,
                    vaddr_page,
                    page_count: end_page.wrapping_sub(vaddr_page) / page_size,
                    executable: p_flags & PF_X != 0,
                    file_offset: p_offset,
                    file_size: p_filesz,
                }))
            }));
            if vaddr % page_size != p_vaddr % page_size && p_vaddr % page_size != 0 {
                proof { lemma_segments_error_stays(elf@, *info, base, page_size, index as int + 1, count as int); }
                return Err(LoaderError::UnalignedSegment);
            }
            segments.push(LoadSegment {
                vaddr,
                vaddr_page,
                page_count: end_page.wrapping_sub(vaddr_page) / page_size,
                executable: p_flags & PF_X != 0,
                file_offset: p_offset,
                file_size: p_filesz,
            });
        }
        assert(p_type != PT_LOAD ==> segment_at(elf@, off as int, base, page_size) == Ok::<Option<LoadSegment>, LoaderError>(None));
        index = index + 1;
    }
    Ok(segments)
}

/// Once the segments up to `n` fail, so do those up to any later `m`,
/// with the same error.
proof fn lemma_segments_error_stays(d: Seq<u8>, info: ElfImageInfo, base: u64, page_size: u64, n: int, m: int)
    requires
        0 <= n <= m,
        segments_upto(d, info, base, page_size, n) is Err,
    ensures
        segments_upto(d, info, base, page_size, m) == segments_upto(d, info, base, page_size, n),
    decreases m - n,
{
    if m > n {
        lemma_segments_error_stays(d, info, base, page_size, n, m - 1);
    }
}

/// File bytes to copy: where they start and how many.
#[derive(Clone, Copy, Debug, PartialEq, Eq, Structural)]
pub struct FileCopy {
    pub offset: u64,
    pub length: u64,
}

/// A page of a segment: its address, and the file bytes to copy to its
/// start, if any.
#[derive(Clone, Copy, Debug, PartialEq, Eq, Structural)]
pub struct PagePlan {
    pub page_vaddr: u64,
    pub copy: Option<FileCopy>,
}

/// `a - b`, or 0 below zero.
pub open spec fn sat_sub(a: u64, b: u64) -> u64 {
    if a >= b { (a - b) as u64 } else { 0 }
}

/// Page `i` of `seg`: its address (the sum wraps) and the file bytes that
/// belong on it, at most a page; nothing is copied when none are left or
/// they would run past the end of the file (`elf_len` bytes).
pub open spec fn page_plan_spec(seg: LoadSegment, i: u64, page_size: u64, elf_len: int) -> PagePlan {
    let page_vaddr = seg.vaddr_page.wrapping_add(i.wrapping_mul(page_size));
    let start = sat_sub(page_vaddr, seg.vaddr);
    let file_offset = seg.file_offset.wrapping_add(start);
    let remaining = sat_sub(seg.file_size, start);
    let len = if remaining < page_size { remaining } else { page_size };
    PagePlan {
        page_vaddr,
        copy: if len > 0 && file_offset + len <= elf_len { Some(FileCopy { offset: file_offset, length: len }) } else { None },
    }
}

/// For a page-aligned segment whose file bytes lie inside the file, page
/// `i` sits `i` pages after the segment's start and receives the file
/// bytes that belong at that place, a page of them at most: the file
/// bytes from `i` pages into the segment's data, as many as are left.
/// Pages past the file bytes get nothing to copy (they stay zero), and
/// consecutive full pages take consecutive runs of the file.
pub proof fn lemma_page_plan_slices_file(seg: LoadSegment, i: u64, page_size: u64, elf_len: int)
    requires
        seg.vaddr_page == seg.vaddr,
        page_size > 0,
        seg.vaddr + (i + 1) * page_size <= u64::MAX,
        seg.file_offset + seg.file_size <= elf_len,
        seg.file_offset + seg.file_size <= u64::MAX,
    ensures
        page_plan_spec(seg, i, page_size, elf_len).page_vaddr == seg.vaddr + i * page_size,
        i * page_size < seg.file_size ==> page_plan_spec(seg, i, page_size, elf_len).copy == Some(FileCopy {
            offset: (seg.file_offset + i * page_size) as u64,
            length: (if seg.file_size - i * page_size < page_size { seg.file_size - i * page_size } else { page_size as int }) as u64,
        }),
        i * page_size >= seg.file_size ==> page_plan_spec(seg, i, page_size, elf_len).copy is None,
{
    assert(i * page_size <= (i + 1) * page_size) by (nonlinear_arith) requires page_size > 0;
    assert((i + 1) * page_size == i * page_size + page_size) by (nonlinear_arith);
    assert(i * page_size <= u64::MAX);
    assert(i.wrapping_mul(page_size) == i * page_size);
    assert(seg.vaddr_page.wrapping_add(i.wrapping_mul(page_size)) == seg.vaddr + i * page_size);
}

/// What goes on page `page_index` of `seg` (see `page_plan_spec`).
pub fn plan_segment_page(seg: &LoadSegment, page_index: u64, page_size: u64, elf_len: usize) -> (p: PagePlan)
    ensures
        p == page_plan_spec(*seg, page_index, page_size, elf_len as int),
{
    let page_vaddr = seg.vaddr_page.wrapping_add(page_index.wrapping_mul(page_size));
    let start = if page_vaddr >= seg.vaddr { page_vaddr - seg.vaddr } else { 0 };
    let file_offset = seg.file_offset.wrapping_add(start);
    let remaining = if seg.file_size >= start { seg.file_size - start } else { 0 };
    let len = if remaining < page_size { remaining } else { page_size };
    let fits = file_offset <= elf_len as u64 && len <= (elf_len as u64) - file_offset;
    PagePlan { page_vaddr, copy: if len > 0 && fits { Some(FileCopy { offset: file_offset, length: len }) } else { None } }
}

/// The ASLR offset for a random value: a whole number of pages below
/// `max_pages` pages.
pub fn aslr_page_offset(random_value: u64, page_size: u64, max_pages: u64) -> (r: u64)
    requires
        max_pages >= 1,
        page_size * max_pages <= u64::MAX,
    ensures
        r == (random_value % max_pages) * page_size,
        r < page_size * max_pages || page_size == 0,
{
    let pages = random_value % max_pages;
    assert(pages * page_size <= (max_pages - 1) * page_size) by (nonlinear_arith)
        requires pages < max_pages;
    assert((max_pages - 1) * page_size == page_size * max_pages - page_size) by (nonlinear_arith);
    pages * page_size
}

/// The entry point after relocation (the sums wrap).
pub open spec fn entry_point_spec(info: ElfImageInfo, aslr_offset: u64) -> u64 {
    info.entry.wrapping_add(load_base_of(info)).wrapping_add(aslr_offset)
}

/// The relocation of the image: the load base, plus the ASLR offset for a
/// position-independent image (none for a fixed one).
pub fn image_base(info: &ElfImageInfo, aslr_offset: u64) -> (r: u64)
    ensures
        r == load_base_of(*info).wrapping_add(if info.is_pie { aslr_offset } else { 0 }),
{
    let base: u64 = if info.is_pie { USER_IMAGE_BASE } else { 0 };
    base.wrapping_add(if info.is_pie { aslr_offset } else { 0 })
}

/// The entry point of the loaded image.
pub fn entry_point(info: &ElfImageInfo, aslr_offset: u64) -> (r: u64)
    ensures
        r == entry_point_spec(*info, aslr_offset),
{
    let base: u64 = if info.is_pie { USER_IMAGE_BASE } else { 0 };
    info.entry.wrapping_add(base).wrapping_add(aslr_offset)
}

/// The user stack: `[stack_bottom, stack_top)`, of which only the page at
/// `top_page_va` is mapped at first.
#[derive(Clone, Copy, Debug, PartialEq, Eq, Structural)]
pub struct StackLayout {
    pub stack_top: u64,
    pub stack_bottom: u64,
    pub top_page_va: u64,
}

/// The stack region below `USER_STACK_TOP_BASE` moved down by
/// `stack_aslr`, `USER_STACK_PAGES` pages long.
pub fn stack_layout(stack_aslr: u64, page_size: u64) -> (l: StackLayout)
    requires
        stack_aslr + USER_STACK_PAGES * page_size <= USER_STACK_TOP_BASE,
    ensures
        l.stack_top == USER_STACK_TOP_BASE - stack_aslr,
        l.stack_bottom == USER_STACK_TOP_BASE - stack_aslr - USER_STACK_PAGES * page_size,
        l.top_page_va == USER_STACK_TOP_BASE - stack_aslr - page_size,
{
    assert(page_size <= USER_STACK_PAGES * page_size) by (nonlinear_arith);
    let stack_top = USER_STACK_TOP_BASE - stack_aslr;
    StackLayout {
        stack_top,
        stack_bottom: stack_top - USER_STACK_PAGES * page_size,
        top_page_va: stack_top - page_size,
    }
}

/// A process image once loaded: where it starts, its initial stack, and its
/// page table.
pub struct LoadedImage<P> {
    /// Entry point virtual address (after ASLR adjustment).
    pub entry_point: u64,
    /// Initial user stack pointer: the address of `argc`.
    pub initial_stack_pointer: u64,
    /// Number of arguments.
    pub argc: usize,
    /// Address of the argv[] pointer array.
    pub argv_va: u64,
    /// Address of the envp[] pointer array.
    pub envp_va: u64,
    /// The new user page table.
    pub page_table: P,
    /// The demand-paged stack region `[stack_demand_base, stack_demand_top)`.
    pub stack_demand_base: u64,
    pub stack_demand_top: u64,
}

/// `page` with the writes `(offset, bytes)` applied in order.
pub open spec fn apply_writes(page: Seq<u8>, writes: Seq<(int, Seq<u8>)>) -> Seq<u8>
    decreases writes.len(),
{
    if writes.len() == 0 {
        page
    } else {
        spliced(apply_writes(page, writes.drop_last()), writes.last().0, writes.last().1)
    }
}

/// The writes that place `strings` in the string area from `cursor` on,
/// with their pointer slots from `slot_base`: each string, cut to the room
/// left on the page, then a NUL, and its address in its slot; with no room
/// left at all the slot gets NULL.  Also the cursor after them.
pub open spec fn array_writes(strings: Seq<Seq<u8>>, slot_base: int, cursor: int, page_va: int, page_size: int) -> (Seq<(int, Seq<u8>)>, int)
    decreases strings.len(),
{
    if strings.len() == 0 {
        (Seq::empty(), cursor)
    } else {
        let (w, c) = array_writes(strings.drop_last(), slot_base, cursor, page_va, page_size);
        let slot = slot_base + 8 * (strings.len() - 1);
        let s = strings.last();
        if page_size <= c {
            (w.push((slot, spec_u64_to_le_bytes(0))), c)
        } else {
            let n = if s.len() < page_size - c - 1 { s.len() as int } else { page_size - c - 1 };
            (w.push((c, s.subrange(0, n).push(0u8))).push((slot, spec_u64_to_le_bytes((page_va + c) as u64))), c + n + 1)
        }
    }
}

/// How many of `len` strings are placed: at most `MAX_ARGS`.
pub open spec fn placed_count(len: int) -> int {
    if len < MAX_ARGS { len } else { MAX_ARGS as int }
}

/// All writes of the initial stack page at `page_va`, in order: argc, the
/// argv strings and slots, argv's NULL, the environment strings and slots,
/// envp's NULL.  The string area starts after the pointer arrays.
pub open spec fn stack_page_writes(argv: Seq<Seq<u8>>, envp: Seq<Seq<u8>>, page_va: int, page_size: int) -> Seq<(int, Seq<u8>)> {
    let argc = placed_count(argv.len() as int);
    let envc = placed_count(envp.len() as int);
    let header = 8 * (3 + argc + envc);
    let (wa, c1) = array_writes(argv.subrange(0, argc), 8, header, page_va, page_size);
    let envp_base = 8 + 8 * argc + 8;
    let (we, c2) = array_writes(envp.subrange(0, envc), envp_base, c1, page_va, page_size);
    seq![(0int, spec_u64_to_le_bytes(argc as u64))] + wa + seq![(8 + 8 * argc, spec_u64_to_le_bytes(0))] + we
        + seq![(envp_base + 8 * envc, spec_u64_to_le_bytes(0))]
}

/// Applying two lists of writes is applying the first, then the second.
proof fn lemma_apply_concat(page: Seq<u8>, a: Seq<(int, Seq<u8>)>, b: Seq<(int, Seq<u8>)>)
    ensures
        apply_writes(page, a + b) == apply_writes(apply_writes(page, a), b),
    decreases b.len(),
{
    if b.len() > 0 {
        assert((a + b).drop_last() =~= a + b.drop_last());
        lemma_apply_concat(page, a, b.drop_last());
    } else {
        assert(a + b =~= a);
    }
}

/// Writes that stay inside the page and away from `[lo, hi)` keep the
/// page's length and those bytes.
proof fn lemma_apply_keeps(page: Seq<u8>, ws: Seq<(int, Seq<u8>)>, lo: int, hi: int)
    requires
        0 <= lo <= hi <= page.len(),
        forall|i: int| 0 <= i < ws.len() ==> 0 <= (#[trigger] ws[i]).0 && ws[i].0 + ws[i].1.len() <= page.len()
            && (ws[i].0 >= hi || ws[i].0 + ws[i].1.len() <= lo),
    ensures
        apply_writes(page, ws).len() == page.len(),
        apply_writes(page, ws).subrange(lo, hi) == page.subrange(lo, hi),
    decreases ws.len(),
{
    if ws.len() > 0 {
        let prev = ws.drop_last();
        assert forall|i: int| 0 <= i < prev.len() implies 0 <= (#[trigger] prev[i]).0 && prev[i].0 + prev[i].1.len() <= page.len()
            && (prev[i].0 >= hi || prev[i].0 + prev[i].1.len() <= lo) by {
            assert(prev[i] == ws[i]);
        }
        lemma_apply_keeps(page, prev, lo, hi);
        let q = apply_writes(page, prev);
        let w = ws.last();
        assert(ws[ws.len() - 1] == w);
        assert(spliced(q, w.0, w.1).subrange(lo, hi) =~= q.subrange(lo, hi));
    }
}

/// Where `array_writes` writes: each slot (8 bytes) between `slot_base`
/// and the end of the slots, each string between `cursor` and the end of
/// the page; the cursor only moves forward and stays on the page.
proof fn lemma_array_writes_bounds(strings: Seq<Seq<u8>>, slot_base: int, cursor: int, page_va: int, page_size: int)
    requires
        0 <= slot_base,
        slot_base + 8 * strings.len() <= cursor <= page_size,
    ensures
        cursor <= array_writes(strings, slot_base, cursor, page_va, page_size).1 <= page_size,
        forall|i: int| 0 <= i < array_writes(strings, slot_base, cursor, page_va, page_size).0.len() ==> {
            let w = #[trigger] array_writes(strings, slot_base, cursor, page_va, page_size).0[i];
            ||| (slot_base <= w.0 && w.0 + w.1.len() <= slot_base + 8 * strings.len())
            ||| (cursor <= w.0 && w.0 + w.1.len() <= page_size)
        },
    decreases strings.len(),
{
    if strings.len() > 0 {
        let prev = strings.drop_last();
        lemma_array_writes_bounds(prev, slot_base, cursor, page_va, page_size);
        let (w, c) = array_writes(prev, slot_base, cursor, page_va, page_size);
        let ws = array_writes(strings, slot_base, cursor, page_va, page_size).0;
        assert forall|i: int| 0 <= i < ws.len() implies {
            let x = #[trigger] ws[i];
            ||| (slot_base <= x.0 && x.0 + x.1.len() <= slot_base + 8 * strings.len())
            ||| (cursor <= x.0 && x.0 + x.1.len() <= page_size)
        } by {
            lemma_le_codec();
            if i < w.len() {
                assert(ws[i] == w[i]);
            } else {
                let st = strings.last();
                if page_size > c {
                    let n = if st.len() < page_size - c - 1 { st.len() as int } else { page_size - c - 1 };
                    assert(st.subrange(0, n).push(0u8).len() == n + 1);
                }
            }
        }
    }
}

/// The initial stack page holds `argc` at its start and NULL right after
/// the argv pointers, as the AArch64 process start-up layout requires.
pub proof fn lemma_stack_page_argc(argv: Seq<Seq<u8>>, envp: Seq<Seq<u8>>, page_va: int, page_size: int)
    requires
        1048 <= page_size,
    ensures
        ({
            let page = apply_writes(Seq::new(page_size as nat, |i: int| 0u8), stack_page_writes(argv, envp, page_va, page_size));
            let argc = placed_count(argv.len() as int);
            &&& page.len() == page_size
            &&& le64(page, 0) == argc
            &&& le64(page, 8 + 8 * argc) == 0
        }),
{
    lemma_le_codec();
    let zero = Seq::new(page_size as nat, |i: int| 0u8);
    let argc = placed_count(argv.len() as int);
    let envc = placed_count(envp.len() as int);
    let header = 8 * (3 + argc + envc);
    let av = argv.subrange(0, argc);
    let ev = envp.subrange(0, envc);
    let (wa, c1) = array_writes(av, 8, header, page_va, page_size);
    let envp_base = 8 + 8 * argc + 8;
    let (we, c2) = array_writes(ev, envp_base, c1, page_va, page_size);
    lemma_array_writes_bounds(av, 8, header, page_va, page_size);
    lemma_array_writes_bounds(ev, envp_base, c1, page_va, page_size);
    let w0 = seq![(0int, spec_u64_to_le_bytes(argc as u64))];
    let wn = seq![(8 + 8 * argc, spec_u64_to_le_bytes(0))];
    let wz = seq![(envp_base + 8 * envc, spec_u64_to_le_bytes(0))];
    assert(stack_page_writes(argv, envp, page_va, page_size) == w0 + wa + wn + we + wz);
    // After the argc word.
    let p1 = apply_writes(zero, w0);
    assert(w0.drop_last() =~= Seq::<(int, Seq<u8>)>::empty());
    assert(apply_writes(zero, w0.drop_last()) == zero);
    assert(w0.last() == (0int, spec_u64_to_le_bytes(argc as u64)));
    assert(p1 == spliced(zero, 0, spec_u64_to_le_bytes(argc as u64)));
    assert(p1.subrange(0, 8) =~= spec_u64_to_le_bytes(argc as u64));
    // Everything after stays clear of [0, 8) and of the argv NULL word.
    let rest = wa + wn + we + wz;
    assert forall|i: int| 0 <= i < rest.len() implies 0 <= (#[trigger] rest[i]).0 && rest[i].0 + rest[i].1.len() <= page_size
        && (rest[i].0 >= 8 || rest[i].0 + rest[i].1.len() <= 0) by {
        if i < wa.len() {
            assert(rest[i] == wa[i]);
        } else if i < wa.len() + 1 {
            assert(rest[i] == wn[0]);
        } else if i < wa.len() + 1 + we.len() {
            assert(rest[i] == we[i - wa.len() - 1]);
        } else {
            assert(rest[i] == wz[0]);
        }
    }
    lemma_apply_concat(zero, w0, rest);
    assert(w0 + rest =~= w0 + wa + wn + we + wz);
    lemma_apply_keeps(p1, rest, 0, 8);
    // The argv NULL word: written by `wn`, untouched by what follows.
    let front = w0 + wa + wn;
    let back = we + wz;
    assert(w0 + wa + wn + we + wz =~= front + back);
    lemma_apply_concat(zero, front, back);
    let pf = apply_writes(zero, front);
    let pa = apply_writes(zero, w0 + wa);
    assert(front.drop_last() =~= w0 + wa);
    assert(front.last() == (8 + 8 * argc, spec_u64_to_le_bytes(0)));
    assert forall|i: int| 0 <= i < (w0 + wa).len() implies 0 <= (#[trigger] (w0 + wa)[i]).0
        && (w0 + wa)[i].0 + (w0 + wa)[i].1.len() <= page_size by {
        if i > 0 {
            assert((w0 + wa)[i] == wa[i - 1]);
        }
    }
    lemma_apply_keeps(zero, w0 + wa, 0, 0);
    assert(pf == spliced(pa, 8 + 8 * argc, spec_u64_to_le_bytes(0)));
    assert(pf.subrange(8 + 8 * argc, 16 + 8 * argc) =~= spec_u64_to_le_bytes(0));
    assert forall|i: int| 0 <= i < back.len() implies 0 <= (#[trigger] back[i]).0 && back[i].0 + back[i].1.len() <= page_size
        && (back[i].0 >= 16 + 8 * argc || back[i].0 + back[i].1.len() <= 8 + 8 * argc) by {
        if i < we.len() {
            assert(back[i] == we[i]);
        } else {
            assert(back[i] == wz[0]);
        }
    }
    lemma_apply_keeps(pf, back, 8 + 8 * argc, 16 + 8 * argc);
}

/// The byte views of a list of strings.
pub open spec fn strings_view<'a>(v: Seq<&'a [u8]>) -> Seq<Seq<u8>> {
    v.map_values(|s: &'a [u8]| s@)
}

/// The initial stack page and where its parts are.
pub struct ArgvPage {
    /// The page's bytes.
    pub page: Vec<u8>,
    /// The initial stack pointer (the page's address, where argc is).
    pub initial_stack_pointer: u64,
    pub argc: usize,
    pub argv_va: u64,
    pub envp_va: u64,
}

/// Apply one more write to the page.
fn write_at(page: &mut Vec<u8>, off: usize, bytes: &[u8], Ghost(writes): Ghost<Seq<(int, Seq<u8>)>>, Ghost(zero): Ghost<Seq<u8>>)
    requires
        old(page)@ == apply_writes(zero, writes),
        off + bytes@.len() <= old(page)@.len(),
    ensures
        final(page)@ == apply_writes(zero, writes.push((off as int, bytes@))),
        final(page)@.len() == old(page)@.len(),
{
    write_bytes_at(page.as_mut_slice(), off, bytes);
    assert(writes.push((off as int, bytes@)).drop_last() =~= writes);
}

/// Place `strings` as `array_writes` says, starting at `cursor`.
fn place_strings(
    page: &mut Vec<u8>,
    strings: &[&[u8]],
    count: usize,
    slot_base: usize,
    cursor: usize,
    page_va: u64,
    page_size: usize,
    Ghost(writes): Ghost<Seq<(int, Seq<u8>)>>,
    Ghost(zero): Ghost<Seq<u8>>,
) -> (c: usize)
    requires
        old(page)@ == apply_writes(zero, writes),
        old(page)@.len() == page_size,
        count <= strings@.len(),
        slot_base + 8 * count <= cursor <= page_size,
        page_va + page_size <= u64::MAX,
    ensures
        final(page)@.len() == page_size,
        (final(page)@, c as int) == ({
            let (w, c2) = array_writes(strings_view(strings@).subrange(0, count as int), slot_base as int, cursor as int,
                page_va as int, page_size as int);
            (apply_writes(zero, writes + w), c2)
        }),
        cursor <= c <= page_size,
{
    let mut c = cursor;
    let mut i: usize = 0;
    let ghost mut done: Seq<(int, Seq<u8>)> = Seq::empty();
    while i < count
        invariant
            count <= strings@.len(),
            i <= count,
            page@.len() == page_size,
            slot_base + 8 * count <= cursor <= c <= page_size,
            page_va + page_size <= u64::MAX,
            (done, c as int) == array_writes(strings_view(strings@).subrange(0, i as int), slot_base as int, cursor as int,
                page_va as int, page_size as int),
            page@ == apply_writes(zero, writes + done),
        decreases count - i,
    {
        let s = strings[i];
        let slot = slot_base + 8 * i;
        let ghost sv = strings_view(strings@).subrange(0, i + 1);
        proof {
            assert(sv.drop_last() =~= strings_view(strings@).subrange(0, i as int));
            assert(sv.last() == s@);
        }
        if page_size <= c {
            let zero_word = u64_to_le_bytes(0);
            write_at(page, slot, zero_word.as_slice(), Ghost(writes + done), Ghost(zero));
            proof {
                assert((writes + done).push((slot as int, zero_word@)) =~= writes + done.push((slot as int, zero_word@)));
                done = done.push((slot as int, zero_word@));
            }
        } else {
            let n = if s.len() < page_size - c - 1 { s.len() } else { page_size - c - 1 };
            let mut bytes: Vec<u8> = Vec::new();
            crate::bytes::push_slice(&mut bytes, slice_subrange(s, 0, n));
            bytes.push(0u8);
            assert(bytes@ =~= s@.subrange(0, n as int).push(0u8));
            write_at(page, c, bytes.as_slice(), Ghost(writes + done), Ghost(zero));
            proof {
                assert((writes + done).push((c as int, bytes@)) =~= writes + done.push((c as int, bytes@)));
                done = done.push((c as int, bytes@));
            }
            let addr = u64_to_le_bytes(page_va + c as u64);
            write_at(page, slot, addr.as_slice(), Ghost(writes + done), Ghost(zero));
            proof {
                assert((writes + done).push((slot as int, addr@)) =~= writes + done.push((slot as int, addr@)));
                done = done.push((slot as int, addr@));
            }
            c = c + n + 1;
        }
        i = i + 1;
    }
    c
}

/// Build the initial stack page for a stack ending at `stack_top`: argc,
/// the argv and envp pointer arrays (at most `MAX_ARGS` entries each, each
/// ended by NULL) and the strings they point to, cut to what fits on the
/// page (see `stack_page_writes`).
pub fn build_argv_page(argv: &[&[u8]], envp: &[&[u8]], stack_top: u64, page_size: u64) -> (r: ArgvPage)
    requires
        4096 <= page_size <= stack_top,
        page_size <= usize::MAX,
    ensures
        r.page@ == apply_writes(Seq::new(page_size as nat, |i: int| 0u8),
            stack_page_writes(strings_view(argv@), strings_view(envp@), stack_top - page_size, page_size as int)),
        r.initial_stack_pointer == stack_top - page_size,
        r.argc == placed_count(argv@.len() as int),
        r.argv_va == stack_top - page_size + 8,
        r.envp_va == stack_top - page_size + 16 + 8 * placed_count(argv@.len() as int),
{
    let argc = if argv.len() < MAX_ARGS { argv.len() } else { MAX_ARGS };
    let envc = if envp.len() < MAX_ARGS { envp.len() } else { MAX_ARGS };
    let ps = page_size as usize;
    let page_va = stack_top - page_size;
    let mut page = vec_of_zeros(ps);
    let ghost zero = page@;
    assert(zero =~= Seq::new(page_size as nat, |i: int| 0u8));
    let header = 8 * (3 + argc + envc);
    let ghost mut writes: Seq<(int, Seq<u8>)> = Seq::empty();
    let argc_word = u64_to_le_bytes(argc as u64);
    write_at(&mut page, 0, argc_word.as_slice(), Ghost(writes), Ghost(zero));
    proof { writes = writes.push((0int, argc_word@)); }
    let c1 = place_strings(&mut page, argv, argc, 8, header, page_va, ps, Ghost(writes), Ghost(zero));
    let ghost (wa, _c) = array_writes(strings_view(argv@).subrange(0, argc as int), 8, header as int, page_va as int, ps as int);
    proof { writes = writes + wa; }
    let null_word = u64_to_le_bytes(0);
    let argv_null = 8 + argc * 8;
    write_at(&mut page, argv_null, null_word.as_slice(), Ghost(writes), Ghost(zero));
    proof { writes = writes.push((argv_null as int, null_word@)); }
    let envp_base = argv_null + 8;
    let _c2 = place_strings(&mut page, envp, envc, envp_base, c1, page_va, ps, Ghost(writes), Ghost(zero));
    let ghost (we, _c3) = array_writes(strings_view(envp@).subrange(0, envc as int), envp_base as int, c1 as int, page_va as int, ps as int);
    proof { writes = writes + we; }
    let envp_null = envp_base + envc * 8;
    write_at(&mut page, envp_null, null_word.as_slice(), Ghost(writes), Ghost(zero));
    proof {
        writes = writes.push((envp_null as int, null_word@));
        assert(strings_view(argv@).len() == argv@.len());
        assert(strings_view(envp@).len() == envp@.len());
        assert(writes =~= stack_page_writes(strings_view(argv@), strings_view(envp@), page_va as int, page_size as int));
    }
    ArgvPage {
        page,
        initial_stack_pointer: page_va,
        argc,
        argv_va: page_va + 8,
        envp_va: page_va + envp_base as u64,
    }
}

} // verus!
