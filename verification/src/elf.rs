//! The kernel's first ELF loader: reads the file and program headers in place
//! and plans the pages of each loadable segment, copying straight from the file.
use vstd::prelude::*;
use crate::bytes::{le_u16, le_u32, le_u64, read_u16_le, read_u32_le, read_u64_le};
use crate::elf_loading::{
    VirtualMemoryMappingFlags, PageCopy, page_copy_window, spec_page_copy,
};
use crate::elf_parsing::{TargetArch, ELF_HEADER_SIZE, PHDR_SIZE};
use crate::memory_layout::{
    PAGE_FRAME_SIZE, page_align_down, lemma_mask_page_down, lemma_page_align_down_bounds,
    lemma_aligned_distance, lemma_align_down_monotone, lemma_align_down_shift,
};

verus! {

/// Index of the data-encoding byte in `e_ident`.
pub const EI_DATA: usize = 0x5;

/// `e_ident[EI_DATA]` of a little-endian file.
pub const ELFDATA2LSB: u8 = 0x1;

pub const PT_LOAD: u32 = 0x01;

pub const ELF_PF_W: u32 = 0x2;

pub const ELF_PF_X: u32 = 0x1;

pub struct Elf {
    hhdm_offset: u64,
}

#[allow(non_camel_case_types)]
#[derive(Debug, Copy, Clone)]
pub struct Elf64_Ehdr {
    pub e_ident: [u8; 16],
    pub e_type: u16,
    pub e_machine: u16,
    pub e_version: u32,
    pub e_entry: u64,
    pub e_phoff: u64,
    pub e_shoff: u64,
    pub e_flags: u32,
    pub e_ehsize: u16,
    pub e_phentsize: u16,
    pub e_phnum: u16,
    pub e_shentsize: u16,
    pub e_shnum: u16,
    pub e_shstrndx: u16,
}

#[allow(non_camel_case_types)]
#[derive(Debug, Copy, Clone)]
pub struct Elf64_Phdr {
    pub p_type: u32,
    pub p_flags: u32,
    pub p_offset: u64,
    pub p_vaddr: u64,
    pub p_paddr: u64,
    pub p_filesz: u64,
    pub p_memsz: u64,
    pub p_align: u64,
}

/// `h` holds the file header stored at the start of `s`.
pub open spec fn ehdr_of(h: Elf64_Ehdr, s: Seq<u8>) -> bool {
    &&& h.e_ident@ == s.subrange(0, 16)
    &&& h.e_type == le_u16(s, 16)
    &&& h.e_machine == le_u16(s, 18)
    &&& h.e_version == le_u32(s, 20)
    &&& h.e_entry == le_u64(s, 24)
    &&& h.e_phoff == le_u64(s, 32)
    &&& h.e_shoff == le_u64(s, 40)
    &&& h.e_flags == le_u32(s, 48)
    &&& h.e_ehsize == le_u16(s, 52)
    &&& h.e_phentsize == le_u16(s, 54)
    &&& h.e_phnum == le_u16(s, 56)
    &&& h.e_shentsize == le_u16(s, 58)
    &&& h.e_shnum == le_u16(s, 60)
    &&& h.e_shstrndx == le_u16(s, 62)
}

/// `p` holds the program header stored at byte position `pos` of `s`.
pub open spec fn phdr_of(p: Elf64_Phdr, s: Seq<u8>, pos: int) -> bool {
    &&& p.p_type == le_u32(s, pos)
    &&& p.p_flags == le_u32(s, pos + 4)
    &&& p.p_offset == le_u64(s, pos + 8)
    &&& p.p_vaddr == le_u64(s, pos + 16)
    &&& p.p_paddr == le_u64(s, pos + 24)
    &&& p.p_filesz == le_u64(s, pos + 32)
    &&& p.p_memsz == le_u64(s, pos + 40)
    &&& p.p_align == le_u64(s, pos + 48)
}

impl Elf64_Ehdr {
    /// Reads the file header at the start of `data`.
    pub fn read(data: &[u8]) -> (r: Self)
        requires
            data.len() >= ELF_HEADER_SIZE,
        ensures
            ehdr_of(r, data@),
    {
        let e_ident: [u8; 16] = [
            data[0],
            data[1],
            data[2],
            data[3],
            data[4],
            data[5],
            data[6],
            data[7],
            data[8],
            data[9],
            data[10],
            data[11],
            data[12],
            data[13],
            data[14],
            data[15],
        ];
        assert(e_ident@ =~= data@.subrange(0, 16));
        Elf64_Ehdr {
            e_ident,
            e_type: read_u16_le(data, 16),
            e_machine: read_u16_le(data, 18),
            e_version: read_u32_le(data, 20),
            e_entry: read_u64_le(data, 24),
            e_phoff: read_u64_le(data, 32),
            e_shoff: read_u64_le(data, 40),
            e_flags: read_u32_le(data, 48),
            e_ehsize: read_u16_le(data, 52),
            e_phentsize: read_u16_le(data, 54),
            e_phnum: read_u16_le(data, 56),
            e_shentsize: read_u16_le(data, 58),
            e_shnum: read_u16_le(data, 60),
            e_shstrndx: read_u16_le(data, 62),
        }
    }
}

impl Elf64_Phdr {
    /// Reads the program header at byte position `pos` of `data`.
    pub fn read(data: &[u8], pos: usize) -> (r: Self)
        requires
            pos + PHDR_SIZE <= data.len(),
        ensures
            phdr_of(r, data@, pos as int),
    {
        Elf64_Phdr {
            p_type: read_u32_le(data, pos),
            p_flags: read_u32_le(data, pos + 4),
            p_offset: read_u64_le(data, pos + 8),
            p_vaddr: read_u64_le(data, pos + 16),
            p_paddr: read_u64_le(data, pos + 24),
            p_filesz: read_u64_le(data, pos + 32),
            p_memsz: read_u64_le(data, pos + 40),
            p_align: read_u64_le(data, pos + 48),
        }
    }
}

/// The mapping of a loadable segment's pages: present and user-accessible;
/// writable if the segment is, otherwise executable if the segment is.
pub open spec fn spec_phdr_vmm_flags(p_flags: u32) -> VirtualMemoryMappingFlags {
    VirtualMemoryMappingFlags {
        present: true,
        user: true,
        write: p_flags & ELF_PF_W != 0,
        execute: p_flags & ELF_PF_W == 0 && p_flags & ELF_PF_X != 0,
    }
}

/// A loadable segment's pages are present and user-accessible, writable
/// exactly when the segment's `PF_W` bit is set, and never both writable and
/// executable: they are executable exactly when `PF_X` is set and `PF_W` is not.
pub proof fn lemma_phdr_flags_write_xor_execute(p_flags: u32)
    ensures
        spec_phdr_vmm_flags(p_flags).present,
        spec_phdr_vmm_flags(p_flags).user,
        spec_phdr_vmm_flags(p_flags).write == (p_flags & 2 != 0),
        spec_phdr_vmm_flags(p_flags).execute == (p_flags & 2 == 0 && p_flags & 1 != 0),
        !(spec_phdr_vmm_flags(p_flags).write && spec_phdr_vmm_flags(p_flags).execute),
{
}

/// One page of a loadable segment, with the file bytes it receives.
#[derive(Debug, Clone, Copy, PartialEq, Eq, Structural)]
pub struct FilePageLoad {
    pub page_vaddr: usize,
    pub flags: VirtualMemoryMappingFlags,
    /// The bytes copied into the page; `src_offset` is an offset in the file.
    pub copy: Option<PageCopy>,
}

pub open spec fn phdr_first_page(p: Elf64_Phdr) -> int {
    page_align_down(p.p_vaddr as usize as int)
}

pub open spec fn phdr_end_page(p: Elf64_Phdr) -> int {
    page_align_down(p.p_vaddr as usize + p.p_memsz as usize + PAGE_FRAME_SIZE - 1)
}

pub open spec fn phdr_page_count(p: Elf64_Phdr) -> int {
    (phdr_end_page(p) - phdr_first_page(p)) / (PAGE_FRAME_SIZE as int)
}

/// The copy into page `page` of segment `p`, with the source shifted to the segment's file offset.
pub open spec fn spec_file_page_copy(p: Elf64_Phdr, page: int) -> Option<PageCopy> {
    match spec_page_copy(page, p.p_vaddr as usize as int, p.p_filesz as usize as int) {
        Some(c) => Some(
            PageCopy {
                dest_offset: c.dest_offset,
                src_offset: (p.p_offset as usize + c.src_offset) as usize,
                len: c.len,
            },
        ),
        None => None,
    }
}

/// The pages of a program header: none unless it is loadable.
pub open spec fn phdr_page_loads(p: Elf64_Phdr) -> Seq<FilePageLoad> {
    if p.p_type != PT_LOAD {
        seq![]
    } else {
        Seq::new(
            phdr_page_count(p) as nat,
            |k: int|
                {
                    let page = phdr_first_page(p) + PAGE_FRAME_SIZE * k;
                    FilePageLoad {
                        page_vaddr: page as usize,
                        flags: spec_phdr_vmm_flags(p.p_flags),
                        copy: spec_file_page_copy(p, page),
                    }
                },
        )
    }
}

/// Planning a loadable segment's pages overflows no address or offset.
pub open spec fn phdr_load_fits(p: Elf64_Phdr) -> bool {
    p.p_type == PT_LOAD ==> {
        &&& p.p_vaddr as usize + p.p_memsz as usize + PAGE_FRAME_SIZE <= usize::MAX
        &&& p.p_vaddr as usize + p.p_filesz as usize <= usize::MAX
        &&& p.p_offset as usize + p.p_filesz as usize <= usize::MAX
    }
}

pub open spec fn spec_phdr_at_index(s: Seq<u8>, i: int) -> Elf64_Phdr {
    Elf64_Phdr {
        p_type: le_u32(s, le_u64(s, 32) + PHDR_SIZE * i) as u32,
        p_flags: le_u32(s, le_u64(s, 32) + PHDR_SIZE * i + 4) as u32,
        p_offset: le_u64(s, le_u64(s, 32) + PHDR_SIZE * i + 8) as u64,
        p_vaddr: le_u64(s, le_u64(s, 32) + PHDR_SIZE * i + 16) as u64,
        p_paddr: le_u64(s, le_u64(s, 32) + PHDR_SIZE * i + 24) as u64,
        p_filesz: le_u64(s, le_u64(s, 32) + PHDR_SIZE * i + 32) as u64,
        p_memsz: le_u64(s, le_u64(s, 32) + PHDR_SIZE * i + 40) as u64,
        p_align: le_u64(s, le_u64(s, 32) + PHDR_SIZE * i + 48) as u64,
    }
}

/// The pages of the first `n` program headers, header by header.
pub open spec fn elf_image_page_loads(s: Seq<u8>, n: int) -> Seq<FilePageLoad>
    decreases n,
{
    if n <= 0 {
        seq![]
    } else {
        elf_image_page_loads(s, n - 1) + phdr_page_loads(spec_phdr_at_index(s, n - 1))
    }
}

/// The file `s` can be planned for `arch` without reading outside it or
/// overflowing: its header and program header table lie inside it, and its
/// loadable segments fit the address space.
pub open spec fn elf_image_defined(s: Seq<u8>, arch: TargetArch) -> bool {
    &&& s.len() >= ELF_HEADER_SIZE
    &&& le_u16(s, 18) == arch.spec_machine() && s[EI_DATA as int] == ELFDATA2LSB ==> {
        &&& le_u64(s, 32) + PHDR_SIZE * le_u16(s, 56) <= s.len()
        &&& forall|i: int| 0 <= i < le_u16(s, 56) ==> #[trigger] phdr_load_fits(spec_phdr_at_index(s, i))
    }
}

/// What loading an ELF image in place takes: its entry point and the pages to map.
pub struct ElfImagePlan {
    pub entrypoint: usize,
    pub pages: Vec<FilePageLoad>,
}

impl Elf {
    pub fn init(hhdm_offset: u64) -> (r: Self)
        ensures
            r.spec_hhdm_offset() == hhdm_offset,
    {
        Elf { hhdm_offset }
    }

    /// Offset of the higher-half direct map through which frames are filled.
    pub closed spec fn spec_hhdm_offset(&self) -> u64 {
        self.hhdm_offset
    }

    pub fn hhdm_offset(&self) -> (r: u64)
        ensures
            r == self.spec_hhdm_offset(),
    {
        self.hhdm_offset
    }

    /// Plans loading the ELF image `data` for `arch`: nothing for a file of
    /// another machine or one that is not little-endian; otherwise the entry
    /// point and, for every loadable segment in table order, its pages with the
    /// file bytes each receives.
    pub fn plan_load(&self, data: &[u8], arch: TargetArch) -> (r: Option<ElfImagePlan>)
        requires
            elf_image_defined(data@, arch),
        ensures
            le_u16(data@, 18) != arch.spec_machine() ==> r is None,
            data@[EI_DATA as int] != ELFDATA2LSB ==> r is None,
            le_u16(data@, 18) == arch.spec_machine() && data@[EI_DATA as int] == ELFDATA2LSB ==> (
            r matches Some(plan) && {
                &&& plan.entrypoint == le_u64(data@, 24) as usize
                &&& plan.pages@ == elf_image_page_loads(data@, le_u16(data@, 56))
            }),
    {
        let header = Elf64_Ehdr::read(data);
        if header.e_machine != arch.machine() {
            return None;
        }
        if header.e_ident[EI_DATA] != ELFDATA2LSB {
            return None;
        }
        assert(header.e_phoff + PHDR_SIZE * header.e_phnum <= data.len());
        let phoff = header.e_phoff as usize;
        let phnum = header.e_phnum;
        let mut pages: Vec<FilePageLoad> = Vec::new();
        let mut i: u16 = 0;
        while i < phnum
            invariant
                i <= phnum,
                phnum == le_u16(data@, 56),
                phoff == le_u64(data@, 32),
                phoff + PHDR_SIZE * phnum <= data.len(),
                elf_image_defined(data@, arch),
                le_u16(data@, 18) == arch.spec_machine() && data@[EI_DATA as int] == ELFDATA2LSB,
                pages@ == elf_image_page_loads(data@, i as int),
            decreases phnum - i,
        {
            let phdr = Elf64_Phdr::read(data, phoff + PHDR_SIZE * (i as usize));
            assert(phdr == spec_phdr_at_index(data@, i as int));
            assert(phdr_load_fits(spec_phdr_at_index(data@, i as int)));
            if phdr.p_type == PT_LOAD {
                plan_phdr_pages(&mut pages, &phdr);
            }
            assert(pages@ =~= elf_image_page_loads(data@, i + 1));
            i = i + 1;
        }
        Some(ElfImagePlan { entrypoint: header.e_entry as usize, pages })
    }
}

/// Every address of a loadable segment's memory image lies in one of the
/// pages planned for it: the page at index `(page_align_down(a) - first) / PAGE_FRAME_SIZE`.
pub proof fn lemma_phdr_memory_covered(p: Elf64_Phdr, a: int)
    requires
        p.p_type == PT_LOAD,
        phdr_load_fits(p),
        p.p_vaddr as usize <= a < p.p_vaddr as usize + p.p_memsz as usize,
    ensures
        ({
            let k = (page_align_down(a) - phdr_first_page(p)) / (PAGE_FRAME_SIZE as int);
            let pages = phdr_page_loads(p);
            &&& 0 <= k < pages.len()
            &&& pages[k].page_vaddr == page_align_down(a)
            &&& pages[k].page_vaddr <= a < pages[k].page_vaddr + PAGE_FRAME_SIZE
        }),
{
    let vs = p.p_vaddr as usize as int;
    let first = phdr_first_page(p);
    let end = phdr_end_page(p);
    let ve = p.p_vaddr as usize + p.p_memsz as usize + PAGE_FRAME_SIZE - 1;
    lemma_page_align_down_bounds(vs);
    lemma_page_align_down_bounds(a);
    lemma_page_align_down_bounds(ve);
    let pa = page_align_down(a);
    assert(first <= pa) by {
        lemma_align_down_monotone(vs, a);
    }
    assert(pa < end) by {
        lemma_align_down_monotone(a + PAGE_FRAME_SIZE, ve);
        lemma_align_down_shift(a);
    }
    lemma_aligned_distance(first, end);
    lemma_aligned_distance(first, pa);
    let k = (pa - first) / 4096;
    assert(k * 4096 == pa - first);
    assert(k < (end - first) / 4096) by (nonlinear_arith)
        requires
            k * 4096 == pa - first,
            pa < end,
            (end - first) / 4096 * 4096 == end - first,
    ;
}

/// Every file byte of a loadable segment that falls inside its memory image is
/// copied, by the page that holds its address, from its place in the file to
/// its address: file byte `p_offset + j` ends up at `p_vaddr + j`.
pub proof fn lemma_phdr_data_placed(p: Elf64_Phdr, j: int)
    requires
        p.p_type == PT_LOAD,
        phdr_load_fits(p),
        0 <= j < p.p_filesz as usize,
        j < p.p_memsz as usize,
    ensures
        ({
            let a = p.p_vaddr as usize + j;
            let k = (page_align_down(a) - phdr_first_page(p)) / (PAGE_FRAME_SIZE as int);
            let pages = phdr_page_loads(p);
            &&& 0 <= k < pages.len()
            &&& pages[k].copy matches Some(c) && {
                &&& c.src_offset <= p.p_offset as usize + j < c.src_offset + c.len
                &&& pages[k].page_vaddr + c.dest_offset + (p.p_offset as usize + j - c.src_offset)
                    == a
            }
        }),
{
    let a = p.p_vaddr as usize + j;
    lemma_phdr_memory_covered(p, a);
    lemma_page_align_down_bounds(a);
}

/// Whether the ELF image `data` can be planned for `arch`, as `Elf::plan_load` needs.
pub fn elf_image_defined_check(data: &[u8], arch: TargetArch) -> (r: bool)
    ensures
        r == elf_image_defined(data@, arch),
{
    if data.len() < ELF_HEADER_SIZE {
        return false;
    }
    let header = Elf64_Ehdr::read(data);
    if header.e_machine != arch.machine() || header.e_ident[EI_DATA] != ELFDATA2LSB {
        return true;
    }
    let table_len = (PHDR_SIZE as u64) * (header.e_phnum as u64);
    let len = data.len() as u64;
    if header.e_phoff > len || len - header.e_phoff < table_len {
        return false;
    }
    let phoff = header.e_phoff as usize;
    let phnum = header.e_phnum;
    let mut i: u16 = 0;
    while i < phnum
        invariant
            i <= phnum,
            phnum == le_u16(data@, 56),
            phoff == le_u64(data@, 32),
            phoff + PHDR_SIZE * phnum <= data.len(),
            data@.len() >= ELF_HEADER_SIZE,
            le_u16(data@, 18) == arch.spec_machine() && data@[EI_DATA as int] == ELFDATA2LSB,
            forall|k: int| 0 <= k < i ==> #[trigger] phdr_load_fits(spec_phdr_at_index(data@, k)),
        decreases phnum - i,
    {
        let phdr = Elf64_Phdr::read(data, phoff + PHDR_SIZE * (i as usize));
        assert(phdr == spec_phdr_at_index(data@, i as int));
        if phdr.p_type == PT_LOAD {
            #[verifier::truncate]
            let vaddr = phdr.p_vaddr as usize;
            #[verifier::truncate]
            let memsz = phdr.p_memsz as usize;
            #[verifier::truncate]
            let filesz = phdr.p_filesz as usize;
            #[verifier::truncate]
            let offset = phdr.p_offset as usize;
            let fits = memsz <= usize::MAX - vaddr && vaddr + memsz <= usize::MAX - PAGE_FRAME_SIZE
                && filesz <= usize::MAX - vaddr && filesz <= usize::MAX - offset;
            if !fits {
                assert(!phdr_load_fits(spec_phdr_at_index(data@, i as int)));
                return false;
            }
        }
        i = i + 1;
    }
    true
}

/// Lists the pages of one loadable segment.
fn plan_phdr_pages(pages: &mut Vec<FilePageLoad>, phdr: &Elf64_Phdr)
    requires
        phdr.p_type == PT_LOAD,
        phdr_load_fits(*phdr),
    ensures
        final(pages)@ == old(pages)@ + phdr_page_loads(*phdr),
{
    let p_flags = phdr.p_flags;
    let mut flags = VirtualMemoryMappingFlags { present: true, user: true, write: false, execute: false };
    if p_flags & ELF_PF_W != 0 {
        flags.write = true;
    } else if p_flags & ELF_PF_X != 0 {
        flags.execute = true;
    }
    let virt_start = phdr.p_vaddr as usize;
    let virt_end = virt_start + phdr.p_memsz as usize;
    let page_start = virt_start & !0xFFFusize;
    let page_end = (virt_end + PAGE_FRAME_SIZE - 1) & !0xFFFusize;
    proof {
        lemma_mask_page_down(virt_start);
        lemma_mask_page_down((virt_end + PAGE_FRAME_SIZE - 1) as usize);
        lemma_page_align_down_bounds(virt_start as int);
        lemma_page_align_down_bounds(virt_end + PAGE_FRAME_SIZE - 1);
        lemma_aligned_distance(page_start as int, page_end as int);
    }
    let pages_to_map = (page_end - page_start) / PAGE_FRAME_SIZE;
    let ghost seg_pages = phdr_page_loads(*phdr);
    let ghost start_pages = pages@;
    let segment_v_end = phdr.p_vaddr as usize + phdr.p_filesz as usize;
    let mut p: usize = 0;
    while p < pages_to_map
        invariant
            p <= pages_to_map,
            pages_to_map == phdr_page_count(*phdr),
            page_start == phdr_first_page(*phdr),
            page_start + PAGE_FRAME_SIZE * pages_to_map <= usize::MAX - (PAGE_FRAME_SIZE - 1),
            phdr.p_type == PT_LOAD,
            phdr_load_fits(*phdr),
            flags == spec_phdr_vmm_flags(phdr.p_flags),
            seg_pages == phdr_page_loads(*phdr),
            pages@ == start_pages + seg_pages.take(p as int),
        decreases pages_to_map - p,
    {
        let virt = page_start + p * PAGE_FRAME_SIZE;
        let window = page_copy_window(virt, phdr.p_vaddr as usize, phdr.p_filesz as usize);
        let copy = match window {
            Some(c) => Some(
                PageCopy {
                    dest_offset: c.dest_offset,
                    src_offset: phdr.p_offset as usize + c.src_offset,
                    len: c.len,
                },
            ),
            None => None,
        };
        pages.push(FilePageLoad { page_vaddr: virt, flags, copy });
        assert(seg_pages.take(p + 1) =~= seg_pages.take(p as int).push(seg_pages[p as int]));
        p = p + 1;
    }
    assert(seg_pages.take(pages_to_map as int) =~= seg_pages);
}

} // verus!
