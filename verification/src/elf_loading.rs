//! Planning how the kernel loads a parsed ELF program into a fresh address
//! space: which pages to map with which access rights, which file bytes go
//! where inside each page, and which relative relocations to patch.
use vstd::prelude::*;
use std::collections::BTreeMap;
use crate::elf_parsing::{
    ElfFile, ElfType, ProgramSegment, ProgramLoadSegment, ProgramSegmentFlags, RelativeRelocation,
};
use crate::memory_layout::{
    PAGE_FRAME_SIZE, page_align_down, lemma_mask_page_down, lemma_page_align_down_bounds,
    lemma_aligned_span, lemma_aligned_distance, lemma_align_down_monotone, lemma_align_down_shift,
};

verus! {

/// Where a position-independent executable is placed in the address space.
pub const PIE_BASE_ADDRESS: usize = 0x5555_0000;

/// Access rights of a page mapping.
#[derive(Debug, Clone, Copy, PartialEq, Eq, Structural)]
pub struct VirtualMemoryMappingFlags {
    pub present: bool,
    pub user: bool,
    pub write: bool,
    pub execute: bool,
}

pub open spec fn spec_vmm_flags(f: ProgramSegmentFlags) -> VirtualMemoryMappingFlags {
    VirtualMemoryMappingFlags {
        present: true,
        user: true,
        write: f.spec_contains(ProgramSegmentFlags(0x2)),
        execute: f.spec_contains(ProgramSegmentFlags(0x1)),
    }
}

/// A loaded segment's pages are always present and user-accessible, writable
/// exactly when its `PF_W` bit (0x2) is set and executable exactly when its
/// `PF_X` bit (0x1) is set, whatever other bits are set.
pub proof fn lemma_vmm_flags_follow_flag_bits(f: ProgramSegmentFlags)
    ensures
        spec_vmm_flags(f).present,
        spec_vmm_flags(f).user,
        spec_vmm_flags(f).write == (f.0 & 2 != 0),
        spec_vmm_flags(f).execute == (f.0 & 1 != 0),
{
    let b = f.0;
    assert(((b & 2) == 2) == ((b & 2) != 0)) by (bit_vector);
    assert(((b & 1) == 1) == ((b & 1) != 0)) by (bit_vector);
}

/// The mapping of a segment's pages: present and user-accessible, writable
/// and executable as the segment's flags say.
pub fn elf_flags_to_vmm_flags(elf_flags: ProgramSegmentFlags) -> (r: VirtualMemoryMappingFlags)
    ensures
        r == spec_vmm_flags(elf_flags),
{
    let mut vmm_flags = VirtualMemoryMappingFlags {
        present: true,
        user: true,
        write: false,
        execute: false,
    };
    if elf_flags.contains(ProgramSegmentFlags::writable()) {
        vmm_flags.write = true;
    }
    if elf_flags.contains(ProgramSegmentFlags::executable()) {
        vmm_flags.execute = true;
    }
    vmm_flags
}

pub open spec fn spec_load_base(t: ElfType) -> usize {
    match t {
        ElfType::SharedObject => PIE_BASE_ADDRESS,
        _ => 0,
    }
}

/// Where the program's addresses are shifted to: executables use absolute
/// addresses, shared objects are placed at `PIE_BASE_ADDRESS`.
pub fn load_base_address(type_: ElfType) -> (r: usize)
    requires
        !(type_ is Other),
    ensures
        r == spec_load_base(type_),
{
    match type_ {
        ElfType::Executable => 0,
        ElfType::SharedObject => PIE_BASE_ADDRESS,
        ElfType::Other(_) => 0,
    }
}

/// Which bytes of a segment's file data are copied into one of its pages.
#[derive(Debug, Clone, Copy, PartialEq, Eq, Structural)]
pub struct PageCopy {
    /// Offset inside the page where the copy starts.
    pub dest_offset: usize,
    /// Offset inside the segment's data where the copy starts.
    pub src_offset: usize,
    pub len: usize,
}

/// One page to allocate, map and fill.
#[derive(Debug, Clone, Copy, PartialEq, Eq, Structural)]
pub struct PageLoad {
    /// Index of the loadable segment in the file's segment list.
    pub segment: usize,
    pub page_vaddr: usize,
    pub flags: VirtualMemoryMappingFlags,
    pub copy: Option<PageCopy>,
}

/// The bytes of a segment placed at `seg_start` with `data_len` file bytes that
/// fall inside the page at `page`.
pub open spec fn spec_page_copy(page: int, seg_start: int, data_len: int) -> Option<PageCopy> {
    let dst = if page < seg_start { seg_start } else { page };
    let seg_end = seg_start + data_len;
    let end = if page + PAGE_FRAME_SIZE < seg_end { page + PAGE_FRAME_SIZE } else { seg_end };
    if dst < end {
        Some(
            PageCopy {
                dest_offset: (dst - page) as usize,
                src_offset: (dst - seg_start) as usize,
                len: (end - dst) as usize,
            },
        )
    } else {
        None
    }
}

/// The part of a segment's file bytes that belongs in the page at `page_vaddr`.
pub fn page_copy_window(page_vaddr: usize, seg_start: usize, data_len: usize) -> (r: Option<PageCopy>)
    requires
        page_vaddr + PAGE_FRAME_SIZE <= usize::MAX,
        seg_start + data_len <= usize::MAX,
    ensures
        r == spec_page_copy(page_vaddr as int, seg_start as int, data_len as int),
        r matches Some(c) ==> {
            &&& c.dest_offset + c.len <= PAGE_FRAME_SIZE
            &&& c.src_offset + c.len <= data_len
            &&& page_vaddr + c.dest_offset == seg_start + c.src_offset
        },
{
    let copy_dst_v = if page_vaddr < seg_start {
        seg_start
    } else {
        page_vaddr
    };
    let segment_end_v = seg_start + data_len;
    let copy_end_v = if page_vaddr + PAGE_FRAME_SIZE < segment_end_v {
        page_vaddr + PAGE_FRAME_SIZE
    } else {
        segment_end_v
    };
    if copy_dst_v < copy_end_v {
        Some(
            PageCopy {
                dest_offset: copy_dst_v - page_vaddr,
                src_offset: copy_dst_v - seg_start,
                len: copy_end_v - copy_dst_v,
            },
        )
    } else {
        None
    }
}

/// First page of a loadable segment once shifted by `base`.
pub open spec fn load_first_page(l: ProgramLoadSegment, base: usize) -> int {
    page_align_down(l.vaddr + base)
}

/// End (exclusive) of the pages of a loadable segment once shifted by `base`.
pub open spec fn load_end_page(l: ProgramLoadSegment, base: usize) -> int {
    page_align_down(l.vaddr + base + l.memsz + PAGE_FRAME_SIZE - 1)
}

/// Number of pages visited from the first page, one page at a time, before the end.
pub open spec fn load_page_count(l: ProgramLoadSegment, base: usize) -> int {
    if load_end_page(l, base) <= load_first_page(l, base) {
        0
    } else {
        (load_end_page(l, base) - load_first_page(l, base) + PAGE_FRAME_SIZE - 1)
            / (PAGE_FRAME_SIZE as int)
    }
}

pub open spec fn spec_page_load(l: ProgramLoadSegment, idx: int, base: usize, page: int) -> PageLoad {
    PageLoad {
        segment: idx as usize,
        page_vaddr: page as usize,
        flags: spec_vmm_flags(l.flags),
        copy: spec_page_copy(page, l.vaddr + base, l.data@.len() as int),
    }
}

/// The pages of segment `idx`, in increasing order; none for a segment that is not loadable.
pub open spec fn segment_page_loads(seg: ProgramSegment, idx: int, base: usize) -> Seq<PageLoad> {
    match seg {
        ProgramSegment::Load(l) => Seq::new(
            load_page_count(l, base) as nat,
            |k: int| spec_page_load(l, idx, base, load_first_page(l, base) + PAGE_FRAME_SIZE * k),
        ),
        _ => seq![],
    }
}

/// The pages of the first `n` segments, segment by segment.
pub open spec fn planned_page_loads(segs: Seq<ProgramSegment>, n: int, base: usize) -> Seq<PageLoad>
    decreases n,
{
    if n <= 0 {
        seq![]
    } else {
        planned_page_loads(segs, n - 1, base) + segment_page_loads(segs[n - 1], n - 1, base)
    }
}

/// Shifting a loadable segment by `base` keeps its addresses inside the address space.
pub open spec fn load_segment_fits(seg: ProgramSegment, base: usize) -> bool {
    seg matches ProgramSegment::Load(l) ==> {
        &&& l.vaddr + base + l.memsz + PAGE_FRAME_SIZE <= usize::MAX
        &&& l.vaddr + base + l.data@.len() <= usize::MAX
    }
}

/// What loading an ELF program takes: its base address, its shifted entry
/// point and every page to map, in the order the loader maps them.
pub struct ElfLoadPlan {
    pub base_vaddr: usize,
    pub entrypoint: usize,
    pub pages: Vec<PageLoad>,
}

/// Lists the pages of one loadable segment.
fn plan_segment_pages(
    pages: &mut Vec<PageLoad>,
    l: &ProgramLoadSegment,
    idx: usize,
    base: usize,
)
    requires
        l.vaddr + base + l.memsz + PAGE_FRAME_SIZE <= usize::MAX,
        l.vaddr + base + l.data@.len() <= usize::MAX,
    ensures
        final(pages)@ == old(pages)@ + segment_page_loads(
            ProgramSegment::Load(*l),
            idx as int,
            base,
        ),
{
    let flags = elf_flags_to_vmm_flags(l.flags);
    let virt_start = l.vaddr + base;
    let page_start = virt_start & !0xFFFusize;
    let page_end = (virt_start + l.memsz + PAGE_FRAME_SIZE - 1) & !0xFFFusize;
    proof {
        lemma_mask_page_down(virt_start);
        lemma_mask_page_down((virt_start + l.memsz + PAGE_FRAME_SIZE - 1) as usize);
        lemma_page_align_down_bounds(virt_start as int);
        lemma_page_align_down_bounds(virt_start + l.memsz + PAGE_FRAME_SIZE - 1);
        if page_start < page_end {
            lemma_aligned_span(page_start as int, page_end as int);
        }
    }
    let count: usize = if page_end <= page_start {
        0
    } else {
        (page_end - page_start + (PAGE_FRAME_SIZE - 1)) / PAGE_FRAME_SIZE
    };
    let ghost seg_pages = segment_page_loads(ProgramSegment::Load(*l), idx as int, base);
    let ghost start_pages = pages@;
    assert(count == load_page_count(*l, base));
    assert(page_start + PAGE_FRAME_SIZE * count == if page_end <= page_start { page_start as int } else { page_end as int });
    let mut k: usize = 0;
    while k < count
        invariant
            k <= count,
            count == load_page_count(*l, base),
            page_start == load_first_page(*l, base),
            page_end == load_end_page(*l, base),
            page_start + PAGE_FRAME_SIZE * count <= usize::MAX - (PAGE_FRAME_SIZE - 1),
            virt_start == l.vaddr + base,
            l.vaddr + base + l.data@.len() <= usize::MAX,
            flags == spec_vmm_flags(l.flags),
            seg_pages == segment_page_loads(ProgramSegment::Load(*l), idx as int, base),
            pages@ == start_pages + seg_pages.take(k as int),
        decreases count - k,
    {
        let current_page_start = page_start + PAGE_FRAME_SIZE * k;
        let copy = page_copy_window(current_page_start, virt_start, l.data.len());
        pages.push(PageLoad { segment: idx, page_vaddr: current_page_start, flags, copy });
        assert(seg_pages.take(k + 1) =~= seg_pages.take(k as int).push(seg_pages[k as int]));
        k = k + 1;
    }
    assert(seg_pages.take(count as int) =~= seg_pages);
}

/// Loading `elf` stays inside the address space: its type is one the loader
/// places, and the shifted entry point and segments do not overflow.
pub open spec fn elf_load_defined(elf: &ElfFile) -> bool {
    let base = spec_load_base(elf.type_);
    &&& !(elf.type_ is Other)
    &&& elf.entrypoint + base <= usize::MAX
    &&& forall|i: int| 0 <= i < elf.segments@.len() ==> #[trigger] load_segment_fits(elf.segments@[i], base)
}

/// Plans the first loading pass: every loadable segment's pages, in order,
/// with their access rights and the file bytes each receives.
pub fn plan_elf_load(elf: &ElfFile) -> (r: ElfLoadPlan)
    requires
        elf_load_defined(elf),
    ensures
        r.base_vaddr == spec_load_base(elf.type_),
        r.entrypoint == elf.entrypoint + spec_load_base(elf.type_),
        r.pages@ == planned_page_loads(elf.segments@, elf.segments@.len() as int, r.base_vaddr),
{
    let base_vaddr = load_base_address(elf.type_);
    let mut pages: Vec<PageLoad> = Vec::new();
    let mut i: usize = 0;
    while i < elf.segments.len()
        invariant
            i <= elf.segments@.len(),
            base_vaddr == spec_load_base(elf.type_),
            elf_load_defined(elf),
            pages@ == planned_page_loads(elf.segments@, i as int, base_vaddr),
        decreases elf.segments@.len() - i,
    {
        assert(load_segment_fits(elf.segments@[i as int], base_vaddr));
        match &elf.segments[i] {
            ProgramSegment::Load(seg) => {
                plan_segment_pages(&mut pages, seg, i, base_vaddr);
            },
            _ => {},
        }
        assert(pages@ =~= planned_page_loads(elf.segments@, i + 1, base_vaddr));
        i = i + 1;
    }
    ElfLoadPlan { base_vaddr, entrypoint: elf.entrypoint + base_vaddr, pages }
}

/// A relocation to apply: the page holding the patched word, the word's offset
/// inside it, and the value written there.
#[derive(Debug, Clone, Copy, PartialEq, Eq, Structural)]
pub struct RelocationPatch {
    pub page_vaddr: usize,
    pub page_offset: usize,
    pub value: u64,
}

/// The base address as a signed 64-bit number: addresses above `i64::MAX`
/// wrap around to negative numbers.
pub open spec fn signed_base(base: usize) -> int {
    if base <= i64::MAX {
        base as int
    } else {
        base - 0x1_0000_0000_0000_0000
    }
}

pub open spec fn spec_relocation_patch(base: usize, rela: RelativeRelocation) -> RelocationPatch {
    RelocationPatch {
        page_vaddr: page_align_down(base + rela.offset) as usize,
        page_offset: ((base + rela.offset) % (PAGE_FRAME_SIZE as int)) as usize,
        value: (signed_base(base) + rela.addend) as u64,
    }
}

/// Shifting the relocation by `base` overflows neither its target nor its
/// value, the signed sum of the base and the addend.
pub open spec fn relocation_defined(base: usize, rela: RelativeRelocation) -> bool {
    &&& base + rela.offset <= usize::MAX
    &&& i64::MIN <= signed_base(base) + rela.addend <= i64::MAX
}

/// The base address as a signed 64-bit number.
fn signed_base_of(base: usize) -> (r: i64)
    ensures
        r == signed_base(base),
{
    #[verifier::truncate]
    let r = base as i64;
    proof {
        if base > i64::MAX {
            assert(base as u64 > 0x7FFF_FFFF_FFFF_FFFFu64 ==> (base as i64) as int == (base as u64)
                - 0x1_0000_0000_0000_0000int) by (bit_vector);
        }
    }
    r
}

/// The patch that applies a relative relocation to a program placed at `base`:
/// the word at `base + offset` receives `base + addend`.
pub fn relocation_patch(base_vaddr: usize, rela: &RelativeRelocation) -> (r: RelocationPatch)
    requires
        relocation_defined(base_vaddr, *rela),
    ensures
        r == spec_relocation_patch(base_vaddr, *rela),
{
    let patch_vaddr = base_vaddr + rela.offset;
    let page_start = patch_vaddr & !0xFFFusize;
    let page_offset = patch_vaddr & 0xFFFusize;
    proof {
        lemma_mask_page_down(patch_vaddr);
    }
    let new_value = (signed_base_of(base_vaddr) + rela.addend) as u64;
    RelocationPatch { page_vaddr: page_start, page_offset, value: new_value }
}

pub open spec fn segment_relocations(seg: ProgramSegment) -> Seq<RelativeRelocation> {
    match seg {
        ProgramSegment::Dynamic(d) => d.relocations@,
        _ => seq![],
    }
}

/// The relocations of the first `n` segments, segment by segment.
pub open spec fn all_relocations(segs: Seq<ProgramSegment>, n: int) -> Seq<RelativeRelocation>
    decreases n,
{
    if n <= 0 {
        seq![]
    } else {
        all_relocations(segs, n - 1) + segment_relocations(segs[n - 1])
    }
}

/// Lists the patches of the second loading pass: the relative relocations of
/// every dynamic segment, in order, for a program placed at `base_vaddr`.
pub fn relocation_patches(elf: &ElfFile, base_vaddr: usize) -> (r: Vec<RelocationPatch>)
    requires
        forall|k: int|
            0 <= k < all_relocations(elf.segments@, elf.segments@.len() as int).len()
                ==> relocation_defined(
                base_vaddr,
                #[trigger] all_relocations(elf.segments@, elf.segments@.len() as int)[k],
            ),
    ensures
        r@ == all_relocations(elf.segments@, elf.segments@.len() as int).map_values(
            |rela: RelativeRelocation| spec_relocation_patch(base_vaddr, rela),
        ),
{
    let ghost segs = elf.segments@;
    let ghost all = all_relocations(segs, segs.len() as int);
    let mut patches: Vec<RelocationPatch> = Vec::new();
    let mut i: usize = 0;
    while i < elf.segments.len()
        invariant
            segs == elf.segments@,
            all == all_relocations(segs, segs.len() as int),
            i <= segs.len(),
            forall|k: int| 0 <= k < all.len() ==> relocation_defined(base_vaddr, #[trigger] all[k]),
            all_relocations(segs, i as int).len() <= all.len(),
            all_relocations(segs, i as int) == all.take(all_relocations(segs, i as int).len() as int),
            patches@ == all_relocations(segs, i as int).map_values(
                |rela: RelativeRelocation| spec_relocation_patch(base_vaddr, rela),
            ),
        decreases segs.len() - i,
    {
        proof {
            lemma_relocations_prefix(segs, i as int + 1, segs.len() as int);
        }
        if let ProgramSegment::Dynamic(dyn_seg) = &elf.segments[i] {
            let ghost before = all_relocations(segs, i as int);
            let mut j: usize = 0;
            while j < dyn_seg.relocations.len()
                invariant
                    j <= dyn_seg.relocations@.len(),
                    before == all_relocations(segs, i as int),
                    all_relocations(segs, i + 1) == before + dyn_seg.relocations@,
                    all_relocations(segs, i + 1) == all.take(all_relocations(segs, i + 1).len() as int),
                    all_relocations(segs, i + 1).len() <= all.len(),
                    forall|k: int| 0 <= k < all.len() ==> relocation_defined(base_vaddr, #[trigger] all[k]),
                    patches@ == (before + dyn_seg.relocations@.take(j as int)).map_values(
                        |rela: RelativeRelocation| spec_relocation_patch(base_vaddr, rela),
                    ),
                decreases dyn_seg.relocations@.len() - j,
            {
                let rela = &dyn_seg.relocations[j];
                let ghost idx = before.len() + j;
                assert(all_relocations(segs, i + 1)[idx] == dyn_seg.relocations@[j as int]);
                assert(all.take(all_relocations(segs, i + 1).len() as int)[idx] == all[idx]);
                assert(all[idx] == dyn_seg.relocations@[j as int]);
                patches.push(relocation_patch(base_vaddr, rela));
                assert((before + dyn_seg.relocations@.take(j + 1)) =~= (before
                    + dyn_seg.relocations@.take(j as int)).push(*rela));
                j = j + 1;
            }
            assert(dyn_seg.relocations@.take(j as int) =~= dyn_seg.relocations@);
        }
        assert(patches@ =~= all_relocations(segs, i + 1).map_values(
            |rela: RelativeRelocation| spec_relocation_patch(base_vaddr, rela),
        ));
        i = i + 1;
    }
    assert(all.take(all.len() as int) =~= all);
    patches
}

/// The relocations of the first `n` segments come first among those of the first `m`.
proof fn lemma_relocations_prefix(segs: Seq<ProgramSegment>, n: int, m: int)
    requires
        0 <= n <= m,
    ensures
        all_relocations(segs, n).len() <= all_relocations(segs, m).len(),
        all_relocations(segs, n) == all_relocations(segs, m).take(
            all_relocations(segs, n).len() as int,
        ),
    decreases m - n,
{
    if n < m {
        lemma_relocations_prefix(segs, n, m - 1);
        assert(all_relocations(segs, m - 1) =~= all_relocations(segs, m).take(
            all_relocations(segs, m - 1).len() as int,
        ));
        assert(all_relocations(segs, n) =~= all_relocations(segs, m).take(
            all_relocations(segs, n).len() as int,
        ));
    } else {
        assert(all_relocations(segs, n) =~= all_relocations(segs, m).take(
            all_relocations(segs, n).len() as int,
        ));
    }
}

/// The physical frames allocated for a program's pages, by page address.
pub struct LoadedPages {
    frames: BTreeMap<usize, usize>,
}

impl View for LoadedPages {
    type V = Map<usize, usize>;

    closed spec fn view(&self) -> Map<usize, usize> {
        self.frames@
    }
}

impl LoadedPages {
    pub fn new() -> (r: Self)
        ensures
            r@ == Map::<usize, usize>::empty(),
    {
        LoadedPages { frames: BTreeMap::new() }
    }

    /// Records the frame that backs the page at `page_vaddr`.
    pub fn record(&mut self, page_vaddr: usize, frame: usize)
        ensures
            final(self)@ == old(self)@.insert(page_vaddr, frame),
    {
        self.frames.insert(page_vaddr, frame);
    }

    /// The frame that backs the page at `page_vaddr`, if one was recorded.
    pub fn frame_of(&self, page_vaddr: usize) -> (r: Option<usize>)
        ensures
            r == (if self@.contains_key(page_vaddr) {
                Some(self@[page_vaddr])
            } else {
                None
            }),
    {
        match self.frames.get(&page_vaddr) {
            Some(f) => Some(*f),
            None => None,
        }
    }
}

/// A relocation patch resolved to the frame that backs its page: the word at
/// `page_offset` inside `frame` receives `value`.
#[derive(Debug, Clone, Copy, PartialEq, Eq, Structural)]
pub struct PatchWrite {
    pub frame: usize,
    pub page_offset: usize,
    pub value: u64,
}

/// The write that carries out `patch`, if its page has a frame in `pages`.
pub open spec fn spec_patch_write(pages: Map<usize, usize>, patch: RelocationPatch) -> Option<
    PatchWrite,
> {
    if pages.contains_key(patch.page_vaddr) {
        Some(
            PatchWrite {
                frame: pages[patch.page_vaddr],
                page_offset: patch.page_offset,
                value: patch.value,
            },
        )
    } else {
        None
    }
}

/// Whether the page of every patch has a frame in `pages`.
pub open spec fn patches_mapped(pages: Map<usize, usize>, patches: Seq<RelocationPatch>) -> bool {
    forall|k: int| 0 <= k < patches.len() ==> pages.contains_key(#[trigger] patches[k].page_vaddr)
}

/// Finds the frame that a relocation patch writes into.
pub fn patch_write(pages: &LoadedPages, patch: &RelocationPatch) -> (r: Option<PatchWrite>)
    ensures
        r == spec_patch_write(pages@, *patch),
{
    match pages.frame_of(patch.page_vaddr) {
        Some(frame) => Some(PatchWrite { frame, page_offset: patch.page_offset, value: patch.value }),
        None => None,
    }
}

/// Whether the page of every patch has a frame in `pages`, as
/// `resolve_relocation_patches` needs: loading stops on a relocation whose
/// target was never loaded.
pub fn patches_mapped_check(pages: &LoadedPages, patches: &[RelocationPatch]) -> (r: bool)
    ensures
        r == patches_mapped(pages@, patches@),
{
    let mut i: usize = 0;
    while i < patches.len()
        invariant
            i <= patches@.len(),
            forall|k: int| 0 <= k < i ==> pages@.contains_key(#[trigger] patches@[k].page_vaddr),
        decreases patches@.len() - i,
    {
        if pages.frame_of(patches[i].page_vaddr).is_none() {
            return false;
        }
        i = i + 1;
    }
    true
}

/// Resolves every relocation patch, in order, to the frame of its page.
pub fn resolve_relocation_patches(pages: &LoadedPages, patches: &[RelocationPatch]) -> (r: Vec<
    PatchWrite,
>)
    requires
        patches_mapped(pages@, patches@),
    ensures
        r@ == patches@.map_values(|p: RelocationPatch| spec_patch_write(pages@, p).unwrap()),
{
    let mut writes: Vec<PatchWrite> = Vec::new();
    let mut i: usize = 0;
    while i < patches.len()
        invariant
            i <= patches@.len(),
            patches_mapped(pages@, patches@),
            writes@ == patches@.take(i as int).map_values(
                |p: RelocationPatch| spec_patch_write(pages@, p).unwrap(),
            ),
        decreases patches@.len() - i,
    {
        assert(pages@.contains_key(patches@[i as int].page_vaddr));
        let w = PatchWrite {
            frame: pages.frame_of(patches[i].page_vaddr).unwrap(),
            page_offset: patches[i].page_offset,
            value: patches[i].value,
        };
        writes.push(w);
        assert(patches@.take(i + 1) =~= patches@.take(i as int).push(patches@[i as int]));
        i = i + 1;
    }
    assert(patches@.take(i as int) =~= patches@);
    writes
}

/// Every page of the plan has a frame in `pages`.
pub open spec fn plan_pages_loaded(pages: Map<usize, usize>, plan: Seq<PageLoad>) -> bool {
    forall|k: int| 0 <= k < plan.len() ==> pages.contains_key(#[trigger] plan[k].page_vaddr)
}

/// The pages planned for segment `idx` are among the pages planned for the
/// first `n` segments, for any `n` past `idx`.
proof fn lemma_segment_pages_planned(
    segs: Seq<ProgramSegment>,
    n: int,
    base: usize,
    idx: int,
    k: int,
)
    requires
        0 <= idx < n <= segs.len(),
        0 <= k < segment_page_loads(segs[idx], idx, base).len(),
    ensures
        exists|j: int|
            0 <= j < planned_page_loads(segs, n, base).len() && #[trigger] planned_page_loads(
                segs,
                n,
                base,
            )[j] == segment_page_loads(segs[idx], idx, base)[k],
    decreases n,
{
    let before = planned_page_loads(segs, n - 1, base);
    let all = planned_page_loads(segs, n, base);
    assert(all == before + segment_page_loads(segs[n - 1], n - 1, base));
    if idx == n - 1 {
        assert(all[before.len() + k] == segment_page_loads(segs[idx], idx, base)[k]);
    } else {
        lemma_segment_pages_planned(segs, n - 1, base, idx, k);
        let j = choose|j: int|
            0 <= j < before.len() && #[trigger] before[j] == segment_page_loads(
                segs[idx],
                idx,
                base,
            )[k];
        assert(all[j] == before[j]);
    }
}

/// Once every planned page of a program has a frame, a relocation whose
/// target lies in the memory of one of its loadable segments is resolved, to
/// the frame of the page that holds the target: it is never refused.
pub proof fn lemma_relocation_into_segment_resolves(
    pages: Map<usize, usize>,
    segs: Seq<ProgramSegment>,
    base: usize,
    idx: int,
    rela: RelativeRelocation,
)
    requires
        0 <= idx < segs.len(),
        segs[idx] is Load,
        load_segment_fits(segs[idx], base),
        relocation_defined(base, rela),
        segs[idx]->Load_0.vaddr + base <= base + rela.offset < segs[idx]->Load_0.vaddr + base
            + segs[idx]->Load_0.memsz,
        plan_pages_loaded(pages, planned_page_loads(segs, segs.len() as int, base)),
    ensures
        spec_patch_write(pages, spec_relocation_patch(base, rela)) == Some(
            PatchWrite {
                frame: pages[spec_relocation_patch(base, rela).page_vaddr],
                page_offset: spec_relocation_patch(base, rela).page_offset,
                value: spec_relocation_patch(base, rela).value,
            },
        ),
{
    let l = segs[idx]->Load_0;
    let a = base + rela.offset;
    lemma_segment_memory_covered(l, idx, base, a);
    let kk = (page_align_down(a) - load_first_page(l, base)) / (PAGE_FRAME_SIZE as int);
    let seg_pages = segment_page_loads(ProgramSegment::Load(l), idx, base);
    assert(segs[idx] == ProgramSegment::Load(l));
    lemma_segment_pages_planned(segs, segs.len() as int, base, idx, kk);
    let plan = planned_page_loads(segs, segs.len() as int, base);
    let j = choose|j: int| 0 <= j < plan.len() && #[trigger] plan[j] == seg_pages[kk];
    assert(pages.contains_key(plan[j].page_vaddr));
    assert(plan[j].page_vaddr as int == page_align_down(a));
}

/// Whether `elf` can be loaded as `plan_elf_load` needs: a type the loader
/// places, and a shifted entry point and segments inside the address space.
pub fn elf_load_defined_check(elf: &ElfFile) -> (r: bool)
    ensures
        r == elf_load_defined(elf),
{
    if let ElfType::Other(_) = elf.type_ {
        return false;
    }
    let base = load_base_address(elf.type_);
    if elf.entrypoint > usize::MAX - base {
        return false;
    }
    let mut i: usize = 0;
    while i < elf.segments.len()
        invariant
            i <= elf.segments@.len(),
            base == spec_load_base(elf.type_),
            forall|k: int| 0 <= k < i ==> #[trigger] load_segment_fits(elf.segments@[k], base),
        decreases elf.segments@.len() - i,
    {
        if let ProgramSegment::Load(l) = &elf.segments[i] {
            if l.vaddr > usize::MAX - base {
                assert(!load_segment_fits(elf.segments@[i as int], base));
                return false;
            }
            let start = l.vaddr + base;
            if l.memsz > usize::MAX - start || start + l.memsz > usize::MAX - PAGE_FRAME_SIZE {
                assert(!load_segment_fits(elf.segments@[i as int], base));
                return false;
            }
            if l.data.len() > usize::MAX - start {
                assert(!load_segment_fits(elf.segments@[i as int], base));
                return false;
            }
        }
        i = i + 1;
    }
    true
}

/// Whether every relative relocation of `elf` can be shifted to `base_vaddr`,
/// as `relocation_patches` needs.
pub fn relocations_defined_check(elf: &ElfFile, base_vaddr: usize) -> (r: bool)
    ensures
        r == (forall|k: int|
            0 <= k < all_relocations(elf.segments@, elf.segments@.len() as int).len()
                ==> relocation_defined(
                base_vaddr,
                #[trigger] all_relocations(elf.segments@, elf.segments@.len() as int)[k],
            )),
{
    let ghost segs = elf.segments@;
    let ghost all = all_relocations(segs, segs.len() as int);
    let base_i = signed_base_of(base_vaddr);
    let mut i: usize = 0;
    while i < elf.segments.len()
        invariant
            segs == elf.segments@,
            all == all_relocations(segs, segs.len() as int),
            i <= segs.len(),
            base_i == signed_base(base_vaddr),
            forall|k: int|
                0 <= k < all_relocations(segs, i as int).len() ==> relocation_defined(
                    base_vaddr,
                    #[trigger] all_relocations(segs, i as int)[k],
                ),
        decreases segs.len() - i,
    {
        proof {
            lemma_relocations_prefix(segs, i as int + 1, segs.len() as int);
        }
        if let ProgramSegment::Dynamic(dyn_seg) = &elf.segments[i] {
            let ghost before = all_relocations(segs, i as int);
            assert(all_relocations(segs, i + 1) == before + dyn_seg.relocations@);
            let mut j: usize = 0;
            while j < dyn_seg.relocations.len()
                invariant
                    j <= dyn_seg.relocations@.len(),
                    segs == elf.segments@,
                    all == all_relocations(segs, segs.len() as int),
                    base_i == signed_base(base_vaddr),
                    before == all_relocations(segs, i as int),
                    all_relocations(segs, i + 1) == before + dyn_seg.relocations@,
                    all_relocations(segs, i + 1) == all.take(all_relocations(segs, i + 1).len() as int),
                    all_relocations(segs, i + 1).len() <= all.len(),
                    forall|k: int| 0 <= k < before.len() ==> relocation_defined(base_vaddr, #[trigger] before[k]),
                    forall|k: int|
                        0 <= k < j ==> relocation_defined(base_vaddr, #[trigger] dyn_seg.relocations@[k]),
                decreases dyn_seg.relocations@.len() - j,
            {
                let rela = &dyn_seg.relocations[j];
                let fits_target = rela.offset <= usize::MAX - base_vaddr;
                let fits_value = base_i.checked_add(rela.addend).is_some();
                if !fits_target || !fits_value {
                    proof {
                        let k = before.len() + j;
                        let upto = all_relocations(segs, i + 1);
                        assert(upto[k] == dyn_seg.relocations@[j as int]);
                        assert(all.take(upto.len() as int)[k] == all[k]);
                        assert(all[k] == *rela);
                        assert(0 <= k < all.len());
                        assert(!relocation_defined(base_vaddr, all[k]));
                    }
                    return false;
                }
                j = j + 1;
            }
            assert forall|k: int|
                0 <= k < all_relocations(segs, i + 1).len() implies relocation_defined(
                base_vaddr,
                #[trigger] all_relocations(segs, i + 1)[k],
            ) by {
                if k >= before.len() {
                    assert(all_relocations(segs, i + 1)[k] == dyn_seg.relocations@[k - before.len()]);
                } else {
                    assert(all_relocations(segs, i + 1)[k] == before[k]);
                }
            }
        } else {
            assert(all_relocations(segs, i + 1) =~= all_relocations(segs, i as int));
        }
        i = i + 1;
    }
    true
}

/// A frame recorded for a page is the one found for it afterwards, and
/// recording it changes what is found for no other page.
pub proof fn lemma_recorded_frame_found(
    recorded: Map<usize, usize>,
    page_vaddr: usize,
    frame: usize,
    other: usize,
)
    requires
        other != page_vaddr,
    ensures
        recorded.insert(page_vaddr, frame).contains_key(page_vaddr),
        recorded.insert(page_vaddr, frame)[page_vaddr] == frame,
        recorded.insert(page_vaddr, frame).contains_key(other) == recorded.contains_key(other),
        recorded.contains_key(other) ==> recorded.insert(page_vaddr, frame)[other]
            == recorded[other],
{
}

/// A relocation patch names the word the relocation targets: the patched page
/// is page aligned, the offset lies within it, and together they give the
/// relocated address `base + offset`.
pub proof fn lemma_patch_targets_relocated_word(base: usize, rela: RelativeRelocation)
    requires
        relocation_defined(base, rela),
    ensures
        spec_relocation_patch(base, rela).page_vaddr % 4096 == 0,
        spec_relocation_patch(base, rela).page_offset < 4096,
        spec_relocation_patch(base, rela).page_vaddr + spec_relocation_patch(base, rela).page_offset
            == base + rela.offset,
{
    lemma_page_align_down_bounds(base + rela.offset);
}

/// Every address of a loadable segment's memory image lies in one of the pages
/// planned for it: the page at index `(page_align_down(a) - first) / PAGE_FRAME_SIZE`.
pub proof fn lemma_segment_memory_covered(l: ProgramLoadSegment, idx: int, base: usize, a: int)
    requires
        load_segment_fits(ProgramSegment::Load(l), base),
        l.vaddr + base <= a < l.vaddr + base + l.memsz,
    ensures
        ({
            let k = (page_align_down(a) - load_first_page(l, base)) / (PAGE_FRAME_SIZE as int);
            let pages = segment_page_loads(ProgramSegment::Load(l), idx, base);
            &&& 0 <= k < pages.len()
            &&& pages[k].page_vaddr == page_align_down(a)
            &&& pages[k].page_vaddr <= a < pages[k].page_vaddr + PAGE_FRAME_SIZE
        }),
{
    let vs = l.vaddr + base;
    let first = load_first_page(l, base);
    let end = load_end_page(l, base);
    lemma_page_align_down_bounds(vs);
    lemma_page_align_down_bounds(a);
    lemma_page_align_down_bounds(vs + l.memsz + PAGE_FRAME_SIZE - 1);
    let pa = page_align_down(a);
    assert(first <= pa) by {
        lemma_align_down_monotone(vs, a);
    }
    assert(pa < end) by {
        lemma_align_down_monotone(a + PAGE_FRAME_SIZE, vs + l.memsz + PAGE_FRAME_SIZE - 1);
        lemma_align_down_shift(a);
    }
    lemma_aligned_span(first, end);
    lemma_aligned_distance(first, pa);
    let k = (pa - first) / 4096;
    assert(k * 4096 == pa - first);
    assert(k < (end - first + 4095) / 4096) by (nonlinear_arith)
        requires
            k * 4096 == pa - first,
            pa < end,
            (end - first + 4095) / 4096 * 4096 == end - first,
    ;
}

/// Every byte of a segment's file data that falls inside its mapped pages is
/// copied, by the page that holds its address, to its address: data byte `i`
/// ends up at virtual address `vaddr + base + i`.
pub proof fn lemma_segment_data_placed(l: ProgramLoadSegment, idx: int, base: usize, i: int)
    requires
        load_segment_fits(ProgramSegment::Load(l), base),
        0 <= i < l.data@.len(),
        i < l.memsz,
    ensures
        ({
            let a = l.vaddr + base + i;
            let k = (page_align_down(a) - load_first_page(l, base)) / (PAGE_FRAME_SIZE as int);
            let pages = segment_page_loads(ProgramSegment::Load(l), idx, base);
            &&& 0 <= k < pages.len()
            &&& pages[k].copy matches Some(c) && {
                &&& c.src_offset <= i < c.src_offset + c.len
                &&& pages[k].page_vaddr + c.dest_offset + (i - c.src_offset) == a
            }
        }),
{
    let a = l.vaddr + base + i;
    lemma_segment_memory_covered(l, idx, base, a);
    lemma_page_align_down_bounds(a);
}

} // verus!
