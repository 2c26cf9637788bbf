//! Planning how the init program maps a parsed ELF program into a new process
//! through the process-memory system calls.
use vstd::prelude::*;
use crate::elf_parsing::{ElfFile, ProgramSegment, ProgramLoadSegment, ProgramSegmentFlags};
use crate::memory_layout::{page_align_down, lemma_mask_page_down};

verus! {

/// Protection requested for a mapping in another process.
#[derive(Debug, Clone, Copy, PartialEq, Eq, Structural)]
pub struct SysProt {
    pub read: bool,
    pub write: bool,
    pub execute: bool,
}

pub open spec fn spec_sys_prot(f: ProgramSegmentFlags) -> SysProt {
    SysProt {
        read: true,
        write: f.spec_contains(ProgramSegmentFlags(0x2)),
        execute: f.spec_contains(ProgramSegmentFlags(0x1)),
    }
}

/// A segment is mapped readable whatever its flags, writable exactly when its
/// `PF_W` bit (0x2) is set and executable exactly when its `PF_X` bit (0x1)
/// is set, whatever other bits are set.
pub proof fn lemma_sys_prot_follows_flag_bits(f: ProgramSegmentFlags)
    ensures
        spec_sys_prot(f).read,
        spec_sys_prot(f).write == (f.0 & 2 != 0),
        spec_sys_prot(f).execute == (f.0 & 1 != 0),
{
    let b = f.0;
    assert(((b & 2) == 2) == ((b & 2) != 0)) by (bit_vector);
    assert(((b & 1) == 1) == ((b & 1) != 0)) by (bit_vector);
}

/// The protection of a loaded segment: always readable, writable and
/// executable as the segment's flags say.
pub fn elf_flags_to_sys_prot(elf_flags: ProgramSegmentFlags) -> (r: SysProt)
    ensures
        r == spec_sys_prot(elf_flags),
{
    let mut sys_flags = SysProt { read: true, write: false, execute: false };
    if elf_flags.contains(ProgramSegmentFlags::writable()) {
        sys_flags.write = true;
    }
    if elf_flags.contains(ProgramSegmentFlags::executable()) {
        sys_flags.execute = true;
    }
    sys_flags
}

/// The mapping of one loadable segment into the new process.
#[derive(Debug, Clone, Copy, PartialEq, Eq, Structural)]
pub struct SegmentMapping {
    /// Index of the segment in the file's segment list.
    pub segment: usize,
    /// The page that holds the segment's first byte.
    pub page_start: usize,
    /// Where the segment starts inside that page.
    pub page_offset: usize,
    /// Bytes to map from `page_start`: the offset plus the segment's size in memory.
    pub map_len: usize,
    /// Protection applied once the data is copied.
    pub prot: SysProt,
}

pub open spec fn spec_segment_mapping(l: ProgramLoadSegment, idx: int) -> SegmentMapping {
    SegmentMapping {
        segment: idx as usize,
        page_start: page_align_down(l.vaddr as int) as usize,
        page_offset: (l.vaddr % 4096) as usize,
        map_len: (l.vaddr % 4096 + l.memsz) as usize,
        prot: spec_sys_prot(l.flags),
    }
}

/// The mappings of the first `n` segments that are loadable, in order.
pub open spec fn planned_mappings(segs: Seq<ProgramSegment>, n: int) -> Seq<SegmentMapping>
    decreases n,
{
    if n <= 0 {
        seq![]
    } else {
        match segs[n - 1] {
            ProgramSegment::Load(l) => planned_mappings(segs, n - 1).push(
                spec_segment_mapping(l, n - 1),
            ),
            _ => planned_mappings(segs, n - 1),
        }
    }
}

/// Mapping every loadable segment overflows no length.
pub open spec fn mappings_defined(segs: Seq<ProgramSegment>) -> bool {
    forall|i: int|
        #![trigger segs[i]]
        0 <= i < segs.len() ==> (segs[i] matches ProgramSegment::Load(l) ==> l.vaddr % 4096 + l.memsz
            <= usize::MAX)
}

/// Plans the mapping of one loadable segment.
pub fn plan_segment_mapping(seg: &ProgramLoadSegment, idx: usize) -> (r: SegmentMapping)
    requires
        seg.vaddr % 4096 + seg.memsz <= usize::MAX,
    ensures
        r == spec_segment_mapping(*seg, idx as int),
{
    let prot = elf_flags_to_sys_prot(seg.flags);
    let virt_start = seg.vaddr;
    let page_start = virt_start & !0xFFFusize;
    let page_offset = virt_start & 0xFFFusize;
    proof {
        lemma_mask_page_down(virt_start);
    }
    SegmentMapping { segment: idx, page_start, page_offset, map_len: page_offset + seg.memsz, prot }
}

/// Whether every loadable segment of `elf` can be mapped, as
/// `plan_program_mappings` needs.
pub fn mappings_defined_check(elf: &ElfFile) -> (r: bool)
    ensures
        r == mappings_defined(elf.segments@),
{
    let mut i: usize = 0;
    while i < elf.segments.len()
        invariant
            i <= elf.segments@.len(),
            forall|k: int|
                #![trigger elf.segments@[k]]
                0 <= k < i ==> (elf.segments@[k] matches ProgramSegment::Load(l) ==> l.vaddr % 4096
                    + l.memsz <= usize::MAX),
        decreases elf.segments@.len() - i,
    {
        if let ProgramSegment::Load(l) = &elf.segments[i] {
            let page_offset = l.vaddr & 0xFFFusize;
            proof {
                lemma_mask_page_down(l.vaddr);
            }
            if l.memsz > usize::MAX - page_offset {
                assert(elf.segments@[i as int] matches ProgramSegment::Load(m) && m.vaddr % 4096
                    + m.memsz > usize::MAX);
                return false;
            }
        }
        i = i + 1;
    }
    true
}

/// Plans the mappings of every loadable segment of `elf`, in order.
pub fn plan_program_mappings(elf: &ElfFile) -> (r: Vec<SegmentMapping>)
    requires
        mappings_defined(elf.segments@),
    ensures
        r@ == planned_mappings(elf.segments@, elf.segments@.len() as int),
{
    let mut mappings: Vec<SegmentMapping> = Vec::new();
    let mut i: usize = 0;
    while i < elf.segments.len()
        invariant
            i <= elf.segments@.len(),
            mappings_defined(elf.segments@),
            mappings@ == planned_mappings(elf.segments@, i as int),
        decreases elf.segments@.len() - i,
    {
        match &elf.segments[i] {
            ProgramSegment::Load(seg) => {
                mappings.push(plan_segment_mapping(seg, i));
            },
            _ => {},
        }
        i = i + 1;
    }
    mappings
}

/// Size of the stack init switches to right after it starts, and of the
/// stack it gives each program it spawns.
pub const PROCESS_STACK_SIZE: usize = 0x4000;

/// Where init asks for the stack of a program it spawns.
pub const SPAWNED_STACK_VADDR: u64 = 0x7FFF_FFFF_8000;

/// Lowest address a mapped stack may start at; below it the mapping failed.
pub const MIN_STACK_BASE: u64 = 0x40_0000;

/// The start of the stack init asks for at startup, given its current stack
/// pointer: the new stack ends one guard page below the page the current
/// stack pointer is in.
pub fn early_stack_request(sp: usize) -> (r: usize)
    requires
        page_align_down(sp as int) >= 4096 + PROCESS_STACK_SIZE,
    ensures
        r == page_align_down(sp as int) - 4096 - PROCESS_STACK_SIZE,
        r + PROCESS_STACK_SIZE + 4096 == page_align_down(sp as int),
{
    let prev_stack_base = sp & !0xFFFusize;
    proof {
        lemma_mask_page_down(sp);
    }
    let new_stack_top = prev_stack_base - 4096;
    new_stack_top - PROCESS_STACK_SIZE
}

/// The top of a stack of `PROCESS_STACK_SIZE` bytes mapped at `stack_base`;
/// the stack pointer starts there.
pub fn stack_top(stack_base: usize) -> (r: usize)
    requires
        stack_base + PROCESS_STACK_SIZE <= usize::MAX,
    ensures
        r == stack_base + PROCESS_STACK_SIZE,
{
    stack_base + PROCESS_STACK_SIZE
}

/// The stack pointer of a spawned program whose stack was mapped at
/// `stack_base`, or nothing when the mapping came back below `MIN_STACK_BASE`
/// (the mapping failed).
pub fn spawned_stack_top(stack_base: u64) -> (r: Option<u64>)
    requires
        stack_base + PROCESS_STACK_SIZE <= u64::MAX,
    ensures
        stack_base < MIN_STACK_BASE ==> r is None,
        stack_base >= MIN_STACK_BASE ==> r == Some((stack_base + PROCESS_STACK_SIZE) as u64),
{
    if stack_base < MIN_STACK_BASE {
        None
    } else {
        Some(stack_base + PROCESS_STACK_SIZE as u64)
    }
}

} // verus!
