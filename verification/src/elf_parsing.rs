//! Parsing of 64-bit little-endian ELF files into program segments,
//! including the relative relocations named by a dynamic segment.
use vstd::prelude::*;
use vstd::slice::slice_subrange;
use crate::bytes::{le_u16, le_u32, le_u64, le_i64, read_u16_le, read_u32_le, read_u64_le, read_i64_le};

verus! {

/// Size of the ELF file header.
pub const ELF_HEADER_SIZE: usize = 64;

/// Size of one program header table entry.
pub const PHDR_SIZE: usize = 56;

/// The architectures the kernel runs on; each accepts ELF files of one machine type.
#[derive(Debug, Clone, Copy, PartialEq, Eq, Structural)]
pub enum TargetArch {
    X86_64,
    Aarch64,
}

impl TargetArch {
    pub open spec fn spec_machine(self) -> u16 {
        match self {
            TargetArch::X86_64 => 0x3E,
            TargetArch::Aarch64 => 0xB7,
        }
    }

    /// The `e_machine` value of ELF files built for this architecture.
    pub fn machine(&self) -> (m: u16)
        ensures
            m == self.spec_machine(),
    {
        match self {
            TargetArch::X86_64 => 0x3E,
            TargetArch::Aarch64 => 0xB7,
        }
    }
}

#[derive(Debug, Clone, Copy, PartialEq, Eq, Structural)]
pub enum ElfType {
    Executable,
    SharedObject,
    Other(u16),
}

/// Why an input is not a parsable ELF file.
#[derive(Debug, Clone, Copy, PartialEq, Eq, Structural)]
pub enum ElfParseError {
    /// The input does not start with `\x7FELF`.
    InvalidMagic,
    /// The input ends before the header or the program header table does.
    Truncated,
}

pub struct ElfFile<'data> {
    pub type_: ElfType,
    pub entrypoint: usize,
    /// The section header table's file offset, as read from the header.
    pub shoff: usize,
    pub segments: Vec<ProgramSegment<'data>>,
}

pub enum ProgramSegment<'data> {
    Load(ProgramLoadSegment<'data>),
    Dynamic(ProgramDynamicSegment),
    Unknown(ProgramUnknownSegment<'data>),
}

pub struct ProgramLoadSegment<'data> {
    pub flags: ProgramSegmentFlags,
    pub vaddr: usize,
    pub paddr: usize,
    pub memsz: usize,
    pub align: usize,
    pub data: &'data [u8],
}

pub struct ProgramDynamicSegment {
    pub vaddr: usize,
    pub relocations: Vec<RelativeRelocation>,
}

pub struct ProgramUnknownSegment<'data> {
    pub type_val: u32,
    pub flags: ProgramSegmentFlags,
    pub vaddr: usize,
    pub paddr: usize,
    pub memsz: usize,
    pub align: usize,
    pub raw_data: &'data [u8],
}

#[derive(Debug, Clone, Copy, PartialEq, Eq, Structural)]
pub struct RelativeRelocation {
    pub offset: usize,
    pub addend: i64,
}

#[derive(Debug, Clone, Copy, PartialEq, Eq, Structural)]
pub struct ProgramSegmentFlags(pub u32);

impl ProgramSegmentFlags {
    /// The segment may be executed (`PF_X`).
    pub fn executable() -> (r: Self)
        ensures
            r.0 == 0x1,
    {
        ProgramSegmentFlags(0x1)
    }

    /// The segment may be written (`PF_W`).
    pub fn writable() -> (r: Self)
        ensures
            r.0 == 0x2,
    {
        ProgramSegmentFlags(0x2)
    }

    /// The segment may be read (`PF_R`).
    pub fn readable() -> (r: Self)
        ensures
            r.0 == 0x4,
    {
        ProgramSegmentFlags(0x4)
    }

    pub fn from_bits_truncate(bits: u32) -> (r: Self)
        ensures
            r.0 == bits,
    {
        ProgramSegmentFlags(bits)
    }

    pub open spec fn spec_contains(self, other: Self) -> bool {
        (self.0 & other.0) == other.0
    }

    /// Whether every bit set in `other` is set in `self`.
    pub fn contains(&self, other: Self) -> (r: bool)
        ensures
            r == self.spec_contains(other),
    {
        (self.0 & other.0) == other.0
    }

    /// The union of the two flag sets.
    pub fn bitor(self, rhs: Self) -> (r: Self)
        ensures
            r.0 == self.0 | rhs.0,
    {
        ProgramSegmentFlags(self.0 | rhs.0)
    }
}

impl<'data> ProgramSegment<'data> {
    pub open spec fn spec_vaddr(&self) -> usize {
        match self {
            ProgramSegment::Load(seg) => seg.vaddr,
            ProgramSegment::Dynamic(seg) => seg.vaddr,
            ProgramSegment::Unknown(seg) => seg.vaddr,
        }
    }

    pub open spec fn spec_memsz(&self) -> usize {
        match self {
            ProgramSegment::Load(seg) => seg.memsz,
            ProgramSegment::Unknown(seg) => seg.memsz,
            ProgramSegment::Dynamic(_) => 0,
        }
    }

    pub open spec fn spec_flags(&self) -> ProgramSegmentFlags {
        match self {
            ProgramSegment::Load(seg) => seg.flags,
            ProgramSegment::Unknown(seg) => seg.flags,
            ProgramSegment::Dynamic(_) => ProgramSegmentFlags(0x4u32 | 0x2u32),
        }
    }

    pub fn vaddr(&self) -> (r: usize)
        ensures
            r == self.spec_vaddr(),
    {
        match self {
            ProgramSegment::Load(seg) => seg.vaddr,
            ProgramSegment::Dynamic(seg) => seg.vaddr,
            ProgramSegment::Unknown(seg) => seg.vaddr,
        }
    }

    /// The segment's size in memory; a dynamic segment occupies none of its own.
    pub fn memsz(&self) -> (r: usize)
        ensures
            r == self.spec_memsz(),
    {
        match self {
            ProgramSegment::Load(seg) => seg.memsz,
            ProgramSegment::Unknown(seg) => seg.memsz,
            ProgramSegment::Dynamic(_) => 0,
        }
    }

    /// The segment's access flags; a dynamic segment is readable and writable.
    pub fn flags(&self) -> (r: ProgramSegmentFlags)
        ensures
            r == self.spec_flags(),
    {
        match self {
            ProgramSegment::Load(seg) => seg.flags,
            ProgramSegment::Unknown(seg) => seg.flags,
            ProgramSegment::Dynamic(_) => ProgramSegmentFlags::readable().bitor(ProgramSegmentFlags::writable()),
        }
    }
}

/// The fields of one program header table entry, with the file bytes it covers.
pub struct PhdrModel {
    pub type_val: u32,
    pub flags: u32,
    pub vaddr: usize,
    pub paddr: usize,
    pub memsz: usize,
    pub align: usize,
    pub data: Seq<u8>,
}

/// A program header read from the file, before it is classified.
struct RawPhdr<'data> {
    type_val: u32,
    flags: u32,
    vaddr: usize,
    paddr: usize,
    memsz: usize,
    align: usize,
    data: &'data [u8],
}

impl<'data> View for RawPhdr<'data> {
    type V = PhdrModel;

    closed spec fn view(&self) -> PhdrModel {
        PhdrModel {
            type_val: self.type_val,
            flags: self.flags,
            vaddr: self.vaddr,
            paddr: self.paddr,
            memsz: self.memsz,
            align: self.align,
            data: self.data@,
        }
    }
}

/// The file starts with the ELF magic `\x7FELF`.
pub open spec fn has_elf_magic(s: Seq<u8>) -> bool {
    &&& s.len() >= 4
    &&& s[0] == 0x7F
    &&& s[1] == 0x45
    &&& s[2] == 0x4C
    &&& s[3] == 0x46
}

pub open spec fn spec_phoff(s: Seq<u8>) -> usize {
    le_u64(s, 32) as usize
}

pub open spec fn spec_phnum(s: Seq<u8>) -> usize {
    le_u16(s, 56) as usize
}

/// The header and the whole program header table lie inside the file.
pub open spec fn elf_tables_fit(s: Seq<u8>) -> bool {
    &&& s.len() >= ELF_HEADER_SIZE
    &&& spec_phoff(s) + PHDR_SIZE * spec_phnum(s) <= s.len()
}

pub open spec fn phdr_offset(s: Seq<u8>, p: int) -> usize {
    le_u64(s, p + 8) as usize
}

pub open spec fn phdr_filesz(s: Seq<u8>, p: int) -> usize {
    le_u64(s, p + 32) as usize
}

/// The bytes that the program header at `p` names lie inside the file.
pub open spec fn phdr_data_in_file(s: Seq<u8>, p: int) -> bool {
    phdr_offset(s, p) + phdr_filesz(s, p) <= s.len()
}

/// The program header table entry at byte position `p`.
pub open spec fn spec_phdr_at(s: Seq<u8>, p: int) -> PhdrModel {
    PhdrModel {
        type_val: le_u32(s, p) as u32,
        flags: le_u32(s, p + 4) as u32,
        vaddr: le_u64(s, p + 16) as usize,
        paddr: le_u64(s, p + 24) as usize,
        memsz: le_u64(s, p + 40) as usize,
        align: le_u64(s, p + 48) as usize,
        data: s.subrange(phdr_offset(s, p) as int, phdr_offset(s, p) + phdr_filesz(s, p)),
    }
}

/// All entries of the program header table.
pub open spec fn spec_phdrs(s: Seq<u8>) -> Seq<PhdrModel> {
    Seq::new(
        spec_phnum(s) as nat,
        |i: int| spec_phdr_at(s, spec_phoff(s) + PHDR_SIZE * i),
    )
}

/// The running values of the `DT_RELA`, `DT_RELASZ` and `DT_RELAENT` entries
/// of a dynamic section: its 16-byte entries are read in order up to the first
/// `DT_NULL`, and a later entry overrides an earlier one.
pub open spec fn dynamic_rela_info(d: Seq<u8>, acc: (usize, usize, usize)) -> (usize, usize, usize)
    decreases d.len(),
{
    if d.len() < 16 {
        acc
    } else {
        let tag = le_i64(d, 0);
        let val = le_u64(d, 8) as usize;
        if tag == 0 {
            acc
        } else {
            let next = if tag == 7 {
                (val, acc.1, acc.2)
            } else if tag == 8 {
                (acc.0, val, acc.2)
            } else if tag == 9 {
                (acc.0, acc.1, val)
            } else {
                acc
            };
            dynamic_rela_info(d.subrange(16, d.len() as int), next)
        }
    }
}

/// Whether the loadable entry `o` is where the search for the relocation
/// table at `rela_vaddr` stops: it is loadable and its memory range holds the address.
pub open spec fn load_holds_addr(o: PhdrModel, rela_vaddr: usize) -> bool {
    &&& o.type_val == 1
    &&& rela_vaddr >= o.vaddr
    &&& rela_vaddr < o.vaddr + o.memsz
}

/// The search for the relocation table from entry `k` on performs no overflowing addition.
pub open spec fn rela_search_defined(
    raws: Seq<PhdrModel>,
    rela_vaddr: usize,
    rela_sz: usize,
    k: int,
) -> bool
    decreases raws.len() - k,
{
    if k < 0 || k >= raws.len() {
        true
    } else {
        let o = raws[k];
        if o.type_val == 1 && rela_vaddr >= o.vaddr {
            if o.vaddr + o.memsz > usize::MAX {
                false
            } else if rela_vaddr < o.vaddr + o.memsz {
                (rela_vaddr - o.vaddr) + rela_sz <= usize::MAX
            } else {
                rela_search_defined(raws, rela_vaddr, rela_sz, k + 1)
            }
        } else {
            rela_search_defined(raws, rela_vaddr, rela_sz, k + 1)
        }
    }
}

/// The relocation table's bytes: taken from the first loadable entry (from `k` on)
/// whose memory range holds `rela_vaddr`, if that entry's file bytes cover the table.
pub open spec fn find_rela_data(
    raws: Seq<PhdrModel>,
    rela_vaddr: usize,
    rela_sz: usize,
    k: int,
) -> Option<Seq<u8>>
    decreases raws.len() - k,
{
    if k < 0 || k >= raws.len() {
        None
    } else if load_holds_addr(raws[k], rela_vaddr) {
        let o = raws[k];
        let off = rela_vaddr - o.vaddr;
        if off + rela_sz <= o.data.len() {
            Some(o.data.subrange(off, off + rela_sz))
        } else {
            None
        }
    } else {
        find_rela_data(raws, rela_vaddr, rela_sz, k + 1)
    }
}

/// The relocation entry of type `R_X86_64_RELATIVE` (8) or `R_AARCH64_RELATIVE`
/// (1027) held in the first `ent` bytes of `d`, if it is one.
pub open spec fn is_relative_reloc(d: Seq<u8>) -> bool {
    le_u64(d, 8) % 0x1_0000_0000 == 8 || le_u64(d, 8) % 0x1_0000_0000 == 1027
}

/// The relative relocations among the whole `ent`-byte entries of `d`, in order.
pub open spec fn relative_relocations(d: Seq<u8>, ent: int) -> Seq<RelativeRelocation>
    decreases d.len(),
{
    if ent < 24 || d.len() < ent {
        seq![]
    } else {
        let rest = relative_relocations(d.subrange(ent, d.len() as int), ent);
        if is_relative_reloc(d) {
            seq![RelativeRelocation { offset: le_u64(d, 0) as usize, addend: le_i64(d, 16) as i64 }]
                + rest
        } else {
            rest
        }
    }
}

/// The relocations that a dynamic entry names, given all entries of the file.
pub open spec fn dynamic_relocations(raw: PhdrModel, raws: Seq<PhdrModel>) -> Seq<RelativeRelocation> {
    let info = dynamic_rela_info(raw.data, (0, 0, 0));
    if info.0 != 0 && info.1 != 0 && info.2 >= 24 {
        match find_rela_data(raws, info.0, info.1, 0) {
            Some(d) => relative_relocations(d, info.2 as int),
            None => seq![],
        }
    } else {
        seq![]
    }
}

/// Classifying `raw` performs no overflowing addition.
pub open spec fn classify_defined(raw: PhdrModel, raws: Seq<PhdrModel>) -> bool {
    let info = dynamic_rela_info(raw.data, (0, 0, 0));
    raw.type_val == 2 && info.0 != 0 && info.1 != 0 && info.2 >= 24
        ==> rela_search_defined(raws, info.0, info.1, 0)
}

/// `seg` is the classification of `raw`: type 1 is loadable, type 2 is dynamic,
/// anything else is kept as it is.
pub open spec fn segment_of(seg: ProgramSegment, raw: PhdrModel, raws: Seq<PhdrModel>) -> bool {
    if raw.type_val == 1 {
        seg matches ProgramSegment::Load(l) && {
            &&& l.flags.0 == raw.flags
            &&& l.vaddr == raw.vaddr
            &&& l.paddr == raw.paddr
            &&& l.memsz == raw.memsz
            &&& l.align == raw.align
            &&& l.data@ == raw.data
        }
    } else if raw.type_val == 2 {
        seg matches ProgramSegment::Dynamic(dy) && {
            &&& dy.vaddr == raw.vaddr
            &&& dy.relocations@ == dynamic_relocations(raw, raws)
        }
    } else {
        seg matches ProgramSegment::Unknown(u) && {
            &&& u.type_val == raw.type_val
            &&& u.flags.0 == raw.flags
            &&& u.vaddr == raw.vaddr
            &&& u.paddr == raw.paddr
            &&& u.memsz == raw.memsz
            &&& u.align == raw.align
            &&& u.raw_data@ == raw.data
        }
    }
}

pub open spec fn spec_elf_type(v: u16) -> ElfType {
    if v == 2 {
        ElfType::Executable
    } else if v == 3 {
        ElfType::SharedObject
    } else {
        ElfType::Other(v)
    }
}

/// The ELF type field names an executable when it is 2, a shared object when
/// it is 3, and is kept as it is otherwise.
pub proof fn lemma_elf_type_codes(v: u16)
    ensures
        spec_elf_type(v) is Executable <==> v == 2,
        spec_elf_type(v) is SharedObject <==> v == 3,
        spec_elf_type(v) matches ElfType::Other(w) ==> w == v && v != 2 && v != 3,
{
}

/// A program header becomes a loadable segment exactly when its type is 1
/// (`PT_LOAD`), a dynamic segment exactly when its type is 2 (`PT_DYNAMIC`),
/// and is kept as an unknown segment of its own type otherwise; a loadable
/// segment keeps the header's address, sizes, flags and file bytes.
pub proof fn lemma_segment_kinds(seg: ProgramSegment, raw: PhdrModel, raws: Seq<PhdrModel>)
    requires
        segment_of(seg, raw, raws),
    ensures
        seg is Load <==> raw.type_val == 1,
        seg is Dynamic <==> raw.type_val == 2,
        seg matches ProgramSegment::Unknown(u) ==> u.type_val == raw.type_val,
        seg matches ProgramSegment::Load(l) ==> l.vaddr == raw.vaddr && l.memsz == raw.memsz
            && l.flags.0 == raw.flags && l.data@ == raw.data,
{
}

/// The inputs on which parsing completes without a failed check: a file with
/// the ELF magic and a machine field names `arch`'s machine, its program header
/// table starts after the file header, the entries that are present name bytes
/// inside the file, and no dynamic entry leads to an overflowing address.
pub open spec fn parse_elf_defined(s: Seq<u8>, arch: TargetArch) -> bool {
    has_elf_magic(s) && s.len() >= 20 ==> {
        &&& le_u16(s, 18) == arch.spec_machine()
        &&& s.len() >= ELF_HEADER_SIZE ==> {
            &&& spec_phoff(s) >= ELF_HEADER_SIZE
            &&& forall|i: int|
                0 <= i < spec_phnum(s) && spec_phoff(s) + PHDR_SIZE * (i + 1) <= s.len()
                    ==> #[trigger] phdr_data_in_file(s, spec_phoff(s) + PHDR_SIZE * i)
            &&& elf_tables_fit(s) ==> forall|i: int|
                0 <= i < spec_phnum(s) ==> #[trigger] classify_defined(spec_phdrs(s)[i], spec_phdrs(s))
        }
    }
}

spec fn phdr_models<'data>(raws: Seq<RawPhdr<'data>>) -> Seq<PhdrModel> {
    raws.map_values(|r: RawPhdr<'data>| r@)
}

/// Checks the identification bytes at the start of the file.
pub(crate) fn parse_ident(input: &[u8]) -> (r: Result<(), ElfParseError>)
    ensures
        !has_elf_magic(input@) ==> r == Err::<(), ElfParseError>(ElfParseError::InvalidMagic),
        has_elf_magic(input@) && input@.len() < 16 ==> r == Err::<(), ElfParseError>(
            ElfParseError::Truncated,
        ),
        has_elf_magic(input@) && input@.len() >= 16 ==> r is Ok,
{
    if input.len() < 4 || input[0] != 0x7F || input[1] != 0x45 || input[2] != 0x4C || input[3]
        != 0x46 {
        return Err(ElfParseError::InvalidMagic);
    }
    if input.len() < 16 {
        return Err(ElfParseError::Truncated);
    }
    Ok(())
}

/// Reads the program header table entry at byte position `pos`.
fn parse_raw_phdr<'data>(start_input: &'data [u8], pos: usize) -> (r: RawPhdr<'data>)
    requires
        pos + PHDR_SIZE <= start_input.len(),
        phdr_data_in_file(start_input@, pos as int),
    ensures
        r@ == spec_phdr_at(start_input@, pos as int),
{
    let type_val = read_u32_le(start_input, pos);
    let flags = read_u32_le(start_input, pos + 4);
    let offset = read_u64_le(start_input, pos + 8);
    let vaddr = read_u64_le(start_input, pos + 16);
    let paddr = read_u64_le(start_input, pos + 24);
    let filesz = read_u64_le(start_input, pos + 32);
    let memsz = read_u64_le(start_input, pos + 40);
    let align = read_u64_le(start_input, pos + 48);
    let offset = offset as usize;
    let filesz = filesz as usize;
    let data = slice_subrange(start_input, offset, offset + filesz);
    RawPhdr {
        type_val,
        flags,
        vaddr: vaddr as usize,
        paddr: paddr as usize,
        memsz: memsz as usize,
        align: align as usize,
        data,
    }
}

/// Reads the `DT_RELA`, `DT_RELASZ` and `DT_RELAENT` values of a dynamic section.
fn scan_dynamic_section(data: &[u8]) -> (r: (usize, usize, usize))
    ensures
        r == dynamic_rela_info(data@, (0, 0, 0)),
{
    let mut rela_vaddr: usize = 0;
    let mut rela_sz: usize = 0;
    let mut rela_ent: usize = 0;
    let mut pos: usize = 0;
    let mut done = false;
    let len = data.len();
    assert(data@.subrange(0, len as int) =~= data@);
    while !done && len - pos >= 16
        invariant
            len == data@.len(),
            pos <= len,
            dynamic_rela_info(data@.subrange(pos as int, len as int), (rela_vaddr, rela_sz, rela_ent))
                == dynamic_rela_info(data@, (0, 0, 0)),
            done ==> dynamic_rela_info(
                data@.subrange(pos as int, len as int),
                (rela_vaddr, rela_sz, rela_ent),
            ) == (rela_vaddr, rela_sz, rela_ent),
        decreases (len - pos) + (if done { 0int } else { 1int }),
    {
        let ghost rest = data@.subrange(pos as int, len as int);
        let d_tag = read_i64_le(data, pos);
        let d_val = read_u64_le(data, pos + 8);
        assert(le_i64(rest, 0) == le_i64(data@, pos as int));
        assert(le_u64(rest, 8) == le_u64(data@, pos + 8));
        if d_tag == 0 {
            done = true;
        } else {
            if d_tag == 7 {
                rela_vaddr = d_val as usize;
            } else if d_tag == 8 {
                rela_sz = d_val as usize;
            } else if d_tag == 9 {
                rela_ent = d_val as usize;
            }
            assert(rest.subrange(16, rest.len() as int) =~= data@.subrange(pos + 16, len as int));
            pos = pos + 16;
        }
    }
    (rela_vaddr, rela_sz, rela_ent)
}

/// Finds the bytes of the relocation table at `rela_vaddr` in the first
/// loadable entry whose memory range holds it.
fn find_rela_slice<'data>(all_raws: &[RawPhdr<'data>], rela_vaddr: usize, rela_sz: usize) -> (r:
    Option<&'data [u8]>)
    requires
        rela_search_defined(phdr_models(all_raws@), rela_vaddr, rela_sz, 0),
    ensures
        match r {
            Some(d) => find_rela_data(phdr_models(all_raws@), rela_vaddr, rela_sz, 0) == Some(d@),
            None => find_rela_data(phdr_models(all_raws@), rela_vaddr, rela_sz, 0) is None,
        },
{
    let ghost models = phdr_models(all_raws@);
    let mut k: usize = 0;
    while k < all_raws.len()
        invariant
            k <= all_raws@.len(),
            models == phdr_models(all_raws@),
            rela_search_defined(models, rela_vaddr, rela_sz, k as int),
            find_rela_data(models, rela_vaddr, rela_sz, 0) == find_rela_data(
                models,
                rela_vaddr,
                rela_sz,
                k as int,
            ),
        decreases all_raws@.len() - k,
    {
        let other = &all_raws[k];
        assert(models[k as int] == other@);
        if other.type_val == 1 && rela_vaddr >= other.vaddr && rela_vaddr < other.vaddr
            + other.memsz {
            let offset_in_slice = rela_vaddr - other.vaddr;
            if offset_in_slice + rela_sz <= other.data.len() {
                return Some(slice_subrange(other.data, offset_in_slice, offset_in_slice + rela_sz));
            }
            return None;
        }
        k = k + 1;
    }
    None
}

/// Collects the relative relocations among the `rela_ent`-byte entries of `rela_data`.
fn collect_relative_relocations(rela_data: &[u8], rela_ent: usize) -> (r: Vec<RelativeRelocation>)
    requires
        rela_ent >= 24,
    ensures
        r@ == relative_relocations(rela_data@, rela_ent as int),
{
    let mut relocations: Vec<RelativeRelocation> = Vec::new();
    let len = rela_data.len();
    let mut pos: usize = 0;
    assert(rela_data@.subrange(0, len as int) =~= rela_data@);
    assert(relocations@ + relative_relocations(rela_data@, rela_ent as int) =~= relative_relocations(
        rela_data@,
        rela_ent as int,
    ));
    while len - pos >= rela_ent
        invariant
            len == rela_data@.len(),
            rela_ent >= 24,
            pos <= len,
            relocations@ + relative_relocations(
                rela_data@.subrange(pos as int, len as int),
                rela_ent as int,
            ) == relative_relocations(rela_data@, rela_ent as int),
        decreases len - pos,
    {
        let ghost rest = rela_data@.subrange(pos as int, len as int);
        let r_offset = read_u64_le(rela_data, pos) as usize;
        let r_info = read_u64_le(rela_data, pos + 8);
        let r_addend = read_i64_le(rela_data, pos + 16);
        assert(le_u64(rest, 0) == le_u64(rela_data@, pos as int));
        assert(le_u64(rest, 8) == le_u64(rela_data@, pos + 8));
        assert(le_i64(rest, 16) == le_i64(rela_data@, pos + 16));
        let r_type = (r_info % 0x1_0000_0000) as u32;
        let ghost before = relocations@;
        if r_type == 8 || r_type == 1027 {
            relocations.push(RelativeRelocation { offset: r_offset, addend: r_addend });
        }
        assert(rest.subrange(rela_ent as int, rest.len() as int) =~= rela_data@.subrange(
            pos + rela_ent,
            len as int,
        ));
        assert(relocations@ + relative_relocations(
            rela_data@.subrange(pos + rela_ent, len as int),
            rela_ent as int,
        ) =~= before + relative_relocations(rest, rela_ent as int));
        pos = pos + rela_ent;
    }
    assert(rela_data@.subrange(pos as int, len as int).len() < rela_ent);
    assert(relocations@ + seq![] =~= relocations@);
    relocations
}

impl<'data> ProgramSegment<'data> {
    fn from_raw(raw: &RawPhdr<'data>, all_raws: &[RawPhdr<'data>]) -> (r: Self)
        requires
            classify_defined(raw@, phdr_models(all_raws@)),
        ensures
            segment_of(r, raw@, phdr_models(all_raws@)),
    {
        let parsed_flags = ProgramSegmentFlags::from_bits_truncate(raw.flags);
        if raw.type_val == 1 {
            ProgramSegment::Load(
                ProgramLoadSegment {
                    flags: parsed_flags,
                    vaddr: raw.vaddr,
                    paddr: raw.paddr,
                    memsz: raw.memsz,
                    align: raw.align,
                    data: raw.data,
                },
            )
        } else if raw.type_val == 2 {
            let (rela_vaddr, rela_sz, rela_ent) = scan_dynamic_section(raw.data);
            let mut relocations: Vec<RelativeRelocation> = Vec::new();
            if rela_vaddr != 0 && rela_sz != 0 && rela_ent >= 24 {
                if let Some(rela_data) = find_rela_slice(all_raws, rela_vaddr, rela_sz) {
                    relocations = collect_relative_relocations(rela_data, rela_ent);
                }
            }
            ProgramSegment::Dynamic(ProgramDynamicSegment { vaddr: raw.vaddr, relocations })
        } else {
            ProgramSegment::Unknown(
                ProgramUnknownSegment {
                    type_val: raw.type_val,
                    flags: parsed_flags,
                    vaddr: raw.vaddr,
                    paddr: raw.paddr,
                    memsz: raw.memsz,
                    align: raw.align,
                    raw_data: raw.data,
                },
            )
        }
    }
}

/// Whether `input` starts with the ELF magic.
pub(crate) fn has_elf_magic_check(input: &[u8]) -> (r: bool)
    ensures
        r == has_elf_magic(input@),
{
    input.len() >= 4 && input[0] == 0x7F && input[1] == 0x45 && input[2] == 0x4C && input[3] == 0x46
}

/// Whether every entry of the program header table that lies inside the file
/// names file bytes inside it.
pub(crate) fn present_phdrs_in_file_check(input: &[u8]) -> (r: bool)
    requires
        input@.len() >= ELF_HEADER_SIZE,
    ensures
        r == (forall|i: int|
            0 <= i < spec_phnum(input@) && spec_phoff(input@) + PHDR_SIZE * (i + 1) <= input@.len()
                ==> #[trigger] phdr_data_in_file(input@, spec_phoff(input@) + PHDR_SIZE * i)),
{
    let ghost s = input@;
    #[verifier::truncate]
    let phoff = read_u64_le(input, 32) as usize;
    let phnum = read_u16_le(input, 56) as usize;
    let mut i: usize = 0;
    while i < phnum
        invariant
            s == input@,
            phoff == spec_phoff(s),
            phnum == spec_phnum(s),
            i <= phnum,
            forall|j: int|
                0 <= j < i && spec_phoff(s) + PHDR_SIZE * (j + 1) <= s.len()
                    ==> #[trigger] phdr_data_in_file(s, spec_phoff(s) + PHDR_SIZE * j),
        decreases phnum - i,
    {
        if phoff > input.len() || input.len() - phoff < PHDR_SIZE * (i + 1) {
            assert forall|j: int|
                0 <= j < spec_phnum(s) && spec_phoff(s) + PHDR_SIZE * (j + 1) <= s.len()
                    implies #[trigger] phdr_data_in_file(s, spec_phoff(s) + PHDR_SIZE * j) by {
                if j >= i {
                    assert(spec_phoff(s) + PHDR_SIZE * (j + 1) >= spec_phoff(s) + PHDR_SIZE * (i
                        + 1));
                }
            }
            return true;
        }
        let pos = phoff + PHDR_SIZE * i;
        #[verifier::truncate]
        let offset = read_u64_le(input, pos + 8) as usize;
        #[verifier::truncate]
        let filesz = read_u64_le(input, pos + 32) as usize;
        if filesz > input.len() || offset > input.len() - filesz {
            assert(!phdr_data_in_file(s, spec_phoff(s) + PHDR_SIZE * i));
            return false;
        }
        i = i + 1;
    }
    true
}

/// Whether the search for the relocation table at `rela_vaddr` performs no
/// overflowing addition.
fn rela_search_defined_check(all_raws: &[RawPhdr], rela_vaddr: usize, rela_sz: usize) -> (r: bool)
    ensures
        r == rela_search_defined(phdr_models(all_raws@), rela_vaddr, rela_sz, 0),
{
    let ghost models = phdr_models(all_raws@);
    let mut k: usize = 0;
    while k < all_raws.len()
        invariant
            k <= all_raws@.len(),
            models == phdr_models(all_raws@),
            rela_search_defined(models, rela_vaddr, rela_sz, 0) == rela_search_defined(
                models,
                rela_vaddr,
                rela_sz,
                k as int,
            ),
        decreases all_raws@.len() - k,
    {
        let other = &all_raws[k];
        assert(models[k as int] == other@);
        if other.type_val == 1 && rela_vaddr >= other.vaddr {
            if other.memsz > usize::MAX - other.vaddr {
                return false;
            }
            if rela_vaddr < other.vaddr + other.memsz {
                return rela_sz <= usize::MAX - (rela_vaddr - other.vaddr);
            }
        }
        k = k + 1;
    }
    true
}

/// Whether `input` can be parsed for `arch` without a failed check, as
/// `parse_elf_file` needs.
pub fn parse_elf_defined_check(input: &[u8], arch: TargetArch) -> (r: bool)
    ensures
        r == parse_elf_defined(input@, arch),
{
    let ghost s = input@;
    if !has_elf_magic_check(input) || input.len() < 20 {
        return true;
    }
    if read_u16_le(input, 18) != arch.machine() {
        return false;
    }
    if input.len() < ELF_HEADER_SIZE {
        return true;
    }
    #[verifier::truncate]
    let phoff = read_u64_le(input, 32) as usize;
    if phoff < ELF_HEADER_SIZE {
        return false;
    }
    if !present_phdrs_in_file_check(input) {
        return false;
    }
    let phnum = read_u16_le(input, 56) as usize;
    if phoff > input.len() || input.len() - phoff < PHDR_SIZE * phnum {
        return true;
    }
    let mut raw_phdrs: Vec<RawPhdr> = Vec::new();
    let mut i: usize = 0;
    while i < phnum
        invariant
            s == input@,
            has_elf_magic(s),
            s.len() >= ELF_HEADER_SIZE,
            le_u16(s, 18) == arch.spec_machine(),
            spec_phoff(s) >= ELF_HEADER_SIZE,
            elf_tables_fit(s),
            phoff == spec_phoff(s),
            phnum == spec_phnum(s),
            phoff + PHDR_SIZE * phnum <= input.len(),
            forall|j: int|
                0 <= j < spec_phnum(s) && spec_phoff(s) + PHDR_SIZE * (j + 1) <= s.len()
                    ==> #[trigger] phdr_data_in_file(s, spec_phoff(s) + PHDR_SIZE * j),
            i <= phnum,
            raw_phdrs@.len() == i,
            forall|j: int| 0 <= j < i ==> (#[trigger] raw_phdrs@[j])@ == spec_phdrs(s)[j],
        decreases phnum - i,
    {
        let pos = phoff + PHDR_SIZE * i;
        assert(phdr_data_in_file(s, spec_phoff(s) + PHDR_SIZE * i));
        raw_phdrs.push(parse_raw_phdr(input, pos));
        i = i + 1;
    }
    let all_raws = raw_phdrs.as_slice();
    assert(phdr_models(all_raws@) =~= spec_phdrs(s));
    let mut k: usize = 0;
    while k < all_raws.len()
        invariant
            s == input@,
            has_elf_magic(s),
            s.len() >= ELF_HEADER_SIZE,
            le_u16(s, 18) == arch.spec_machine(),
            spec_phoff(s) >= ELF_HEADER_SIZE,
            elf_tables_fit(s),
            forall|j: int|
                0 <= j < spec_phnum(s) && spec_phoff(s) + PHDR_SIZE * (j + 1) <= s.len()
                    ==> #[trigger] phdr_data_in_file(s, spec_phoff(s) + PHDR_SIZE * j),
            phnum == spec_phnum(s),
            all_raws@.len() == phnum,
            phdr_models(all_raws@) == spec_phdrs(s),
            k <= phnum,
            forall|j: int| 0 <= j < k ==> #[trigger] classify_defined(spec_phdrs(s)[j], spec_phdrs(s)),
        decreases phnum - k,
    {
        let raw = &all_raws[k];
        assert(raw@ == spec_phdrs(s)[k as int]);
        if raw.type_val == 2 {
            let (rela_vaddr, rela_sz, rela_ent) = scan_dynamic_section(raw.data);
            if rela_vaddr != 0 && rela_sz != 0 && rela_ent >= 24 && !rela_search_defined_check(
                all_raws,
                rela_vaddr,
                rela_sz,
            ) {
                assert(!classify_defined(spec_phdrs(s)[k as int], spec_phdrs(s)));
                return false;
            }
        }
        k = k + 1;
    }
    true
}

/// Parses an ELF file for `arch` into its program segments.
///
/// The file must start with the ELF magic; the header and the program header
/// table must lie inside the input. Each program header becomes a segment:
/// loadable ones keep their file bytes, dynamic ones carry the relative
/// relocations of the relocation table they name, and the others are kept as
/// they are.
pub fn parse_elf_file<'data>(input: &'data [u8], arch: TargetArch) -> (r: Result<
    ElfFile<'data>,
    ElfParseError,
>)
    requires
        parse_elf_defined(input@, arch),
    ensures
        !has_elf_magic(input@) ==> r matches Err(ElfParseError::InvalidMagic),
        has_elf_magic(input@) && !elf_tables_fit(input@) ==> r matches Err(ElfParseError::Truncated),
        has_elf_magic(input@) && elf_tables_fit(input@) ==> (r matches Ok(elf) && {
            &&& elf.type_ == spec_elf_type(le_u16(input@, 16) as u16)
            &&& elf.entrypoint == le_u64(input@, 24) as usize
            &&& elf.shoff == le_u64(input@, 40) as usize
            &&& elf.segments@.len() == spec_phnum(input@)
            &&& forall|i: int|
                0 <= i < spec_phnum(input@) ==> #[trigger] segment_of(
                    elf.segments@[i],
                    spec_phdrs(input@)[i],
                    spec_phdrs(input@),
                )
        }),
{
    let ghost s = input@;
    parse_ident(input)?;
    if input.len() < ELF_HEADER_SIZE {
        return Err(ElfParseError::Truncated);
    }
    let type_val = read_u16_le(input, 16);
    let type_ = if type_val == 2 {
        ElfType::Executable
    } else if type_val == 3 {
        ElfType::SharedObject
    } else {
        ElfType::Other(type_val)
    };
    let machine = read_u16_le(input, 18);
    assert(machine == arch.spec_machine());
    let entrypoint = read_u64_le(input, 24) as usize;
    let phoff = read_u64_le(input, 32) as usize;
    let shoff = read_u64_le(input, 40) as usize;
    let phnum = read_u16_le(input, 56) as usize;
    let table_len = PHDR_SIZE * phnum;
    if phoff > input.len() || input.len() - phoff < table_len {
        return Err(ElfParseError::Truncated);
    }
    let mut raw_phdrs: Vec<RawPhdr<'data>> = Vec::new();
    let mut i: usize = 0;
    while i < phnum
        invariant
            s == input@,
            phoff == spec_phoff(s),
            phnum == spec_phnum(s),
            phoff + PHDR_SIZE * phnum <= input.len(),
            elf_tables_fit(s),
            parse_elf_defined(s, arch),
            has_elf_magic(s),
            i <= phnum,
            raw_phdrs@.len() == i,
            forall|j: int| 0 <= j < i ==> (#[trigger] raw_phdrs@[j])@ == spec_phdrs(s)[j],
        decreases phnum - i,
    {
        let pos = phoff + PHDR_SIZE * i;
        assert(phdr_data_in_file(s, spec_phoff(s) + PHDR_SIZE * i));
        raw_phdrs.push(parse_raw_phdr(input, pos));
        i = i + 1;
    }
    let all_raws = raw_phdrs.as_slice();
    assert(phdr_models(all_raws@) =~= spec_phdrs(s));
    let mut segments: Vec<ProgramSegment<'data>> = Vec::new();
    let mut k: usize = 0;
    while k < all_raws.len()
        invariant
            s == input@,
            phnum == spec_phnum(s),
            all_raws@.len() == phnum,
            phdr_models(all_raws@) == spec_phdrs(s),
            elf_tables_fit(s),
            parse_elf_defined(s, arch),
            has_elf_magic(s),
            k <= phnum,
            segments@.len() == k,
            forall|j: int|
                0 <= j < k ==> #[trigger] segment_of(segments@[j], spec_phdrs(s)[j], spec_phdrs(s)),
        decreases phnum - k,
    {
        assert(classify_defined(spec_phdrs(s)[k as int], spec_phdrs(s)));
        segments.push(ProgramSegment::from_raw(&all_raws[k], all_raws));
        k = k + 1;
    }
    Ok(ElfFile { type_, entrypoint, shoff, segments })
}

} // verus!
