//! The kernel's program header parser: an ELF file as its entry point and the
//! list of its program headers, each with the file bytes it covers.
use vstd::prelude::*;
use vstd::slice::slice_subrange;
use crate::bytes::{le_u16, le_u32, le_u64, read_u16_le, read_u32_le, read_u64_le};
use crate::elf_parsing::{
    ElfParseError, TargetArch, ELF_HEADER_SIZE, PHDR_SIZE, PhdrModel, has_elf_magic,
    spec_phoff, spec_phnum, elf_tables_fit, phdr_data_in_file, spec_phdr_at, spec_phdrs,
    parse_ident, has_elf_magic_check, present_phdrs_in_file_check,
};

verus! {

pub struct ElfFile<'data> {
    pub entrypoint: usize,
    /// The section header table's file offset, as read from the header.
    pub shoff: usize,
    pub phdrs: Vec<ElfPhdr<'data>>,
}

pub struct ElfPhdr<'data> {
    pub type_: PhdrType,
    pub flags: u32,
    pub vaddr: usize,
    pub paddr: usize,
    pub memsz: usize,
    pub align: usize,
    pub data: &'data [u8],
}

#[derive(Debug, Clone, Copy, PartialEq, Eq, Structural)]
pub enum PhdrType {
    Load,
    Other(u32),
}

pub open spec fn spec_phdr_type(v: u32) -> PhdrType {
    if v == 1 {
        PhdrType::Load
    } else {
        PhdrType::Other(v)
    }
}

/// A program header's type is loadable exactly when its type field is 1
/// (`PT_LOAD`); any other value is kept as it is.
pub proof fn lemma_phdr_type_codes(v: u32)
    ensures
        spec_phdr_type(v) is Load <==> v == 1,
        spec_phdr_type(v) matches PhdrType::Other(w) ==> w == v && v != 1,
{
}

/// `ph` holds the fields of the program header table entry `m`.
pub open spec fn phdr_matches(ph: ElfPhdr, m: PhdrModel) -> bool {
    &&& ph.type_ == spec_phdr_type(m.type_val)
    &&& ph.flags == m.flags
    &&& ph.vaddr == m.vaddr
    &&& ph.paddr == m.paddr
    &&& ph.memsz == m.memsz
    &&& ph.align == m.align
    &&& ph.data@ == m.data
}

/// The inputs on which parsing completes without a failed check: a file with
/// the ELF magic and a machine field names `arch`'s machine, its program header
/// table starts after the file header, and the entries that are present name
/// bytes inside the file.
pub open spec fn parse_phdrs_defined(s: Seq<u8>, arch: TargetArch) -> bool {
    has_elf_magic(s) && s.len() >= 20 ==> {
        &&& le_u16(s, 18) == arch.spec_machine()
        &&& s.len() >= ELF_HEADER_SIZE ==> {
            &&& spec_phoff(s) >= ELF_HEADER_SIZE
            &&& forall|i: int|
                0 <= i < spec_phnum(s) && spec_phoff(s) + PHDR_SIZE * (i + 1) <= s.len()
                    ==> #[trigger] phdr_data_in_file(s, spec_phoff(s) + PHDR_SIZE * i)
        }
    }
}

/// Whether `input` can be parsed for `arch` without a failed check, as
/// `parse_elf_file` needs.
pub fn parse_phdrs_defined_check(input: &[u8], arch: TargetArch) -> (r: bool)
    ensures
        r == parse_phdrs_defined(input@, arch),
{
    if !has_elf_magic_check(input) || input.len() < 20 {
        return true;
    }
    if read_u16_le(input, 18) != arch.machine() {
        return false;
    }
    if input.len() < ELF_HEADER_SIZE {
        return true;
    }
    #[verifier::truncate]
    let phoff = read_u64_le(input, 32) as usize;
    if phoff < ELF_HEADER_SIZE {
        return false;
    }
    present_phdrs_in_file_check(input)
}

/// Reads the program header table entry at byte position `pos`.
fn parse_phdr<'data>(start_input: &'data [u8], pos: usize) -> (r: ElfPhdr<'data>)
    requires
        pos + PHDR_SIZE <= start_input.len(),
        phdr_data_in_file(start_input@, pos as int),
    ensures
        phdr_matches(r, spec_phdr_at(start_input@, pos as int)),
{
    let type_val = read_u32_le(start_input, pos);
    let type_ = if type_val == 1 {
        PhdrType::Load
    } else {
        PhdrType::Other(type_val)
    };
    let flags = read_u32_le(start_input, pos + 4);
    let offset = read_u64_le(start_input, pos + 8) as usize;
    let vaddr = read_u64_le(start_input, pos + 16) as usize;
    let paddr = read_u64_le(start_input, pos + 24) as usize;
    let filesz = read_u64_le(start_input, pos + 32) as usize;
    let memsz = read_u64_le(start_input, pos + 40) as usize;
    let align = read_u64_le(start_input, pos + 48) as usize;
    ElfPhdr {
        type_,
        flags,
        vaddr,
        paddr,
        memsz,
        align,
        data: slice_subrange(start_input, offset, offset + filesz),
    }
}

/// Parses an ELF file for `arch` into its entry point and program headers.
pub fn parse_elf_file<'data>(input: &'data [u8], arch: TargetArch) -> (r: Result<
    ElfFile<'data>,
    ElfParseError,
>)
    requires
        parse_phdrs_defined(input@, arch),
    ensures
        !has_elf_magic(input@) ==> r matches Err(ElfParseError::InvalidMagic),
        has_elf_magic(input@) && !elf_tables_fit(input@) ==> r matches Err(ElfParseError::Truncated),
        has_elf_magic(input@) && elf_tables_fit(input@) ==> (r matches Ok(elf) && {
            &&& elf.entrypoint == le_u64(input@, 24) as usize
            &&& elf.shoff == le_u64(input@, 40) as usize
            &&& elf.phdrs@.len() == spec_phnum(input@)
            &&& forall|i: int|
                0 <= i < spec_phnum(input@) ==> #[trigger] phdr_matches(
                    elf.phdrs@[i],
                    spec_phdrs(input@)[i],
                )
        }),
{
    let ghost s = input@;
    parse_ident(input)?;
    if input.len() < ELF_HEADER_SIZE {
        return Err(ElfParseError::Truncated);
    }
    let machine = read_u16_le(input, 18);
    assert(machine == arch.spec_machine());
    let entrypoint = read_u64_le(input, 24) as usize;
    let phoff = read_u64_le(input, 32) as usize;
    let shoff = read_u64_le(input, 40) as usize;
    let phnum = read_u16_le(input, 56) as usize;
    let table_len = PHDR_SIZE * phnum;
    if phoff > input.len() || input.len() - phoff < table_len {
        return Err(ElfParseError::Truncated);
    }
    let mut phdrs: Vec<ElfPhdr<'data>> = Vec::new();
    let mut i: usize = 0;
    while i < phnum
        invariant
            s == input@,
            phoff == spec_phoff(s),
            phnum == spec_phnum(s),
            phoff + PHDR_SIZE * phnum <= input.len(),
            parse_phdrs_defined(s, arch),
            elf_tables_fit(s),
            has_elf_magic(s),
            i <= phnum,
            phdrs@.len() == i,
            forall|j: int| 0 <= j < i ==> #[trigger] phdr_matches(phdrs@[j], spec_phdrs(s)[j]),
        decreases phnum - i,
    {
        let pos = phoff + PHDR_SIZE * i;
        assert(phdr_data_in_file(s, spec_phoff(s) + PHDR_SIZE * i));
        phdrs.push(parse_phdr(input, pos));
        i = i + 1;
    }
    Ok(ElfFile { entrypoint, shoff, phdrs })
}

} // verus!
