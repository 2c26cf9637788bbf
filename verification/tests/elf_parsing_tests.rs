use aether::elf_parsing::{
    parse_elf_file, ElfParseError, ElfType, ProgramSegment, ProgramSegmentFlags, RelativeRelocation,
    TargetArch,
};

fn put_u16(v: &mut Vec<u8>, at: usize, x: u16) {
    v[at..at + 2].copy_from_slice(&x.to_le_bytes());
}

fn put_u32(v: &mut Vec<u8>, at: usize, x: u32) {
    v[at..at + 4].copy_from_slice(&x.to_le_bytes());
}

fn put_u64(v: &mut Vec<u8>, at: usize, x: u64) {
    v[at..at + 8].copy_from_slice(&x.to_le_bytes());
}

fn header(v: &mut Vec<u8>, e_type: u16, machine: u16, entry: u64, phoff: u64, phnum: u16) {
    v[0..4].copy_from_slice(b"\x7FELF");
    v[4] = 2;
    v[5] = 1;
    v[6] = 1;
    put_u16(v, 16, e_type);
    put_u16(v, 18, machine);
    put_u32(v, 20, 1);
    put_u64(v, 24, entry);
    put_u64(v, 32, phoff);
    put_u64(v, 40, 0x7788);
    put_u16(v, 52, 64);
    put_u16(v, 54, 56);
    put_u16(v, 56, phnum);
}

#[allow(clippy::too_many_arguments)]
fn phdr(
    v: &mut Vec<u8>,
    at: usize,
    p_type: u32,
    flags: u32,
    offset: u64,
    vaddr: u64,
    filesz: u64,
    memsz: u64,
    align: u64,
) {
    put_u32(v, at, p_type);
    put_u32(v, at + 4, flags);
    put_u64(v, at + 8, offset);
    put_u64(v, at + 16, vaddr);
    put_u64(v, at + 24, vaddr + 0x10);
    put_u64(v, at + 32, filesz);
    put_u64(v, at + 40, memsz);
    put_u64(v, at + 48, align);
}

/// A position-independent program with a loadable segment, a dynamic
/// segment naming three relocations stored inside the loadable segment, and a note.
fn sample_shared_object(machine: u16) -> Vec<u8> {
    let mut v = vec![0u8; 0x400];
    header(&mut v, 3, machine, 0x1234, 64, 3);
    phdr(&mut v, 64, 1, 5, 0x200, 0x1000, 0x100, 0x2000, 0x1000);
    phdr(&mut v, 64 + 56, 2, 6, 0x300, 0x2000, 0x40, 0x40, 8);
    phdr(&mut v, 64 + 112, 4, 4, 0x380, 0x5000, 8, 8, 4);
    for i in 0..0x100 {
        v[0x200 + i] = i as u8;
    }
    // Relocation table at vaddr 0x1040, that is file offset 0x240.
    put_u64(&mut v, 0x240, 0x3000);
    put_u64(&mut v, 0x248, 8);
    put_u64(&mut v, 0x250, 0x10);
    put_u64(&mut v, 0x258, 0x3008);
    put_u64(&mut v, 0x260, 7);
    put_u64(&mut v, 0x268, 5);
    put_u64(&mut v, 0x270, 0x3010);
    put_u64(&mut v, 0x278, (1u64 << 32) | 1027);
    put_u64(&mut v, 0x280, (-8i64) as u64);
    // Dynamic table.
    put_u64(&mut v, 0x300, 7);
    put_u64(&mut v, 0x308, 0x1040);
    put_u64(&mut v, 0x310, 8);
    put_u64(&mut v, 0x318, 72);
    put_u64(&mut v, 0x320, 9);
    put_u64(&mut v, 0x328, 24);
    put_u64(&mut v, 0x330, 0);
    put_u64(&mut v, 0x338, 0);
    v
}

#[test]
fn parses_shared_object_segments() {
    let data = sample_shared_object(0x3E);
    let elf = parse_elf_file(&data, TargetArch::X86_64).unwrap();
    assert_eq!(elf.type_, ElfType::SharedObject);
    assert_eq!(elf.entrypoint, 0x1234);
    assert_eq!(elf.shoff, 0x7788);
    assert_eq!(elf.segments.len(), 3);
    match &elf.segments[0] {
        ProgramSegment::Load(l) => {
            assert_eq!(l.flags, ProgramSegmentFlags(5));
            assert_eq!(l.vaddr, 0x1000);
            assert_eq!(l.paddr, 0x1010);
            assert_eq!(l.memsz, 0x2000);
            assert_eq!(l.align, 0x1000);
            assert_eq!(l.data, &data[0x200..0x300]);
        }
        _ => panic!("expected a loadable segment"),
    }
    match &elf.segments[1] {
        ProgramSegment::Dynamic(d) => {
            assert_eq!(d.vaddr, 0x2000);
            assert_eq!(
                d.relocations,
                vec![
                    RelativeRelocation { offset: 0x3000, addend: 0x10 },
                    RelativeRelocation { offset: 0x3010, addend: -8 },
                ]
            );
        }
        _ => panic!("expected a dynamic segment"),
    }
    match &elf.segments[2] {
        ProgramSegment::Unknown(u) => {
            assert_eq!(u.type_val, 4);
            assert_eq!(u.flags, ProgramSegmentFlags(4));
            assert_eq!(u.vaddr, 0x5000);
            assert_eq!(u.memsz, 8);
            assert_eq!(u.align, 4);
            assert_eq!(u.raw_data, &data[0x380..0x388]);
        }
        _ => panic!("expected an unknown segment"),
    }
}

#[test]
fn segment_accessors() {
    let data = sample_shared_object(0x3E);
    let elf = parse_elf_file(&data, TargetArch::X86_64).unwrap();
    assert_eq!(elf.segments[0].vaddr(), 0x1000);
    assert_eq!(elf.segments[0].memsz(), 0x2000);
    assert_eq!(elf.segments[0].flags(), ProgramSegmentFlags(5));
    // A dynamic segment takes no memory of its own and reads as readable and writable.
    assert_eq!(elf.segments[1].vaddr(), 0x2000);
    assert_eq!(elf.segments[1].memsz(), 0);
    assert_eq!(elf.segments[1].flags(), ProgramSegmentFlags(6));
    assert_eq!(elf.segments[2].vaddr(), 0x5000);
    assert_eq!(elf.segments[2].memsz(), 8);
    assert_eq!(elf.segments[2].flags(), ProgramSegmentFlags(4));
}

#[test]
fn parses_for_aarch64() {
    let data = sample_shared_object(0xB7);
    let elf = parse_elf_file(&data, TargetArch::Aarch64).unwrap();
    assert_eq!(elf.segments.len(), 3);
    assert_eq!(TargetArch::Aarch64.machine(), 0xB7);
    assert_eq!(TargetArch::X86_64.machine(), 0x3E);
}

#[test]
fn executable_type_and_other_type() {
    let mut data = sample_shared_object(0x3E);
    put_u16(&mut data, 16, 2);
    assert_eq!(parse_elf_file(&data, TargetArch::X86_64).unwrap().type_, ElfType::Executable);
    put_u16(&mut data, 16, 4);
    assert_eq!(parse_elf_file(&data, TargetArch::X86_64).unwrap().type_, ElfType::Other(4));
}

#[test]
fn relocations_need_a_long_enough_entry_size() {
    let mut data = sample_shared_object(0x3E);
    put_u64(&mut data, 0x328, 16);
    let elf = parse_elf_file(&data, TargetArch::X86_64).unwrap();
    match &elf.segments[1] {
        ProgramSegment::Dynamic(d) => assert!(d.relocations.is_empty()),
        _ => panic!("expected a dynamic segment"),
    }
}

#[test]
fn relocation_table_outside_loaded_data_is_ignored() {
    let mut data = sample_shared_object(0x3E);
    // The table now runs past the end of the segment's file data.
    put_u64(&mut data, 0x318, 0x200);
    let elf = parse_elf_file(&data, TargetArch::X86_64).unwrap();
    match &elf.segments[1] {
        ProgramSegment::Dynamic(d) => assert!(d.relocations.is_empty()),
        _ => panic!("expected a dynamic segment"),
    }
}

#[test]
fn null_entry_ends_the_dynamic_table() {
    let mut data = sample_shared_object(0x3E);
    // DT_NULL first: nothing after it is read.
    put_u64(&mut data, 0x300, 0);
    let elf = parse_elf_file(&data, TargetArch::X86_64).unwrap();
    match &elf.segments[1] {
        ProgramSegment::Dynamic(d) => assert!(d.relocations.is_empty()),
        _ => panic!("expected a dynamic segment"),
    }
}

#[test]
fn rejects_bad_magic() {
    let mut data = sample_shared_object(0x3E);
    data[3] = b'G';
    assert!(matches!(
        parse_elf_file(&data, TargetArch::X86_64),
        Err(ElfParseError::InvalidMagic)
    ));
    assert!(matches!(parse_elf_file(&[], TargetArch::X86_64), Err(ElfParseError::InvalidMagic)));
    assert!(matches!(
        parse_elf_file(b"\x7FEL", TargetArch::X86_64),
        Err(ElfParseError::InvalidMagic)
    ));
}

#[test]
fn rejects_truncated_files() {
    let data = sample_shared_object(0x3E);
    assert!(matches!(
        parse_elf_file(&data[..10], TargetArch::X86_64),
        Err(ElfParseError::Truncated)
    ));
    assert!(matches!(
        parse_elf_file(&data[..63], TargetArch::X86_64),
        Err(ElfParseError::Truncated)
    ));
    // The header is whole but the program header table is cut short.
    let short = &data[..64 + 30];
    assert!(matches!(parse_elf_file(short, TargetArch::X86_64), Err(ElfParseError::Truncated)));
}

#[test]
fn segment_flags() {
    let rx = ProgramSegmentFlags::from_bits_truncate(5);
    assert_eq!(rx, ProgramSegmentFlags(5));
    assert!(rx.contains(ProgramSegmentFlags::executable()));
    assert!(rx.contains(ProgramSegmentFlags::readable()));
    assert!(!rx.contains(ProgramSegmentFlags::writable()));
    assert!(rx.contains(ProgramSegmentFlags(0)));
    let rw = ProgramSegmentFlags::readable().bitor(ProgramSegmentFlags::writable());
    assert_eq!(rw, ProgramSegmentFlags(6));
    assert_eq!(ProgramSegmentFlags::from_bits_truncate(0xF0), ProgramSegmentFlags(0xF0));
}
