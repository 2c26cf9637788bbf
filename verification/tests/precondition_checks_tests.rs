use aether::elf::elf_image_defined_check;
use aether::elf_loading::{elf_load_defined_check, relocations_defined_check};
use aether::elf_parsing::{
    parse_elf_defined_check, ElfFile, ElfType, ProgramDynamicSegment, ProgramLoadSegment,
    ProgramSegment, ProgramSegmentFlags, RelativeRelocation, TargetArch,
};
use aether::init_loading::mappings_defined_check;
use aether::kernel_elf_parsing::parse_phdrs_defined_check;

fn put_u16(v: &mut Vec<u8>, at: usize, x: u16) {
    v[at..at + 2].copy_from_slice(&x.to_le_bytes());
}

fn put_u32(v: &mut Vec<u8>, at: usize, x: u32) {
    v[at..at + 4].copy_from_slice(&x.to_le_bytes());
}

fn put_u64(v: &mut Vec<u8>, at: usize, x: u64) {
    v[at..at + 8].copy_from_slice(&x.to_le_bytes());
}

/// A file with one loadable segment and one dynamic segment whose table
/// names a relocation table inside the loadable segment.
fn sample() -> Vec<u8> {
    let mut v = vec![0u8; 0x400];
    v[0..4].copy_from_slice(b"\x7FELF");
    v[4] = 2;
    v[5] = 1;
    put_u16(&mut v, 16, 3);
    put_u16(&mut v, 18, 0x3E);
    put_u64(&mut v, 24, 0x1000);
    put_u64(&mut v, 32, 64);
    put_u16(&mut v, 56, 2);
    // Loadable: file 0x200..0x300 at 0x1000, 0x2000 bytes of memory.
    put_u32(&mut v, 64, 1);
    put_u32(&mut v, 68, 5);
    put_u64(&mut v, 72, 0x200);
    put_u64(&mut v, 80, 0x1000);
    put_u64(&mut v, 96, 0x100);
    put_u64(&mut v, 104, 0x2000);
    // Dynamic: file 0x300..0x340.
    put_u32(&mut v, 120, 2);
    put_u64(&mut v, 128, 0x300);
    put_u64(&mut v, 136, 0x2000);
    put_u64(&mut v, 152, 0x40);
    put_u64(&mut v, 160, 0x40);
    put_u64(&mut v, 0x300, 7);
    put_u64(&mut v, 0x308, 0x1040);
    put_u64(&mut v, 0x310, 8);
    put_u64(&mut v, 0x318, 24);
    put_u64(&mut v, 0x320, 9);
    put_u64(&mut v, 0x328, 24);
    v
}

#[test]
fn parse_checks_accept_a_well_formed_file() {
    let data = sample();
    assert!(parse_elf_defined_check(&data, TargetArch::X86_64));
    assert!(parse_phdrs_defined_check(&data, TargetArch::X86_64));
}

#[test]
fn parse_checks_refuse_another_machine() {
    let data = sample();
    assert!(!parse_elf_defined_check(&data, TargetArch::Aarch64));
    assert!(!parse_phdrs_defined_check(&data, TargetArch::Aarch64));
}

#[test]
fn parse_checks_accept_inputs_that_fail_cleanly() {
    // Without the magic, or too short to hold a machine, parsing just fails.
    assert!(parse_elf_defined_check(b"MZ\x90\x00", TargetArch::X86_64));
    assert!(parse_elf_defined_check(&sample()[..19], TargetArch::X86_64));
    assert!(parse_phdrs_defined_check(&sample()[..40], TargetArch::X86_64));
}

#[test]
fn parse_checks_refuse_a_table_inside_the_header() {
    let mut data = sample();
    put_u64(&mut data, 32, 8);
    assert!(!parse_elf_defined_check(&data, TargetArch::X86_64));
    assert!(!parse_phdrs_defined_check(&data, TargetArch::X86_64));
}

#[test]
fn parse_checks_refuse_segment_data_outside_the_file() {
    let mut data = sample();
    put_u64(&mut data, 96, 0x1000);
    assert!(!parse_elf_defined_check(&data, TargetArch::X86_64));
    assert!(!parse_phdrs_defined_check(&data, TargetArch::X86_64));
}

#[test]
fn parse_check_refuses_an_overflowing_relocation_search() {
    let mut data = sample();
    // The loadable segment's memory range now runs past the top of the address space.
    put_u64(&mut data, 80, u64::MAX - 0x10);
    put_u64(&mut data, 0x308, u64::MAX - 0x8);
    assert!(!parse_elf_defined_check(&data, TargetArch::X86_64));
    // The kernel's parser reads no dynamic section.
    assert!(parse_phdrs_defined_check(&data, TargetArch::X86_64));
}

#[test]
fn image_check() {
    let data = sample();
    assert!(elf_image_defined_check(&data, TargetArch::X86_64));
    assert!(!elf_image_defined_check(&data[..60], TargetArch::X86_64));
    // A file for another machine is simply not loaded.
    assert!(elf_image_defined_check(&data, TargetArch::Aarch64));
    let mut beyond = data.clone();
    put_u16(&mut beyond, 56, 40);
    assert!(!elf_image_defined_check(&beyond, TargetArch::X86_64));
    let mut huge = data.clone();
    put_u64(&mut huge, 104, u64::MAX - 0x100);
    assert!(!elf_image_defined_check(&huge, TargetArch::X86_64));
}

fn elf_with(type_: ElfType, vaddr: usize, memsz: usize) -> ElfFile<'static> {
    ElfFile {
        type_,
        entrypoint: 0x1000,
        shoff: 0,
        segments: vec![
            ProgramSegment::Load(ProgramLoadSegment {
                flags: ProgramSegmentFlags(5),
                vaddr,
                paddr: vaddr,
                memsz,
                align: 0x1000,
                data: &[1, 2, 3],
            }),
            ProgramSegment::Dynamic(ProgramDynamicSegment {
                vaddr: 0x3000,
                relocations: vec![RelativeRelocation { offset: 0x2000, addend: 8 }],
            }),
        ],
    }
}

#[test]
fn load_checks() {
    assert!(elf_load_defined_check(&elf_with(ElfType::Executable, 0x1000, 0x2000)));
    assert!(elf_load_defined_check(&elf_with(ElfType::SharedObject, 0x1000, 0x2000)));
    assert!(!elf_load_defined_check(&elf_with(ElfType::Other(1), 0x1000, 0x2000)));
    assert!(!elf_load_defined_check(&elf_with(ElfType::Executable, usize::MAX - 0x1000, 0x2000)));
    let elf = elf_with(ElfType::SharedObject, 0x1000, 0x2000);
    assert!(relocations_defined_check(&elf, 0x5555_0000));
    assert!(!relocations_defined_check(&elf, usize::MAX - 0x1000));
    assert!(mappings_defined_check(&elf));
    assert!(!mappings_defined_check(&elf_with(ElfType::Executable, 0x1234, usize::MAX - 0x100)));
}
