use aether::elf::{Elf, Elf64_Ehdr, Elf64_Phdr, FilePageLoad, ELFDATA2LSB, EI_DATA};
use aether::elf_loading::{
    elf_flags_to_vmm_flags, load_base_address, page_copy_window, plan_elf_load, relocation_patch,
    relocation_patches, resolve_relocation_patches, patch_write, patches_mapped_check, LoadedPages, PageCopy, PageLoad,
    PatchWrite, RelocationPatch, VirtualMemoryMappingFlags, PIE_BASE_ADDRESS,
};
use aether::elf_parsing::{
    parse_elf_file, ElfParseError, ElfType, ProgramSegmentFlags, RelativeRelocation, TargetArch,
};
use aether::init_loading::{
    early_stack_request, elf_flags_to_sys_prot, plan_program_mappings, spawned_stack_top,
    stack_top, SegmentMapping, SysProt,
};
use aether::kernel_elf_parsing::{self, PhdrType};

fn put_u16(v: &mut Vec<u8>, at: usize, x: u16) {
    v[at..at + 2].copy_from_slice(&x.to_le_bytes());
}

fn put_u32(v: &mut Vec<u8>, at: usize, x: u32) {
    v[at..at + 4].copy_from_slice(&x.to_le_bytes());
}

fn put_u64(v: &mut Vec<u8>, at: usize, x: u64) {
    v[at..at + 8].copy_from_slice(&x.to_le_bytes());
}

#[allow(clippy::too_many_arguments)]
fn phdr(v: &mut Vec<u8>, at: usize, p_type: u32, flags: u32, offset: u64, vaddr: u64, filesz: u64, memsz: u64) {
    put_u32(v, at, p_type);
    put_u32(v, at + 4, flags);
    put_u64(v, at + 8, offset);
    put_u64(v, at + 16, vaddr);
    put_u64(v, at + 24, vaddr);
    put_u64(v, at + 32, filesz);
    put_u64(v, at + 40, memsz);
    put_u64(v, at + 48, 0x1000);
}

/// A program with a read-execute loadable segment (one page of file data,
/// two pages of memory), a dynamic segment with two relocations and a note.
fn sample_program(e_type: u16) -> Vec<u8> {
    let mut v = vec![0u8; 0x400];
    v[0..4].copy_from_slice(b"\x7FELF");
    v[4] = 2;
    v[5] = 1;
    v[6] = 1;
    put_u16(&mut v, 16, e_type);
    put_u16(&mut v, 18, 0x3E);
    put_u32(&mut v, 20, 1);
    put_u64(&mut v, 24, 0x1234);
    put_u64(&mut v, 32, 64);
    put_u64(&mut v, 40, 0x5000);
    put_u16(&mut v, 52, 64);
    put_u16(&mut v, 54, 56);
    put_u16(&mut v, 56, 3);
    phdr(&mut v, 64, 1, 5, 0x200, 0x1000, 0x100, 0x2000);
    phdr(&mut v, 120, 2, 6, 0x300, 0x2000, 0x40, 0x40);
    phdr(&mut v, 176, 4, 4, 0x380, 0x5000, 8, 8);
    put_u64(&mut v, 0x240, 0x3000);
    put_u64(&mut v, 0x248, 8);
    put_u64(&mut v, 0x250, 0x10);
    put_u64(&mut v, 0x258, 0x3010);
    put_u64(&mut v, 0x260, 8);
    put_u64(&mut v, 0x268, (-8i64) as u64);
    put_u64(&mut v, 0x300, 7);
    put_u64(&mut v, 0x308, 0x1040);
    put_u64(&mut v, 0x310, 8);
    put_u64(&mut v, 0x318, 48);
    put_u64(&mut v, 0x320, 9);
    put_u64(&mut v, 0x328, 24);
    v
}

#[test]
fn kernel_parser_lists_program_headers() {
    let data = sample_program(2);
    let elf = kernel_elf_parsing::parse_elf_file(&data, TargetArch::X86_64).unwrap();
    assert_eq!(elf.entrypoint, 0x1234);
    assert_eq!(elf.shoff, 0x5000);
    assert_eq!(elf.phdrs.len(), 3);
    assert_eq!(elf.phdrs[0].type_, PhdrType::Load);
    assert_eq!(elf.phdrs[0].flags, 5);
    assert_eq!(elf.phdrs[0].vaddr, 0x1000);
    assert_eq!(elf.phdrs[0].paddr, 0x1000);
    assert_eq!(elf.phdrs[0].memsz, 0x2000);
    assert_eq!(elf.phdrs[0].align, 0x1000);
    assert_eq!(elf.phdrs[0].data, &data[0x200..0x300]);
    assert_eq!(elf.phdrs[1].type_, PhdrType::Other(2));
    assert_eq!(elf.phdrs[2].type_, PhdrType::Other(4));
    assert_eq!(elf.phdrs[2].data, &data[0x380..0x388]);
}

#[test]
fn kernel_parser_errors() {
    let data = sample_program(2);
    assert!(matches!(
        kernel_elf_parsing::parse_elf_file(&data[1..], TargetArch::X86_64),
        Err(ElfParseError::InvalidMagic)
    ));
    assert!(matches!(
        kernel_elf_parsing::parse_elf_file(&data[..100], TargetArch::X86_64),
        Err(ElfParseError::Truncated)
    ));
}

#[test]
fn reads_headers_in_place() {
    let data = sample_program(2);
    let h = Elf64_Ehdr::read(&data);
    assert_eq!(&h.e_ident[0..4], b"\x7FELF");
    assert_eq!(h.e_ident[EI_DATA], ELFDATA2LSB);
    assert_eq!(h.e_type, 2);
    assert_eq!(h.e_machine, 0x3E);
    assert_eq!(h.e_entry, 0x1234);
    assert_eq!(h.e_phoff, 64);
    assert_eq!(h.e_shoff, 0x5000);
    assert_eq!(h.e_phentsize, 56);
    assert_eq!(h.e_phnum, 3);
    let p = Elf64_Phdr::read(&data, 64);
    assert_eq!(p.p_type, 1);
    assert_eq!(p.p_flags, 5);
    assert_eq!(p.p_offset, 0x200);
    assert_eq!(p.p_vaddr, 0x1000);
    assert_eq!(p.p_filesz, 0x100);
    assert_eq!(p.p_memsz, 0x2000);
    assert_eq!(p.p_align, 0x1000);
}

#[test]
fn plans_image_pages_from_the_file() {
    let data = sample_program(2);
    let elf = Elf::init(0xFFFF_8000_0000_0000);
    assert_eq!(elf.hhdm_offset(), 0xFFFF_8000_0000_0000);
    let plan = elf.plan_load(&data, TargetArch::X86_64).unwrap();
    assert_eq!(plan.entrypoint, 0x1234);
    let rx = VirtualMemoryMappingFlags { present: true, user: true, write: false, execute: true };
    assert_eq!(
        plan.pages,
        vec![
            FilePageLoad {
                page_vaddr: 0x1000,
                flags: rx,
                copy: Some(PageCopy { dest_offset: 0, src_offset: 0x200, len: 0x100 }),
            },
            FilePageLoad { page_vaddr: 0x2000, flags: rx, copy: None },
        ]
    );
}

#[test]
fn writable_segment_pages_are_not_executable() {
    let mut data = sample_program(2);
    put_u32(&mut data, 68, 7);
    let plan = Elf::init(0).plan_load(&data, TargetArch::X86_64).unwrap();
    assert_eq!(
        plan.pages[0].flags,
        VirtualMemoryMappingFlags { present: true, user: true, write: true, execute: false }
    );
}

#[test]
fn image_of_another_machine_or_endianness_is_refused() {
    let data = sample_program(2);
    assert!(Elf::init(0).plan_load(&data, TargetArch::Aarch64).is_none());
    let mut big_endian = data.clone();
    big_endian[EI_DATA] = 2;
    assert!(Elf::init(0).plan_load(&big_endian, TargetArch::X86_64).is_none());
}

#[test]
fn plans_shared_object_at_pie_base() {
    let data = sample_program(3);
    let elf = parse_elf_file(&data, TargetArch::X86_64).unwrap();
    let plan = plan_elf_load(&elf);
    assert_eq!(plan.base_vaddr, PIE_BASE_ADDRESS);
    assert_eq!(plan.entrypoint, 0x1234 + 0x5555_0000);
    let rx = VirtualMemoryMappingFlags { present: true, user: true, write: false, execute: true };
    assert_eq!(
        plan.pages,
        vec![
            PageLoad {
                segment: 0,
                page_vaddr: 0x5555_1000,
                flags: rx,
                copy: Some(PageCopy { dest_offset: 0, src_offset: 0, len: 0x100 }),
            },
            PageLoad { segment: 0, page_vaddr: 0x5555_2000, flags: rx, copy: None },
        ]
    );
    let patches = relocation_patches(&elf, plan.base_vaddr);
    assert_eq!(
        patches,
        vec![
            RelocationPatch { page_vaddr: 0x5555_3000, page_offset: 0, value: 0x5555_0010 },
            RelocationPatch { page_vaddr: 0x5555_3000, page_offset: 0x10, value: 0x5554_FFF8 },
        ]
    );
}

#[test]
fn executables_load_at_their_own_addresses() {
    let data = sample_program(2);
    let elf = parse_elf_file(&data, TargetArch::X86_64).unwrap();
    let plan = plan_elf_load(&elf);
    assert_eq!(plan.base_vaddr, 0);
    assert_eq!(plan.entrypoint, 0x1234);
    assert_eq!(plan.pages[0].page_vaddr, 0x1000);
    assert_eq!(load_base_address(ElfType::Executable), 0);
    assert_eq!(load_base_address(ElfType::SharedObject), 0x5555_0000);
}

#[test]
fn page_windows() {
    assert_eq!(
        page_copy_window(0x2000, 0x1800, 0x1000),
        Some(PageCopy { dest_offset: 0, src_offset: 0x800, len: 0x800 })
    );
    assert_eq!(
        page_copy_window(0x1000, 0x1800, 0x1000),
        Some(PageCopy { dest_offset: 0x800, src_offset: 0, len: 0x800 })
    );
    assert_eq!(page_copy_window(0x3000, 0x1800, 0x1000), None);
    assert_eq!(page_copy_window(0x1000, 0x1800, 0), None);
}

#[test]
fn relocation_patch_values() {
    let patch = relocation_patch(0x40_0000, &RelativeRelocation { offset: 0x1FF8, addend: 0x123 });
    assert_eq!(patch, RelocationPatch { page_vaddr: 0x40_1000, page_offset: 0xFF8, value: 0x40_0123 });
    let patch = relocation_patch(0x1000, &RelativeRelocation { offset: 0, addend: -0x1000 });
    assert_eq!(patch, RelocationPatch { page_vaddr: 0x1000, page_offset: 0, value: 0 });
}

#[test]
fn mapping_flags_follow_segment_flags() {
    assert_eq!(
        elf_flags_to_vmm_flags(ProgramSegmentFlags(6)),
        VirtualMemoryMappingFlags { present: true, user: true, write: true, execute: false }
    );
    assert_eq!(
        elf_flags_to_vmm_flags(ProgramSegmentFlags(7)),
        VirtualMemoryMappingFlags { present: true, user: true, write: true, execute: true }
    );
    assert_eq!(
        elf_flags_to_vmm_flags(ProgramSegmentFlags(4)),
        VirtualMemoryMappingFlags { present: true, user: true, write: false, execute: false }
    );
}

#[test]
fn loaded_pages_remember_frames() {
    let mut pages = LoadedPages::new();
    assert_eq!(pages.frame_of(0x1000), None);
    pages.record(0x1000, 0xAA000);
    pages.record(0x2000, 0xBB000);
    pages.record(0x1000, 0xCC000);
    assert_eq!(pages.frame_of(0x1000), Some(0xCC000));
    assert_eq!(pages.frame_of(0x2000), Some(0xBB000));
    assert_eq!(pages.frame_of(0x3000), None);
}

#[test]
fn relocation_patches_write_into_the_frames_of_their_pages() {
    let mut pages = LoadedPages::new();
    pages.record(0x5555_3000, 0xAB000);
    pages.record(0x5555_4000, 0xCD000);
    let first = RelocationPatch { page_vaddr: 0x5555_3000, page_offset: 0x10, value: 0x5555_0010 };
    let second = RelocationPatch { page_vaddr: 0x5555_4000, page_offset: 0xFF8, value: 7 };
    assert_eq!(
        patch_write(&pages, &first),
        Some(PatchWrite { frame: 0xAB000, page_offset: 0x10, value: 0x5555_0010 })
    );
    assert!(patches_mapped_check(&pages, &[first, second]));
    assert_eq!(
        resolve_relocation_patches(&pages, &[first, second]),
        vec![
            PatchWrite { frame: 0xAB000, page_offset: 0x10, value: 0x5555_0010 },
            PatchWrite { frame: 0xCD000, page_offset: 0xFF8, value: 7 },
        ]
    );
    assert!(patches_mapped_check(&pages, &[]));
    assert_eq!(resolve_relocation_patches(&pages, &[]), vec![]);
}

#[test]
fn relocations_into_loaded_segments_resolve() {
    let mut data = sample_program(3);
    // Point both relocations into the loadable segment's memory.
    put_u64(&mut data, 0x240, 0x1010);
    put_u64(&mut data, 0x258, 0x2008);
    let elf = parse_elf_file(&data, TargetArch::X86_64).unwrap();
    let plan = plan_elf_load(&elf);
    let mut pages = LoadedPages::new();
    let mut frame = 0x10_0000;
    for page in &plan.pages {
        pages.record(page.page_vaddr, frame);
        frame += 0x1000;
    }
    let patches = relocation_patches(&elf, plan.base_vaddr);
    assert!(patches_mapped_check(&pages, &patches));
    assert_eq!(
        resolve_relocation_patches(&pages, &patches),
        vec![
            PatchWrite { frame: 0x10_0000, page_offset: 0x10, value: 0x5555_0010 },
            PatchWrite { frame: 0x10_1000, page_offset: 0x8, value: 0x5554_FFF8 },
        ]
    );
    // In the unchanged program the relocations target a page no segment loads.
    let data = sample_program(3);
    let elf = parse_elf_file(&data, TargetArch::X86_64).unwrap();
    let patches = relocation_patches(&elf, plan.base_vaddr);
    assert!(!patches_mapped_check(&pages, &patches));
}

#[test]
fn relocation_into_an_unloaded_page_is_refused() {
    let mut pages = LoadedPages::new();
    pages.record(0x5555_3000, 0xAB000);
    let mapped = RelocationPatch { page_vaddr: 0x5555_3000, page_offset: 0, value: 1 };
    let unmapped = RelocationPatch { page_vaddr: 0x5555_5000, page_offset: 8, value: 2 };
    let later = RelocationPatch { page_vaddr: 0x5555_6000, page_offset: 0, value: 3 };
    assert_eq!(patch_write(&pages, &unmapped), None);
    assert!(!patches_mapped_check(&pages, &[mapped, unmapped, later]));
    assert!(!patches_mapped_check(&pages, &[later]));
    assert!(patches_mapped_check(&pages, &[mapped, mapped]));
}

#[test]
fn init_maps_segments_with_their_protection() {
    assert_eq!(
        elf_flags_to_sys_prot(ProgramSegmentFlags(5)),
        SysProt { read: true, write: false, execute: true }
    );
    assert_eq!(
        elf_flags_to_sys_prot(ProgramSegmentFlags(2)),
        SysProt { read: true, write: true, execute: false }
    );
    let mut data = sample_program(2);
    put_u64(&mut data, 64 + 16, 0x1234);
    let elf = parse_elf_file(&data, TargetArch::X86_64).unwrap();
    assert_eq!(
        plan_program_mappings(&elf),
        vec![SegmentMapping {
            segment: 0,
            page_start: 0x1000,
            page_offset: 0x234,
            map_len: 0x2234,
            prot: SysProt { read: true, write: false, execute: true },
        }]
    );
}

#[test]
fn init_stacks() {
    // The new stack ends a guard page below the page of the current stack pointer.
    assert_eq!(early_stack_request(0x7FFF_FFFF_F123), 0x7FFF_FFFF_F000 - 0x1000 - 0x4000);
    assert_eq!(stack_top(0x10_0000), 0x10_4000);
    assert_eq!(spawned_stack_top(0x7FFF_FFFF_8000), Some(0x7FFF_FFFF_C000));
    assert_eq!(spawned_stack_top(0x3F_F000), None);
    assert_eq!(spawned_stack_top(0x40_0000), Some(0x40_4000));
}
