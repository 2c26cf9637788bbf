//! Where the first user process, init, finds its program and how its
//! address space is laid out: the initial ramdisk copied page by page, the
//! boot-information page and the stack.
use vstd::prelude::*;
use crate::boot::bytes_equal;
use crate::bytes::le_u64;
use crate::elf_loading::VirtualMemoryMappingFlags;

verus! {

/// Where the initial ramdisk is mapped in init's address space.
pub const INITRD_VADDR: u64 = 0x2FFF_FFF0_0000;

/// Where init finds its boot information.
pub const BOOT_INFO_VADDR: u64 = 0x7FFF_FFE0_0000;

/// The top of init's stack; the stack grows down from here.
pub const INIT_STACK_TOP_VADDR: u64 = 0x7FFF_FFFF_F000;

/// How many pages init's stack spans.
pub const INIT_STACK_PAGES: usize = 4;

/// Size of a page of init's address space.
pub const USER_PAGE_SIZE: usize = 4096;

/// How init's ramdisk, boot-information and stack pages are mapped: present,
/// user-accessible and writable, not executable.
pub open spec fn spec_init_data_flags() -> VirtualMemoryMappingFlags {
    VirtualMemoryMappingFlags { present: true, user: true, write: true, execute: false }
}

/// The mapping of init's ramdisk, boot-information and stack pages.
pub fn init_data_flags() -> (r: VirtualMemoryMappingFlags)
    ensures
        r == spec_init_data_flags(),
{
    VirtualMemoryMappingFlags { present: true, user: true, write: true, execute: false }
}

/// A page of init's address space and how it is mapped.
#[derive(Debug, Clone, Copy, PartialEq, Eq, Structural)]
pub struct UserPage {
    pub vaddr: u64,
    pub flags: VirtualMemoryMappingFlags,
}

/// The name of init's file in the ramdisk: what follows the first `/` of the
/// configured program path, or the whole path when it has no `/`.
pub open spec fn spec_init_file_name(path: Seq<u8>) -> Seq<u8> {
    if exists|i: int| 0 <= i < path.len() && path[i] == 0x2Fu8 {
        let i = choose|i: int|
            0 <= i < path.len() && path[i] == 0x2Fu8 && forall|j: int| 0 <= j < i ==> path[j] != 0x2Fu8;
        path.subrange(i + 1, path.len() as int)
    } else {
        path
    }
}

/// Strips the configured program path down to the name under which the
/// ramdisk holds it (`/bin/init` is looked up as `bin/init`).
pub fn init_file_name(path: &[u8]) -> (r: Vec<u8>)
    ensures
        r@ == spec_init_file_name(path@),
{
    let mut i: usize = 0;
    while i < path.len()
        invariant
            i <= path@.len(),
            forall|j: int| 0 <= j < i ==> path@[j] != 0x2Fu8,
        decreases path@.len() - i,
    {
        if path[i] == 0x2Fu8 {
            let mut name: Vec<u8> = Vec::new();
            let mut k: usize = i + 1;
            while k < path.len()
                invariant
                    i < k <= path@.len(),
                    name@ == path@.subrange(i + 1, k as int),
                decreases path@.len() - k,
            {
                name.push(path[k]);
                k = k + 1;
                assert(name@ =~= path@.subrange(i + 1, k as int));
            }
            proof {
                let c = choose|c: int|
                    0 <= c < path@.len() && path@[c] == 0x2Fu8 && forall|j: int|
                        0 <= j < c ==> path@[j] != 0x2Fu8;
                assert(0 <= i < path@.len() && path@[i as int] == 0x2Fu8);
                if c < i {
                    assert(path@[c] != 0x2Fu8);
                } else if c > i {
                    assert(path@[i as int] != 0x2Fu8);
                }
            }
            return name;
        }
        i = i + 1;
    }
    let mut all: Vec<u8> = Vec::new();
    let mut k: usize = 0;
    while k < path.len()
        invariant
            k <= path@.len(),
            all@ == path@.subrange(0, k as int),
        decreases path@.len() - k,
    {
        all.push(path[k]);
        k = k + 1;
        assert(all@ =~= path@.subrange(0, k as int));
    }
    assert(all@ =~= path@);
    all
}

/// Index of the first ramdisk entry whose name is `name`.
pub open spec fn first_entry_named(names: Seq<Seq<u8>>, name: Seq<u8>, i: int) -> bool {
    &&& 0 <= i < names.len()
    &&& names[i] == name
    &&& forall|j: int| 0 <= j < i ==> names[j] != name
}

/// Finds init's program among the ramdisk's entries: the first entry named
/// after the configured path, as `init_file_name` gives it.
pub fn find_init_program(entry_names: &Vec<Vec<u8>>, init_program_path: &[u8]) -> (r: Option<usize>)
    ensures
        match r {
            Some(i) => first_entry_named(
                entry_names@.map_values(|n: Vec<u8>| n@),
                spec_init_file_name(init_program_path@),
                i as int,
            ),
            None => forall|j: int|
                0 <= j < entry_names@.len() ==> entry_names@[j]@ != spec_init_file_name(
                    init_program_path@,
                ),
        },
{
    let file_name = init_file_name(init_program_path);
    let ghost names = entry_names@.map_values(|n: Vec<u8>| n@);
    let mut i: usize = 0;
    while i < entry_names.len()
        invariant
            i <= entry_names@.len(),
            names == entry_names@.map_values(|n: Vec<u8>| n@),
            file_name@ == spec_init_file_name(init_program_path@),
            forall|j: int| 0 <= j < i ==> entry_names@[j]@ != file_name@,
        decreases entry_names@.len() - i,
    {
        if bytes_equal(entry_names[i].as_slice(), file_name.as_slice()) {
            assert(forall|j: int| 0 <= j < i ==> names[j] == entry_names@[j]@);
            return Some(i);
        }
        i = i + 1;
    }
    None
}

/// Why init cannot be spawned; the kernel stops with the error's message.
#[derive(Debug, Clone, Copy, PartialEq, Eq, Structural)]
pub enum InitSpawnError {
    /// The bootloader passed no module named `initrd`.
    InitrdNotFound,
    /// The ramdisk holds no entry named after the configured program path.
    InitProgramNotFound,
}

impl InitSpawnError {
    pub open spec fn spec_message(self) -> Seq<char> {
        match self {
            InitSpawnError::InitrdNotFound => "Initrd module not found"@,
            InitSpawnError::InitProgramNotFound => "Could not find the init program in initrd tarball!"@,
        }
    }

    /// The message the kernel stops with.
    pub fn message(&self) -> (r: &'static str)
        ensures
            r@ == self.spec_message(),
    {
        match self {
            InitSpawnError::InitrdNotFound => "Initrd module not found",
            InitSpawnError::InitProgramNotFound => "Could not find the init program in initrd tarball!",
        }
    }
}

/// Finds what init is spawned from: the ramdisk module the bootloader passed
/// (`initrd`, as the module lookup found it, if at all) and, among the
/// ramdisk's entries named `entry_names`, init's program, as
/// `find_init_program` finds it. Without a ramdisk, or without such an entry,
/// init cannot be spawned.
pub fn locate_init_program<'a>(
    initrd: Option<&'a [u8]>,
    entry_names: &Vec<Vec<u8>>,
    init_program_path: &[u8],
) -> (r: Result<(&'a [u8], usize), InitSpawnError>)
    ensures
        initrd is None ==> r == Err::<(&'a [u8], usize), InitSpawnError>(
            InitSpawnError::InitrdNotFound,
        ),
        initrd matches Some(d) ==> match r {
            Ok((data, i)) => data == d && first_entry_named(
                entry_names@.map_values(|n: Vec<u8>| n@),
                spec_init_file_name(init_program_path@),
                i as int,
            ),
            Err(e) => e == InitSpawnError::InitProgramNotFound && forall|j: int|
                0 <= j < entry_names@.len() ==> entry_names@[j]@ != spec_init_file_name(
                    init_program_path@,
                ),
        },
{
    match initrd {
        None => Err(InitSpawnError::InitrdNotFound),
        Some(data) => match find_init_program(entry_names, init_program_path) {
            Some(i) => Ok((data, i)),
            None => Err(InitSpawnError::InitProgramNotFound),
        },
    }
}

/// What the scheduler is asked to run as init: a user task that starts at
/// `entrypoint_vaddr` with its stack pointer at `user_stack_vaddr` and `arg`
/// as its argument.
#[derive(Debug, Clone, Copy, PartialEq, Eq, Structural)]
pub struct InitSpawnRequest {
    pub user_stack_vaddr: u64,
    pub entrypoint_vaddr: u64,
    pub arg: u64,
}

/// The request that starts init at its program's entry point: the stack
/// pointer at the top of init's stack and the address of its boot information
/// as the argument.
pub fn init_spawn_request(entrypoint_vaddr: u64) -> (r: InitSpawnRequest)
    ensures
        r == (InitSpawnRequest {
            user_stack_vaddr: INIT_STACK_TOP_VADDR,
            entrypoint_vaddr,
            arg: BOOT_INFO_VADDR,
        }),
{
    InitSpawnRequest { user_stack_vaddr: INIT_STACK_TOP_VADDR, entrypoint_vaddr, arg: BOOT_INFO_VADDR }
}

/// How many pages hold `size` bytes.
pub open spec fn pages_for(size: nat) -> nat {
    (size + 4095) / 4096
}

/// One page of the ramdisk's copy in init's address space: where it is
/// mapped, where its bytes start in the ramdisk and how many there are; the
/// rest of the page is zeroed.
#[derive(Debug, Clone, Copy, PartialEq, Eq, Structural)]
pub struct InitrdPage {
    pub vaddr: u64,
    pub flags: VirtualMemoryMappingFlags,
    pub src_offset: usize,
    pub copy_len: usize,
}

/// The `i`-th page of a ramdisk of `size` bytes.
pub open spec fn spec_initrd_page(size: nat, i: nat) -> InitrdPage {
    let offset = i * 4096;
    InitrdPage {
        vaddr: (INITRD_VADDR + offset) as u64,
        flags: spec_init_data_flags(),
        src_offset: offset as usize,
        copy_len: (if size - offset < 4096 { size - offset } else { 4096 }) as usize,
    }
}

/// The pages that carry a ramdisk of `initrd_size` bytes into init's
/// address space, from `INITRD_VADDR` up, each present, user-accessible and
/// writable; init learns `INITRD_VADDR` and the
/// size through its boot information.
pub fn plan_initrd_pages(initrd_size: usize) -> (r: Vec<InitrdPage>)
    requires
        initrd_size + 4095 <= usize::MAX,
        INITRD_VADDR + initrd_size + 4095 <= u64::MAX,
    ensures
        r@.len() == pages_for(initrd_size as nat),
        forall|i: int| 0 <= i < r@.len() ==> r@[i] == spec_initrd_page(initrd_size as nat, i as nat),
{
    let mut pages: Vec<InitrdPage> = Vec::new();
    let mut offset: usize = 0;
    while offset < initrd_size
        invariant
            initrd_size + 4095 <= usize::MAX,
            INITRD_VADDR + initrd_size + 4095 <= u64::MAX,
            offset == pages@.len() * 4096,
            pages@.len() > 0 ==> offset < initrd_size + 4096,
            forall|i: int|
                0 <= i < pages@.len() ==> pages@[i] == spec_initrd_page(initrd_size as nat, i as nat),
        decreases initrd_size + 4096 - offset,
    {
        let remaining = initrd_size - offset;
        let copy_len = if remaining < USER_PAGE_SIZE {
            remaining
        } else {
            USER_PAGE_SIZE
        };
        let page = InitrdPage {
            vaddr: INITRD_VADDR + offset as u64,
            flags: init_data_flags(),
            src_offset: offset,
            copy_len,
        };
        assert(page == spec_initrd_page(initrd_size as nat, pages@.len()));
        pages.push(page);
        offset = offset + USER_PAGE_SIZE;
    }
    let ghost n = pages@.len();
    assert(n == pages_for(initrd_size as nat)) by (nonlinear_arith)
        requires
            n * 4096 >= initrd_size,
            n > 0 ==> n * 4096 < initrd_size + 4096,
    ;
    pages
}

/// Every byte of the ramdisk lands in exactly the page that covers it, at
/// its offset within that page, and within the part that page copies.
pub proof fn lemma_initrd_bytes_placed(size: nat, o: nat)
    requires
        o < size,
    ensures
        o / 4096 < pages_for(size),
        (o / 4096) * 4096 <= o,
        o < (o / 4096) * 4096 + spec_initrd_page(size, o / 4096).copy_len,
        o - (o / 4096) * 4096 == o % 4096,
{
    let i = o / 4096;
    assert(i * 4096 <= o && o < i * 4096 + 4096 && o - i * 4096 == o % 4096) by (nonlinear_arith)
        requires
            i == o / 4096,
    ;
    assert(i < pages_for(size)) by (nonlinear_arith)
        requires
            i * 4096 <= o,
            o < size,
    ;
}

/// Pages of the copy never overlap, neither in the ramdisk nor in init's
/// address space: each starts a whole page after any page before it.
pub proof fn lemma_initrd_pages_disjoint(size: nat, i: nat, j: nat)
    requires
        i < j < pages_for(size),
        size + 4095 <= usize::MAX,
        INITRD_VADDR + size + 4095 <= u64::MAX,
    ensures
        spec_initrd_page(size, i).src_offset + 4096 <= spec_initrd_page(size, j).src_offset,
        spec_initrd_page(size, i).vaddr + 4096 <= spec_initrd_page(size, j).vaddr,
{
    assert(i * 4096 + 4096 <= j * 4096 && j * 4096 < size + 4096) by (nonlinear_arith)
        requires
            i < j,
            j < (size + 4095) / 4096,
    ;
}

/// The pages of init's stack, from just below the top down.
pub open spec fn spec_stack_page(i: int) -> u64 {
    (INIT_STACK_TOP_VADDR - (i + 1) * 4096) as u64
}

/// The pages that make up init's stack, each present, user-accessible and
/// writable; the stack pointer starts at `INIT_STACK_TOP_VADDR`.
pub fn init_stack_pages() -> (r: Vec<UserPage>)
    ensures
        r@.len() == INIT_STACK_PAGES,
        forall|i: int|
            0 <= i < r@.len() ==> r@[i] == (UserPage {
                vaddr: spec_stack_page(i),
                flags: spec_init_data_flags(),
            }),
{
    let mut pages: Vec<UserPage> = Vec::new();
    let mut i: usize = 0;
    while i < INIT_STACK_PAGES
        invariant
            i <= INIT_STACK_PAGES,
            pages@.len() == i,
            forall|k: int|
                0 <= k < i ==> pages@[k] == (UserPage {
                    vaddr: spec_stack_page(k),
                    flags: spec_init_data_flags(),
                }),
        decreases INIT_STACK_PAGES - i,
    {
        let vaddr = INIT_STACK_TOP_VADDR - ((i as u64) + 1) * (USER_PAGE_SIZE as u64);
        pages.push(UserPage { vaddr, flags: init_data_flags() });
        i = i + 1;
    }
    pages
}

/// The stack pages tile the range just below the top without gaps.
pub proof fn lemma_stack_pages_contiguous(i: int)
    requires
        0 <= i < INIT_STACK_PAGES,
    ensures
        spec_stack_page(i) + 4096 == (if i == 0 {
            INIT_STACK_TOP_VADDR as int
        } else {
            spec_stack_page(i - 1) as int
        }),
        spec_stack_page(i) >= INIT_STACK_TOP_VADDR - INIT_STACK_PAGES * 4096,
{
}

/// The pages that hold init's boot information of `info_size` bytes, from
/// `BOOT_INFO_VADDR` up, each present, user-accessible and writable.
pub fn boot_info_pages(info_size: usize) -> (r: Vec<UserPage>)
    requires
        info_size + 4095 <= usize::MAX,
        BOOT_INFO_VADDR + info_size + 4095 <= u64::MAX,
    ensures
        r@.len() == pages_for(info_size as nat),
        forall|i: int|
            0 <= i < r@.len() ==> r@[i] == (UserPage {
                vaddr: (BOOT_INFO_VADDR + i * 4096) as u64,
                flags: spec_init_data_flags(),
            }),
{
    let mut pages: Vec<UserPage> = Vec::new();
    let mut offset: usize = 0;
    while offset < info_size
        invariant
            info_size + 4095 <= usize::MAX,
            BOOT_INFO_VADDR + info_size + 4095 <= u64::MAX,
            offset == pages@.len() * 4096,
            pages@.len() > 0 ==> offset < info_size + 4096,
            forall|i: int|
                0 <= i < pages@.len() ==> pages@[i] == (UserPage {
                    vaddr: (BOOT_INFO_VADDR + i * 4096) as u64,
                    flags: spec_init_data_flags(),
                }),
        decreases info_size + 4096 - offset,
    {
        pages.push(UserPage { vaddr: BOOT_INFO_VADDR + offset as u64, flags: init_data_flags() });
        offset = offset + USER_PAGE_SIZE;
    }
    let ghost n = pages@.len();
    assert(n == pages_for(info_size as nat)) by (nonlinear_arith)
        requires
            n * 4096 >= info_size,
            n > 0 ==> n * 4096 < info_size + 4096,
    ;
    pages
}


/// The page of boot information init finds at `BOOT_INFO_VADDR`, as bytes:
/// the ramdisk's start address and its size, each as a little-endian 64-bit
/// word, then zeros up to the end of the page.
pub open spec fn boot_info_page_holds(page: Seq<u8>, initrd_start: u64, initrd_size: u64) -> bool {
    &&& page.len() == USER_PAGE_SIZE
    &&& le_u64(page, 0) == initrd_start
    &&& le_u64(page, 8) == initrd_size
    &&& forall|j: int| 16 <= j < page.len() ==> page[j] == 0
}

/// Appends `x` as eight little-endian bytes.
fn push_u64_le(v: &mut Vec<u8>, x: u64)
    ensures
        final(v)@.len() == old(v)@.len() + 8,
        final(v)@.take(old(v)@.len() as int) == old(v)@,
        le_u64(final(v)@, old(v)@.len() as int) == x,
{
    let ghost start = v@.len() as int;
    let b0 = (x & 0xff) as u8;
    let b1 = ((x >> 8u64) & 0xff) as u8;
    let b2 = ((x >> 16u64) & 0xff) as u8;
    let b3 = ((x >> 24u64) & 0xff) as u8;
    let b4 = ((x >> 32u64) & 0xff) as u8;
    let b5 = ((x >> 40u64) & 0xff) as u8;
    let b6 = ((x >> 48u64) & 0xff) as u8;
    let b7 = ((x >> 56u64) & 0xff) as u8;
    assert(((b0 as u64 + b1 as u64 * 0x100) + (b2 as u64 + b3 as u64 * 0x100) * 0x1_0000) + ((
    b4 as u64 + b5 as u64 * 0x100) + (b6 as u64 + b7 as u64 * 0x100) * 0x1_0000) * 0x1_0000_0000
        == x) by (bit_vector)
        requires
            b0 == (x & 0xff) as u8,
            b1 == ((x >> 8u64) & 0xff) as u8,
            b2 == ((x >> 16u64) & 0xff) as u8,
            b3 == ((x >> 24u64) & 0xff) as u8,
            b4 == ((x >> 32u64) & 0xff) as u8,
            b5 == ((x >> 40u64) & 0xff) as u8,
            b6 == ((x >> 48u64) & 0xff) as u8,
            b7 == ((x >> 56u64) & 0xff) as u8,
    ;
    v.push(b0);
    v.push(b1);
    v.push(b2);
    v.push(b3);
    v.push(b4);
    v.push(b5);
    v.push(b6);
    v.push(b7);
    assert(v@[start] == b0 && v@[start + 1] == b1 && v@[start + 2] == b2 && v@[start + 3] == b3);
    assert(v@[start + 4] == b4 && v@[start + 5] == b5 && v@[start + 6] == b6 && v@[start + 7] == b7);
}

/// The bytes of the boot-information page: the ramdisk's start address and
/// size, then zeros.
pub fn boot_info_page_bytes(initrd_start: u64, initrd_size: u64) -> (r: Vec<u8>)
    ensures
        boot_info_page_holds(r@, initrd_start, initrd_size),
{
    let mut page: Vec<u8> = Vec::new();
    push_u64_le(&mut page, initrd_start);
    let ghost first = page@;
    push_u64_le(&mut page, initrd_size);
    assert(le_u64(page@, 0) == le_u64(first, 0)) by {
        assert(page@.take(8) == first);
        assert(page@[0] == first[0] && page@[1] == first[1] && page@[2] == first[2] && page@[3]
            == first[3]);
        assert(page@[4] == first[4] && page@[5] == first[5] && page@[6] == first[6] && page@[7]
            == first[7]);
    }
    let ghost words = page@;
    while page.len() < USER_PAGE_SIZE
        invariant
            16 <= page@.len() <= USER_PAGE_SIZE,
            page@.take(16) == words.take(16),
            words.len() == 16,
            le_u64(words, 0) == initrd_start,
            le_u64(words, 8) == initrd_size,
            forall|j: int| 16 <= j < page@.len() ==> page@[j] == 0,
        decreases USER_PAGE_SIZE - page@.len(),
    {
        page.push(0);
        assert(page@.take(16) =~= words.take(16));
    }
    assert forall|j: int| 0 <= j < 16 implies page@[j] == words[j] by {
        assert(page@.take(16)[j] == words.take(16)[j]);
    }
    page
}
} // verus!
