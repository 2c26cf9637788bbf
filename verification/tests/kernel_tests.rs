use aether::args::{is_whitespace, KernelArgs};
use aether::boot::{bytes_equal, BootModule, Modules};
use aether::elf_loading::VirtualMemoryMappingFlags;
use aether::init_process::{
    boot_info_page_bytes, boot_info_pages, find_init_program, init_data_flags, init_file_name,
    init_spawn_request, init_stack_pages, locate_init_program, plan_initrd_pages, InitSpawnError,
    InitSpawnRequest, InitrdPage, UserPage, BOOT_INFO_VADDR, INITRD_VADDR, INIT_STACK_TOP_VADDR,
};
use aether::logger::{level_enabled, level_tag, LogLevel};
use aether::syscalls::{
    is_writable_fd, syscall_register, syscall_resume, SyscallIntent, SyscallResume, SyscallReturnValue,
    SyscallReturnable,
};
use aether::task_id::{TaskId, TaskIdCounter};
use aether::ticker::should_report_ticks;

const RW_USER: VirtualMemoryMappingFlags =
    VirtualMemoryMappingFlags { present: true, user: true, write: true, execute: false };

#[test]
fn default_init_program() {
    assert_eq!(KernelArgs::parse("").init_program(), "/bin/init");
    assert_eq!(KernelArgs::parse("quiet loglevel=3").init_program(), "/bin/init");
}

#[test]
fn init_program_from_command_line() {
    assert_eq!(KernelArgs::parse("init=/bin/sh").init_program(), "/bin/sh");
    assert_eq!(KernelArgs::parse("  quiet\tinit=/sbin/x foo=bar ").init_program(), "/sbin/x");
    // The last `init=` wins, and the value is everything after the first `=`.
    assert_eq!(KernelArgs::parse("init=/a init=/b=c").init_program(), "/b=c");
    // Only the key `init` counts.
    assert_eq!(KernelArgs::parse("initrd=/x init2=/y").init_program(), "/bin/init");
    assert_eq!(KernelArgs::parse("init=").init_program(), "");
    // Unicode white space separates entries too.
    assert_eq!(KernelArgs::parse("x\u{3000}init=/z").init_program(), "/z");
}

#[test]
fn white_space() {
    assert!(is_whitespace(' '));
    assert!(is_whitespace('\n'));
    assert!(is_whitespace('\u{a0}'));
    assert!(!is_whitespace('a'));
    assert!(!is_whitespace('='));
}

#[test]
fn modules_by_name() {
    let initrd = [1u8, 2, 3];
    let font = [9u8];
    let mut modules = Modules::new();
    assert_eq!(modules.find(b"initrd"), None);
    modules.init(vec![
        BootModule { name: b"kernel-font.psf", data: &font },
        BootModule { name: b"initrd", data: &initrd },
        BootModule { name: b"initrd", data: &font },
    ]);
    assert_eq!(modules.find(b"initrd"), Some(&initrd[..]));
    assert_eq!(modules.find(b"kernel-font.psf"), Some(&font[..]));
    assert_eq!(modules.find(b"missing"), None);
    assert!(bytes_equal(b"abc", b"abc"));
    assert!(!bytes_equal(b"abc", b"abd"));
    assert!(!bytes_equal(b"abc", b"ab"));
}

#[test]
fn init_file_names() {
    assert_eq!(init_file_name(b"/bin/init"), b"bin/init".to_vec());
    assert_eq!(init_file_name(b"init"), b"init".to_vec());
    assert_eq!(init_file_name(b"a/b/c"), b"b/c".to_vec());
    assert_eq!(init_file_name(b"/"), b"".to_vec());
}

#[test]
fn finds_init_in_the_ramdisk() {
    let names = vec![b"bin/hello_world".to_vec(), b"bin/init".to_vec(), b"bin/init".to_vec()];
    assert_eq!(find_init_program(&names, b"/bin/init"), Some(1));
    assert_eq!(find_init_program(&names, b"/bin/sh"), None);
    assert_eq!(find_init_program(&names, b"x/bin/hello_world"), Some(0));
}

#[test]
fn initrd_pages() {
    assert!(plan_initrd_pages(0).is_empty());
    assert_eq!(
        plan_initrd_pages(5000),
        vec![
            InitrdPage { vaddr: INITRD_VADDR, flags: RW_USER, src_offset: 0, copy_len: 4096 },
            InitrdPage { vaddr: INITRD_VADDR + 4096, flags: RW_USER, src_offset: 4096, copy_len: 904 },
        ]
    );
    let exact = plan_initrd_pages(8192);
    assert_eq!(exact.len(), 2);
    assert_eq!(exact[1].copy_len, 4096);
    assert_eq!(INITRD_VADDR, 0x2FFF_FFF0_0000);
}

#[test]
fn init_stack_and_boot_info() {
    let page = |vaddr: u64| UserPage { vaddr, flags: RW_USER };
    assert_eq!(init_data_flags(), RW_USER);
    assert_eq!(
        init_stack_pages(),
        vec![
            page(INIT_STACK_TOP_VADDR - 0x1000),
            page(INIT_STACK_TOP_VADDR - 0x2000),
            page(INIT_STACK_TOP_VADDR - 0x3000),
            page(INIT_STACK_TOP_VADDR - 0x4000),
        ]
    );
    assert_eq!(INIT_STACK_TOP_VADDR, 0x7FFF_FFFF_F000);
    assert_eq!(boot_info_pages(16), vec![page(BOOT_INFO_VADDR)]);
    assert_eq!(boot_info_pages(4097), vec![page(BOOT_INFO_VADDR), page(BOOT_INFO_VADDR + 4096)]);
    assert!(boot_info_pages(0).is_empty());
}

#[test]
fn boot_info_page_holds_the_ramdisk_location() {
    let bytes = boot_info_page_bytes(INITRD_VADDR, 0x1234_5678);
    assert_eq!(bytes.len(), 4096);
    assert_eq!(&bytes[0..8], &INITRD_VADDR.to_le_bytes());
    assert_eq!(&bytes[8..16], &0x1234_5678u64.to_le_bytes());
    assert!(bytes[16..].iter().all(|b| *b == 0));
}

#[test]
fn spawning_init() {
    let names = vec![b"bin/sh".to_vec(), b"bin/init".to_vec()];
    let ramdisk: &[u8] = b"ramdisk";
    assert_eq!(locate_init_program(Some(ramdisk), &names, b"/bin/init"), Ok((ramdisk, 1)));
    assert_eq!(
        locate_init_program(Some(ramdisk), &names, b"/bin/missing"),
        Err(InitSpawnError::InitProgramNotFound)
    );
    assert_eq!(locate_init_program(None, &names, b"/bin/init"), Err(InitSpawnError::InitrdNotFound));
    assert_eq!(InitSpawnError::InitrdNotFound.message(), "Initrd module not found");
    assert_eq!(
        InitSpawnError::InitProgramNotFound.message(),
        "Could not find the init program in initrd tarball!"
    );
    assert_eq!(
        init_spawn_request(0x40_1000),
        InitSpawnRequest { user_stack_vaddr: 0x7FFF_FFFF_F000, entrypoint_vaddr: 0x40_1000, arg: 0x7FFF_FFE0_0000 }
    );
}

#[test]
fn task_ids_are_fresh() {
    let mut counter = TaskIdCounter::new();
    let a = TaskId::new(&mut counter);
    let b = TaskId::new(&mut counter);
    let c = TaskId::new(&mut counter);
    assert_eq!(a.get(), 1);
    assert_eq!(b.get(), 2);
    assert_eq!(c.get(), 3);
    assert_ne!(a, b);
    assert_eq!(TaskId::from_u64(2), b);
    assert_eq!(TaskId::from(3u64), c);
    assert_eq!(c.into_return_value(), SyscallReturnValue(3));
}

#[test]
fn syscall_return_values() {
    assert_eq!(().into_return_value(), SyscallReturnValue(0));
    assert_eq!(42u64.into_return_value(), SyscallReturnValue(42));
    assert_eq!(syscall_register(Ok(SyscallReturnValue(7))), Ok(7));
    assert_eq!(syscall_register(Err(9)), Err(9));
    assert!(is_writable_fd(1));
    assert!(is_writable_fd(2));
    assert!(!is_writable_fd(0));
    assert!(!is_writable_fd(3));
    assert!(!is_writable_fd(-1));
}

#[test]
fn log_levels() {
    assert!(level_enabled(LogLevel::Error));
    assert!(level_enabled(LogLevel::Debug));
    assert!(!level_enabled(LogLevel::Trace));
    assert_eq!(level_tag(LogLevel::Error), "\x1b[1;31mERROR\x1b[0m");
    assert_eq!(level_tag(LogLevel::Warn), "\x1b[1;33mWARN\x1b[0m");
    assert_eq!(level_tag(LogLevel::Info), "\x1b[1;32mINFO\x1b[0m");
    assert_eq!(level_tag(LogLevel::Debug), "\x1b[1;32mDEBUG\x1b[0m");
    assert_eq!(level_tag(LogLevel::Trace), "\x1b[1;32mTRACE\x1b[0m");
}

#[test]
fn tick_reports() {
    assert!(should_report_ticks(0));
    assert!(should_report_ticks(300));
    assert!(!should_report_ticks(301));
}

#[test]
fn syscall_resumption() {
    let returned = SyscallIntent::Return(TaskId::from_u64(5)).into_return_intent();
    assert!(matches!(returned, SyscallIntent::Return(SyscallReturnValue(5))));
    let unit = SyscallIntent::Return(()).into_return_intent();
    assert!(matches!(unit, SyscallIntent::Return(SyscallReturnValue(0))));
    let switch = SyscallIntent::<u64>::SwitchTo.into_return_intent();
    assert!(matches!(switch, SyscallIntent::SwitchTo));
    assert_eq!(
        syscall_resume(Ok(SyscallIntent::Return(SyscallReturnValue(11)))),
        SyscallResume::ReturnValue(11)
    );
    assert_eq!(syscall_resume(Ok(SyscallIntent::SwitchTo)), SyscallResume::SwitchTask);
    assert_eq!(syscall_resume(Err(9)), SyscallResume::ReturnError(9));
}
