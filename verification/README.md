# aether

The verified core of the Aether hobby kernel and its init program, written in
Verus. Every function in `src/` carries a contract that Verus proves.

## Layout

- `src/` — the library:
  - `elf_parsing`, `kernel_elf_parsing`, `elf` — ELF files read from bytes:
    segments, program headers, the relative relocations of a dynamic segment.
  - `elf_loading`, `init_loading`, `init_process` — what loading a program
    takes: the pages to map and fill, relocation patches, the init process's
    ramdisk, boot information and stack pages.
  - `memory_regions`, `boot_memory`, `physical_memory_allocator` — the boot
    memory map cut into huge and large pages and handed to the free lists.
  - `bump_allocator`, `global_allocator`, `virtual_address_allocator` — the
    kernel's early allocators.
  - `console_text`, `framebuffer`, `logger` — the early console: ANSI escape
    codes, cursor movement, pixel encoding, log tags.
  - `args`, `boot`, `task_id`, `syscalls`, `ticker`, `bytes`, `memory_layout`.
- `tests/` — tests on concrete values.
- `app/` — the boot glue around the library: bootloader requests, the spin
  lock, drawing on the framebuffer, the `log` facade.
