//! End-to-end tests of the loader's verified planning core, driven by
//! hand-built Mach-O byte images.

use loader::linker::{GotSlot, Linker};
use loader::macho::{self, MachO};
use loader::room;
use loader::vm;
use loader::{check_image_len, get_library_ordinal, read_ptr, segment_name_eq, strip_tag};
use loader::{LoadError, Task, IMAGE_SIZE_LIMIT};

fn p16(v: &mut Vec<u8>, x: u16) {
    v.extend_from_slice(&x.to_le_bytes());
}

fn p32(v: &mut Vec<u8>, x: u32) {
    v.extend_from_slice(&x.to_le_bytes());
}

fn p64(v: &mut Vec<u8>, x: u64) {
    v.extend_from_slice(&x.to_le_bytes());
}

fn pb32(v: &mut Vec<u8>, x: u32) {
    v.extend_from_slice(&x.to_be_bytes());
}

fn name16(name: &str) -> Vec<u8> {
    let mut n = name.as_bytes().to_vec();
    assert!(n.len() <= 16);
    n.resize(16, 0);
    n
}

fn header(v: &mut Vec<u8>, ncmds: u32, sizeofcmds: u32) {
    p32(v, 0xfeedfacf); // MH_MAGIC_64
    p32(v, 0x0100000c); // cputype arm64
    p32(v, 0); // cpusubtype
    p32(v, 2); // filetype MH_EXECUTE
    p32(v, ncmds);
    p32(v, sizeofcmds);
    p32(v, 0); // flags
    p32(v, 0); // reserved
}

#[allow(clippy::too_many_arguments)]
fn segment_cmd(
    v: &mut Vec<u8>,
    name: &str,
    vmaddr: u64,
    vmsize: u64,
    fileoff: u64,
    filesize: u64,
    maxprot: u32,
    initprot: u32,
    sections: &[(&str, u64, u64, u32, u32)], // (name, addr, size, offset, flags)
) {
    p32(v, 0x19); // LC_SEGMENT_64
    p32(v, 72 + 80 * sections.len() as u32);
    v.extend_from_slice(&name16(name));
    p64(v, vmaddr);
    p64(v, vmsize);
    p64(v, fileoff);
    p64(v, filesize);
    p32(v, maxprot);
    p32(v, initprot);
    p32(v, sections.len() as u32);
    p32(v, 0); // segment flags
    for (sname, addr, size, offset, flags) in sections {
        v.extend_from_slice(&name16(sname));
        v.extend_from_slice(&name16(name));
        p64(v, *addr);
        p64(v, *size);
        p32(v, *offset);
        p32(v, 3); // align
        p32(v, 0); // reloff
        p32(v, 0); // nreloc
        p32(v, *flags);
        p32(v, 0); // reserved1
        p32(v, 0); // reserved2
        p32(v, 0); // reserved3
    }
}

fn dylib_cmd(v: &mut Vec<u8>, cmd: u32, path: &str, cmdsize: u32) {
    assert!(cmdsize as usize >= 24 + path.len() + 1);
    p32(v, cmd);
    p32(v, cmdsize);
    p32(v, 24); // name offset
    p32(v, 0); // timestamp
    p32(v, 0); // current version
    p32(v, 0); // compatibility version
    v.extend_from_slice(path.as_bytes());
    v.push(0);
    for _ in 0..(cmdsize as usize - 24 - path.len() - 1) {
        v.push(0);
    }
}

fn symtab_cmd(v: &mut Vec<u8>, symoff: u32, nsyms: u32, stroff: u32, strsize: u32) {
    p32(v, 0x2); // LC_SYMTAB
    p32(v, 24);
    p32(v, symoff);
    p32(v, nsyms);
    p32(v, stroff);
    p32(v, strsize);
}

fn main_cmd(v: &mut Vec<u8>, entryoff: u64) {
    p32(v, 0x80000028); // LC_MAIN
    p32(v, 24);
    p64(v, entryoff);
    p64(v, 0); // stacksize
}

fn nlist(v: &mut Vec<u8>, n_strx: u32, n_type: u8, n_sect: u8, n_desc: u16, n_value: u64) {
    p32(v, n_strx);
    v.push(n_type);
    v.push(n_sect);
    p16(v, n_desc);
    p64(v, n_value);
}

/// A binary with one `__DATA_CONST,__got` slot bound to `_fprintf` in
/// dylib ordinal 1, one `__TEXT` segment, and an entry point.
/// Returns the image; the GOT slot's pre-link value is 0x4000.
fn dynamic_hello(got_flags: u32, ordinal: u16) -> Vec<u8> {
    let mut v = Vec::new();
    // layout: header 32, segment __TEXT 72, segment __DATA_CONST 152,
    // dylib 56, symtab 24, main 24 -> commands end at 360
    let symoff: u32 = 360;
    let stroff: u32 = symoff + 16;
    let strsize: u32 = 10; // "\0_fprintf\0"
    let got_fileoff: u32 = stroff + strsize + 6; // pad to 392
    header(&mut v, 5, 328);
    segment_cmd(&mut v, "__TEXT", 0x1000, 0x1000, 0, 0x100, 5, 5, &[]);
    segment_cmd(
        &mut v,
        "__DATA_CONST",
        0x4000,
        0x1000,
        got_fileoff as u64,
        8,
        3,
        3,
        &[("__got", 0x4000, 8, got_fileoff, got_flags)],
    );
    dylib_cmd(&mut v, 0xc, "/usr/lib/libSystem.B.dylib", 56);
    symtab_cmd(&mut v, symoff, 1, stroff, strsize);
    main_cmd(&mut v, 0x120);
    assert_eq!(v.len(), symoff as usize);
    nlist(&mut v, 1, 0, 0, ordinal << 8, 0x4000);
    v.push(0);
    v.extend_from_slice(b"_fprintf");
    v.push(0);
    assert_eq!(v.len(), (stroff + strsize) as usize);
    v.resize(got_fileoff as usize, 0);
    p64(&mut v, 0x4000); // the pre-link slot value names the symbol
    v
}

fn parse(image: &[u8]) -> MachO {
    macho::load_image(image).expect("image should parse")
}

#[test]
fn size_gate_boundaries() {
    assert_eq!(IMAGE_SIZE_LIMIT, 100_000_000);
    assert!(check_image_len(100_000_000).is_ok());
    assert_eq!(check_image_len(100_000_001), Err(LoadError::ImageTooLarge));
    assert_eq!(check_image_len(0), Err(LoadError::EmptyImage));
    assert!(check_image_len(1).is_ok());
}

#[test]
fn oversize_image_rejected_before_parse() {
    let image = vec![0u8; 100_000_001];
    assert!(matches!(
        macho::load_image(&image),
        Err(LoadError::ImageTooLarge)
    ));
}

#[test]
fn empty_and_garbage_images() {
    assert!(matches!(macho::load_image(&[]), Err(LoadError::EmptyImage)));
    assert!(matches!(macho::load_image(&[1, 2, 3]), Err(LoadError::ParseFailed)));
    let garbage = vec![0xaau8; 64];
    assert!(matches!(macho::load_image(&garbage), Err(LoadError::ParseFailed)));
}

#[test]
fn thirty_two_bit_image_rejected() {
    let mut v = Vec::new();
    p32(&mut v, 0xfeedface); // MH_MAGIC (32-bit)
    v.resize(64, 0);
    assert!(matches!(macho::load_image(&v), Err(LoadError::Not64)));
}

#[test]
fn zero_segment_image_parses_to_empty_plans() {
    let mut v = Vec::new();
    header(&mut v, 0, 0);
    let m = parse(&v);
    assert!(m.is_64);
    assert_eq!(m.segments.len(), 0);
    assert_eq!(m.dylibs.len(), 0);
    assert_eq!(m.symbols.len(), 0);
    assert_eq!(m.entry, 0);
    // no segments: the window spans nothing and no work is planned
    let task = Task::from_macho(m, 0x7000_0000).expect("span fits");
    assert_eq!(task.memory_size, 0);
    assert_eq!(room::segment_copy_ops(&task.segments).len(), 0);
    assert_eq!(vm::protect_ops(&task.segments).len(), 0);
    // the load would then stop at the entry readback
    assert_eq!(
        vm::check_entry_protection(0),
        Err(LoadError::EntryNotExecutable)
    );
}

#[test]
fn static_hello_segments_and_plans() {
    let mut v = Vec::new();
    header(&mut v, 3, 3 * 72);
    segment_cmd(&mut v, "__PAGEZERO", 0, 0x1000, 0, 0, 0, 0, &[]);
    segment_cmd(&mut v, "__TEXT", 0x1000, 0x2000, 0, 0x200, 5, 5, &[]);
    segment_cmd(&mut v, "__DATA", 0x4000, 0x1000, 0x200, 0x100, 3, 3, &[]);
    v.resize(0x300, 0);
    let m = parse(&v);
    assert_eq!(m.segments.len(), 3);
    assert_eq!(m.segments[0].name[..10], *b"__PAGEZERO");
    assert_eq!(m.segments[1].vm_addr, 0x1000);
    assert_eq!(m.segments[1].vm_size, 0x2000);
    assert_eq!(m.segments[1].initprot, 5);
    assert_eq!(m.segments[2].offset, 0x200);
    assert_eq!(m.segments[2].size, 0x100);

    // the window spans from the lowest address to the highest end
    let span = room::vm_span(&m.segments).expect("span fits");
    assert_eq!(span, 0x5000);

    // __PAGEZERO is never copied
    let copies = room::segment_copy_ops(&m.segments);
    assert_eq!(copies.len(), 2);
    assert_eq!(copies[0].src, 0);
    assert_eq!(copies[0].dst, 0x1000);
    assert_eq!(copies[0].len, 0x200);
    assert_eq!(copies[1].src, 0x200);
    assert_eq!(copies[1].dst, 0x4000);
    assert_eq!(copies[1].len, 0x100);

    // two protection calls per mapped segment: max first, then current
    let seals = vm::protect_ops(&m.segments);
    assert_eq!(seals.len(), 4);
    assert!(seals[0].set_max);
    assert!(!seals[1].set_max);
    assert_eq!(seals[0].addr, 0x1000);
    assert_eq!(seals[0].prot, 5);
    assert_eq!(seals[1].prot, 5);
    assert_eq!(seals[2].addr, 0x4000);
    assert_eq!(seals[2].prot, 3);
    assert!(seals[2].set_max);
}

#[test]
fn vm_span_with_nonzero_base() {
    let mut v = Vec::new();
    header(&mut v, 2, 2 * 72);
    segment_cmd(&mut v, "__TEXT", 0x1000, 0x2000, 0, 0, 5, 5, &[]);
    segment_cmd(&mut v, "__DATA", 0x4000, 0x1000, 0, 0, 3, 3, &[]);
    let m = parse(&v);
    // max(vmaddr+vmsize) = 0x5000, min(vmaddr) = 0x1000
    assert_eq!(room::vm_span(&m.segments).unwrap(), 0x4000);
}

#[test]
fn entry_point_from_main_command() {
    let mut v = Vec::new();
    header(&mut v, 1, 24);
    main_cmd(&mut v, 0x1234);
    let m = parse(&v);
    assert_eq!(m.entry, 0x1234);
    let task = Task::from_macho(m, 0).unwrap();
    assert_eq!(task.entry_point, 0x1234);
}

#[test]
fn dylib_commands_and_open_modes() {
    let mut v = Vec::new();
    header(&mut v, 5, 5 * 40);
    dylib_cmd(&mut v, 0xc, "/usr/lib/a", 40); // LC_LOAD_DYLIB
    dylib_cmd(&mut v, 0x80000018, "/usr/lib/b", 40); // LC_LOAD_WEAK_DYLIB
    dylib_cmd(&mut v, 0x8000001f, "/usr/lib/c", 40); // LC_REEXPORT_DYLIB
    dylib_cmd(&mut v, 0x20, "/usr/lib/d", 40); // LC_LAZY_LOAD_DYLIB
    dylib_cmd(&mut v, 0x80000023, "/usr/lib/e", 40); // LC_LOAD_UPWARD_DYLIB
    let m = parse(&v);
    assert_eq!(m.dylibs.len(), 5);
    assert_eq!(m.dylibs[0].name, b"/usr/lib/a".to_vec());
    let reqs = room::dylib_requests(&m);
    assert_eq!(reqs.len(), 5);
    // bind-now default, weak probes without loading, lazy defers
    assert_eq!(reqs[0].flags, 0);
    assert_eq!(reqs[1].flags, room::RTLD_NOLOAD);
    assert_eq!(reqs[2].flags, 0);
    assert_eq!(reqs[3].flags, room::RTLD_LAZY);
    assert_eq!(reqs[4].flags, 0);
    assert!(reqs[1].weak);
    assert!(!reqs[0].weak && !reqs[2].weak && !reqs[3].weak && !reqs[4].weak);
    assert_eq!(reqs[2].name, b"/usr/lib/c".to_vec());
}

#[test]
fn dlopen_outcome_fatal_only_for_required() {
    assert_eq!(
        room::dylib_open_outcome(false, 0),
        Err(LoadError::DlopenFailed)
    );
    assert_eq!(room::dylib_open_outcome(true, 0), Ok(0));
    assert_eq!(room::dylib_open_outcome(false, 0x1234), Ok(0x1234));
}

#[test]
fn got_rebind_plan_resolves_fprintf() {
    let image = dynamic_hello(0x6, 1); // S_NON_LAZY_SYMBOL_POINTERS
    let m = parse(&image);
    assert_eq!(m.dylibs.len(), 1);
    assert_eq!(m.symbols.len(), 1);
    assert_eq!(m.symbols[0].name, b"_fprintf".to_vec());
    assert_eq!(m.symbols[0].n_value, 0x4000);
    let linker = Linker::new();
    let plan: Vec<GotSlot> = linker
        .rebind_plan(&m, &image, m.dylibs.len())
        .expect("plan should build");
    assert_eq!(plan.len(), 1);
    assert_eq!(plan[0].addr, 0x4000);
    assert_eq!(plan[0].symbol, b"fprintf".to_vec());
    assert_eq!(plan[0].ordinal, 1);
    assert!(!plan[0].auth);
}

#[test]
fn got_rebind_plan_lazy_type_also_accepted() {
    let image = dynamic_hello(0x7, 1); // S_LAZY_SYMBOL_POINTERS
    let m = parse(&image);
    let plan = Linker::new()
        .rebind_plan(&m, &image, m.dylibs.len())
        .expect("plan should build");
    assert_eq!(plan.len(), 1);
}

#[test]
fn got_section_of_wrong_type_is_fatal() {
    // name says __got, type says regular: no write may happen
    let image = dynamic_hello(0x0, 1);
    let m = parse(&image);
    let r = Linker::new().rebind_plan(&m, &image, m.dylibs.len());
    assert!(matches!(r, Err(LoadError::BadGotSection)));
}

#[test]
fn got_ordinal_out_of_range_is_fatal() {
    let image = dynamic_hello(0x6, 2); // ordinal 2, but only 1 dylib
    let m = parse(&image);
    let r = Linker::new().rebind_plan(&m, &image, m.dylibs.len());
    assert!(matches!(r, Err(LoadError::SymbolOrdinalOutOfRange)));
}

#[test]
fn got_slot_without_symbol_is_fatal() {
    let mut image = dynamic_hello(0x6, 1);
    // overwrite the slot's pre-link value with one no symbol has
    let n = image.len();
    image[n - 8..].copy_from_slice(&0x9999u64.to_le_bytes());
    let m = parse(&image);
    let r = Linker::new().rebind_plan(&m, &image, m.dylibs.len());
    assert!(matches!(r, Err(LoadError::ParseFailed)));
}

#[test]
fn fat_binary_selects_arm64_slice() {
    let inner = dynamic_hello(0x6, 1);
    let mut fat = Vec::new();
    pb32(&mut fat, 0xcafebabe);
    pb32(&mut fat, 2); // two architectures
    let arm_off = 8 + 2 * 20 + 16; // some padding after the arch table
    // x86_64 entry first: must be ignored
    pb32(&mut fat, 0x01000007); // CPU_TYPE_X86_64
    pb32(&mut fat, 3);
    pb32(&mut fat, 4); // offset (garbage bytes)
    pb32(&mut fat, 4);
    pb32(&mut fat, 0);
    // arm64 entry second
    pb32(&mut fat, 0x0100000c); // CPU_TYPE_ARM64
    pb32(&mut fat, 0);
    pb32(&mut fat, arm_off as u32);
    pb32(&mut fat, inner.len() as u32);
    pb32(&mut fat, 0);
    fat.resize(arm_off, 0);
    fat.extend_from_slice(&inner);
    let m = macho::load_image(&fat).expect("arm64 slice should parse");
    assert_eq!(m.dylibs.len(), 1);
    let plan = Linker::new().rebind_plan(&m, &inner, 1).unwrap();
    assert_eq!(plan[0].symbol, b"fprintf".to_vec());
}

#[test]
fn fat_binary_without_arm64_fails() {
    let mut fat = Vec::new();
    pb32(&mut fat, 0xcafebabe);
    pb32(&mut fat, 1);
    pb32(&mut fat, 0x01000007); // x86_64 only
    pb32(&mut fat, 3);
    pb32(&mut fat, 32);
    pb32(&mut fat, 4);
    pb32(&mut fat, 0);
    fat.resize(64, 0);
    assert!(matches!(
        macho::load_image(&fat),
        Err(LoadError::NoSuitableArch)
    ));
}

#[test]
fn library_ordinal_extraction() {
    assert_eq!(get_library_ordinal(0x0100), 1);
    assert_eq!(get_library_ordinal(0x0200), 2);
    assert_eq!(get_library_ordinal(0xff00), 255);
    assert_eq!(get_library_ordinal(0x12345), 0x23); // only bits 8..15 count
    assert_eq!(get_library_ordinal(0x00ff), 0);
}

#[test]
fn pointer_tag_strip() {
    // untagged pointers pass unchanged
    assert_eq!(strip_tag(0x0000_1234_5678_9abc), 0x0000_1234_5678_9abc);
    assert_eq!(strip_tag(0x0fff_ffff_ffff_ffff), 0x0fff_ffff_ffff_ffff);
    // a tagged pointer is masked to its low 60 bits
    assert_eq!(strip_tag(0xf000_0000_0000_1234), 0x0000_0000_0000_1234);
    assert_eq!(strip_tag(0x8000_dead_beef_0000), 0x0000_dead_beef_0000);
    // stripping twice equals stripping once
    assert_eq!(
        strip_tag(strip_tag(0xf000_0000_0000_1234)),
        strip_tag(0xf000_0000_0000_1234)
    );
}

#[test]
fn read_ptr_strips_tag_from_encoded_value() {
    let mut v = Vec::new();
    p64(&mut v, 0xf000_0000_0001_0000);
    p64(&mut v, 0x0000_0000_0002_0000);
    assert_eq!(read_ptr(true, &v, 0), 0x0001_0000);
    assert_eq!(read_ptr(true, &v, 8), 0x0002_0000);
    // a 4-byte cell reads only its own bytes
    assert_eq!(read_ptr(false, &v, 8), 0x0002_0000);
    assert_eq!(read_ptr(false, &v, 12), 0);
}

#[test]
fn segment_name_prefix_match() {
    let name = name16("__DATA_CONST");
    assert!(segment_name_eq(&name, b"__DATA_CONST"));
    assert!(segment_name_eq(&name, b"__DATA"));
    assert!(!segment_name_eq(&name, b"__TEXT"));
    assert!(segment_name_eq(&name, b""));
    assert!(!segment_name_eq(b"__g", b"__got"));
    let got = name16("__got");
    assert!(segment_name_eq(&got, b"__got"));
    assert!(!segment_name_eq(&got, b"__auth_got"));
    let auth = name16("__auth_got");
    assert!(segment_name_eq(&auth, b"__auth_got"));
    assert!(!segment_name_eq(&auth, b"__got"));
}

#[test]
fn kernel_outcome_decisions() {
    assert_eq!(vm::alloc_outcome(0, 0x1000), Ok(0x1000));
    assert_eq!(vm::alloc_outcome(3, 0x1000), Err(LoadError::VmAllocFailed(3)));
    assert_eq!(vm::alloc_outcome(0, 0), Err(LoadError::VmAllocFailed(0)));
    assert_eq!(vm::write_outcome(0), Ok(()));
    assert_eq!(vm::write_outcome(-5), Err(LoadError::VmWriteFailed(-5)));
    assert_eq!(vm::protect_outcome(0), Ok(()));
    assert_eq!(vm::protect_outcome(2), Err(LoadError::VmProtectFailed(2)));
    assert_eq!(vm::query_outcome(0, 5), Ok(5));
    assert_eq!(vm::query_outcome(1, 5), Err(LoadError::VmQueryFailed(1)));
}

#[test]
fn protection_readback_judgement() {
    assert_eq!(vm::check_sealed(5, 5), Ok(()));
    assert_eq!(vm::check_sealed(3, 5), Err(LoadError::ProtectionMismatch));
    // entry must be readable and executable
    assert_eq!(vm::check_entry_protection(5), Ok(())); // r-x
    assert_eq!(vm::check_entry_protection(7), Ok(())); // rwx
    assert_eq!(vm::check_entry_protection(1), Err(LoadError::EntryNotExecutable));
    assert_eq!(vm::check_entry_protection(4), Err(LoadError::EntryNotExecutable));
    assert_eq!(vm::check_entry_protection(3), Err(LoadError::EntryNotExecutable));
}

#[test]
fn dlsym_outcome_decision() {
    assert_eq!(loader::linker::resolve_outcome(0), Err(LoadError::DlsymFailed));
    assert_eq!(loader::linker::resolve_outcome(0xdead), Ok(0xdead));
}

#[test]
fn protection_rendering() {
    assert_eq!(vm::vm_prot_into_string(0), "(---)");
    assert_eq!(vm::vm_prot_into_string(1), "(r--)");
    assert_eq!(vm::vm_prot_into_string(3), "(rw-)");
    assert_eq!(vm::vm_prot_into_string(5), "(r-x)");
    assert_eq!(vm::vm_prot_into_string(7), "(rwx)");
    assert_eq!(vm::vm_prot_into_string(4), "(--x)");
}

#[test]
fn nested_fat_containers_are_narrowed() {
    let inner = dynamic_hello(0x6, 1);
    let mut fat1 = Vec::new();
    pb32(&mut fat1, 0xcafebabe);
    pb32(&mut fat1, 1);
    pb32(&mut fat1, 0x0100_000c);
    pb32(&mut fat1, 0);
    pb32(&mut fat1, 28);
    pb32(&mut fat1, inner.len() as u32);
    pb32(&mut fat1, 0);
    fat1.extend_from_slice(&inner);
    let mut fat2 = Vec::new();
    pb32(&mut fat2, 0xcafebabe);
    pb32(&mut fat2, 1);
    pb32(&mut fat2, 0x0100_000c);
    pb32(&mut fat2, 0);
    pb32(&mut fat2, 28);
    pb32(&mut fat2, fat1.len() as u32);
    pb32(&mut fat2, 0);
    fat2.extend_from_slice(&fat1);
    let m = macho::load_image(&fat2).expect("nested slices should parse");
    assert_eq!(m.dylibs.len(), 1);
    let slice = macho::select_slice(&fat2).expect("slice should be found");
    assert_eq!(slice, &inner[..]);
}

/// A binary with two dylibs, a two-slot `__got` section, and a one-slot
/// `__auth_got` section; `sym_type` sets the third symbol's `n_type`.
fn multi_got(sym_type: u8) -> Vec<u8> {
    let mut v = Vec::new();
    // commands: segment 232, two dylibs 40 each, symtab 24 -> end 368
    let symoff: u32 = 368;
    let stroff: u32 = symoff + 3 * 16;
    let strsize: u32 = 20; // "\0_open\0_close\0_read\0"
    let got_off: u32 = stroff + strsize + 4; // 440
    let auth_off: u32 = got_off + 16; // 456
    header(&mut v, 4, 336);
    segment_cmd(
        &mut v,
        "__DATA_CONST",
        0x8000,
        0x1000,
        got_off as u64,
        24,
        3,
        3,
        &[
            ("__got", 0x8000, 16, got_off, 0x6),
            ("__auth_got", 0x8010, 8, auth_off, 0x6),
        ],
    );
    dylib_cmd(&mut v, 0xc, "/usr/lib/a", 40);
    dylib_cmd(&mut v, 0xc, "/usr/lib/b", 40);
    symtab_cmd(&mut v, symoff, 3, stroff, strsize);
    assert_eq!(v.len(), symoff as usize);
    nlist(&mut v, 1, 0, 0, 1 << 8, 0x111); // _open, ordinal 1
    nlist(&mut v, 7, 0, 0, 2 << 8, 0x222); // _close, ordinal 2
    nlist(&mut v, 14, sym_type, 0, 2 << 8, 0x333); // _read, ordinal 2
    v.push(0);
    v.extend_from_slice(b"_open");
    v.push(0);
    v.extend_from_slice(b"_close");
    v.push(0);
    v.extend_from_slice(b"_read");
    v.push(0);
    assert_eq!(v.len(), (stroff + strsize) as usize);
    v.resize(got_off as usize, 0);
    p64(&mut v, 0x111);
    p64(&mut v, 0x222);
    p64(&mut v, 0x333);
    v
}

#[test]
fn got_plan_covers_every_slot_of_every_section() {
    let image = multi_got(0);
    let m = parse(&image);
    assert_eq!(m.dylibs.len(), 2);
    assert_eq!(m.symbols.len(), 3);
    let plan = Linker::new()
        .rebind_plan(&m, &image, 2)
        .expect("plan should build");
    assert_eq!(plan.len(), 3);
    assert_eq!(plan[0].addr, 0x8000);
    assert_eq!(plan[0].symbol, b"open".to_vec());
    assert_eq!(plan[0].ordinal, 1);
    assert!(!plan[0].auth);
    assert_eq!(plan[1].addr, 0x8008);
    assert_eq!(plan[1].symbol, b"close".to_vec());
    assert_eq!(plan[1].ordinal, 2);
    assert!(!plan[1].auth);
    // the __auth_got slot is marked for pointer signing
    assert_eq!(plan[2].addr, 0x8010);
    assert_eq!(plan[2].symbol, b"read".to_vec());
    assert_eq!(plan[2].ordinal, 2);
    assert!(plan[2].auth);
}

#[test]
fn got_slot_naming_defined_symbol_is_fatal() {
    // the third symbol is not undefined: the rebind must refuse it
    let image = multi_got(0x0e);
    let m = parse(&image);
    let r = Linker::new().rebind_plan(&m, &image, 2);
    assert!(matches!(r, Err(LoadError::ParseFailed)));
}

#[test]
fn error_codes_are_negative_and_distinct() {
    let errors = vec![
        LoadError::NullImage,
        LoadError::EmptyImage,
        LoadError::ImageTooLarge,
        LoadError::ParseFailed,
        LoadError::NoSuitableArch,
        LoadError::Not64,
        LoadError::VmAllocFailed(1),
        LoadError::VmWriteFailed(1),
        LoadError::VmProtectFailed(1),
        LoadError::VmQueryFailed(1),
        LoadError::DlopenFailed,
        LoadError::DlsymFailed,
        LoadError::BadGotSection,
        LoadError::SymbolOrdinalOutOfRange,
        LoadError::ProtectionMismatch,
        LoadError::EntryNotExecutable,
    ];
    let mut codes: Vec<i32> = errors.iter().map(|e| e.code()).collect();
    for c in &codes {
        assert!(*c < 0);
    }
    codes.sort();
    codes.dedup();
    assert_eq!(codes.len(), errors.len());
    for e in &errors {
        assert!(!e.message().is_empty());
    }
}
