use falcon::elf::{Architecture, Elf, FunctionEntry};
use falcon::error::Error;
use falcon::linker::{ElfLinker, DEFAULT_LIB_BASE, LIB_BASE_STEP};
use falcon::memory::{PERM_EXECUTE, PERM_READ, PERM_WRITE};

const EHSIZE: usize = 64;
const PHSIZE: usize = 56;
const SHSIZE: usize = 64;

fn le16(b: &mut Vec<u8>, v: u16) {
    b.extend_from_slice(&v.to_le_bytes());
}

fn le32(b: &mut Vec<u8>, v: u32) {
    b.extend_from_slice(&v.to_le_bytes());
}

fn le64(b: &mut Vec<u8>, v: u64) {
    b.extend_from_slice(&v.to_le_bytes());
}

fn ehdr(entry: u64, machine: u16, phnum: u16, shoff: u64, shnum: u16) -> Vec<u8> {
    let mut b = Vec::new();
    b.extend_from_slice(&[0x7f, b'E', b'L', b'F', 2, 1, 1, 0, 0, 0, 0, 0, 0, 0, 0, 0]);
    le16(&mut b, 2); // e_type: executable
    le16(&mut b, machine);
    le32(&mut b, 1); // e_version
    le64(&mut b, entry);
    le64(&mut b, if phnum > 0 { EHSIZE as u64 } else { 0 }); // e_phoff
    le64(&mut b, shoff);
    le32(&mut b, 0); // e_flags
    le16(&mut b, EHSIZE as u16);
    le16(&mut b, PHSIZE as u16);
    le16(&mut b, phnum);
    le16(&mut b, SHSIZE as u16);
    le16(&mut b, shnum);
    le16(&mut b, 0); // e_shstrndx
    assert_eq!(b.len(), EHSIZE);
    b
}

fn phdr(p_type: u32, flags: u32, offset: u64, vaddr: u64, filesz: u64, memsz: u64) -> Vec<u8> {
    let mut b = Vec::new();
    le32(&mut b, p_type);
    le32(&mut b, flags);
    le64(&mut b, offset);
    le64(&mut b, vaddr);
    le64(&mut b, vaddr); // p_paddr
    le64(&mut b, filesz);
    le64(&mut b, memsz);
    le64(&mut b, 0); // p_align
    assert_eq!(b.len(), PHSIZE);
    b
}

fn shdr(sh_type: u32, addr: u64, offset: u64, size: u64, link: u32, entsize: u64) -> Vec<u8> {
    let mut b = Vec::new();
    le32(&mut b, 0); // sh_name
    le32(&mut b, sh_type);
    le64(&mut b, 0); // sh_flags
    le64(&mut b, addr);
    le64(&mut b, offset);
    le64(&mut b, size);
    le32(&mut b, link);
    le32(&mut b, 0); // sh_info
    le64(&mut b, 0); // sh_addralign
    le64(&mut b, entsize);
    assert_eq!(b.len(), SHSIZE);
    b
}

/// An ELF with only a file header: no segments, no sections, no symbols.
fn minimal_elf(entry: u64, machine: u16) -> Vec<u8> {
    ehdr(entry, machine, 0, 0, 0)
}

/// An ELF with one loadable segment holding `data`, zero-extended to `memsz`.
fn elf_with_load(entry: u64, vaddr: u64, data: &[u8], memsz: u64, flags: u32) -> Vec<u8> {
    let data_off = (EHSIZE + PHSIZE) as u64;
    let mut b = ehdr(entry, 3, 1, 0, 0);
    b.extend_from_slice(&phdr(1, flags, data_off, vaddr, data.len() as u64, memsz));
    b.extend_from_slice(data);
    b
}

/// An ELF whose dynamic section declares `needed` libraries. One loadable
/// segment maps the whole file at its own offsets, so virtual addresses equal
/// file offsets; one section header covers the dynamic string table.
fn elf_with_needed(entry: u64, needed: &[&str]) -> Vec<u8> {
    let phnum = 2u16;
    let dyn_off = (EHSIZE + phnum as usize * PHSIZE) as u64;
    let dyn_count = needed.len() + 2; // DT_STRTAB, each DT_NEEDED, DT_NULL
    let dyn_size = (dyn_count * 16) as u64;
    let str_off = dyn_off + dyn_size;
    let mut strtab: Vec<u8> = vec![0];
    let mut name_offsets = Vec::new();
    for name in needed {
        name_offsets.push(strtab.len() as u64);
        strtab.extend_from_slice(name.as_bytes());
        strtab.push(0);
    }
    let shoff = str_off + strtab.len() as u64;
    let file_len = shoff + SHSIZE as u64;

    let mut b = ehdr(entry, 3, phnum, shoff, 1);
    // map the whole file at virtual address == file offset
    b.extend_from_slice(&phdr(1, 4, 0, 0, file_len, file_len));
    b.extend_from_slice(&phdr(2, 4, dyn_off, dyn_off, dyn_size, dyn_size));
    le64(&mut b, 5); // DT_STRTAB
    le64(&mut b, str_off);
    for off in &name_offsets {
        le64(&mut b, 1); // DT_NEEDED
        le64(&mut b, *off);
    }
    le64(&mut b, 0); // DT_NULL
    le64(&mut b, 0);
    b.extend_from_slice(&strtab);
    b.extend_from_slice(&shdr(1, str_off, str_off, strtab.len() as u64, 0, 0));
    assert_eq!(b.len(), file_len as usize);
    b
}

/// An ELF with a regular symbol table of function symbols `(name, value)`.
fn elf_with_syms(entry: u64, symbols: &[(&str, u64)]) -> Vec<u8> {
    let shoff = EHSIZE as u64;
    let sym_off = shoff + 3 * SHSIZE as u64;
    let sym_size = (symbols.len() * 24) as u64;
    let str_off = sym_off + sym_size;
    let mut strtab: Vec<u8> = vec![0];
    let mut name_offsets = Vec::new();
    for (name, _) in symbols {
        name_offsets.push(strtab.len() as u32);
        strtab.extend_from_slice(name.as_bytes());
        strtab.push(0);
    }

    let mut b = ehdr(entry, 3, 0, shoff, 3);
    b.extend_from_slice(&shdr(0, 0, 0, 0, 0, 0));
    b.extend_from_slice(&shdr(2, 0, sym_off, sym_size, 2, 24)); // SHT_SYMTAB
    b.extend_from_slice(&shdr(3, 0, str_off, strtab.len() as u64, 0, 0)); // SHT_STRTAB
    for (i, (_, value)) in symbols.iter().enumerate() {
        le32(&mut b, name_offsets[i]); // st_name
        b.push(0x12); // st_info: global function
        b.push(0); // st_other
        le16(&mut b, 1); // st_shndx: defined
        le64(&mut b, *value);
        le64(&mut b, 0); // st_size
    }
    b.extend_from_slice(&strtab);
    b
}

fn entry_addresses(entries: &[FunctionEntry]) -> Vec<u64> {
    entries.iter().map(|e| e.address()).collect()
}

#[test]
fn new_rejects_short_and_unmagical_buffers() {
    assert_eq!(Elf::new(vec![0x7f, b'E', b'L'], 0).err(), Some(Error::InvalidFormat));
    assert_eq!(Elf::new(vec![0u8; 64], 0).err(), Some(Error::InvalidFormat));
    let mut bad = minimal_elf(0, 3);
    bad[0] = 0x7e;
    assert_eq!(Elf::new(bad, 0).err(), Some(Error::InvalidFormat));
    assert!(Elf::new(minimal_elf(0, 3), 0).is_ok());
}

#[test]
fn memory_slices_zero_extends_and_relocates() {
    let elf = Elf::new(elf_with_load(0x100, 0x1000, &[1, 2, 3, 4], 8, 5), 0x20).unwrap();
    let memory = elf.memory().unwrap();
    let segments = memory.segments();
    assert_eq!(segments.len(), 1);
    assert_eq!(segments[0].address(), 0x1020);
    assert_eq!(*segments[0].bytes(), vec![1, 2, 3, 4, 0, 0, 0, 0]);
    assert_eq!(segments[0].len(), 8);
    assert_eq!(segments[0].permissions(), PERM_READ + PERM_EXECUTE);
}

#[test]
fn memory_counts_only_loadable_headers() {
    // the needed-library file carries one PT_LOAD and one PT_DYNAMIC
    let elf = Elf::new(elf_with_needed(0x100, &["libone.so"]), 0).unwrap();
    let memory = elf.memory().unwrap();
    assert_eq!(memory.segments().len(), 1);
}

#[test]
fn memory_write_flag_maps_too() {
    let elf = Elf::new(elf_with_load(0, 0, &[9], 1, 6), 0).unwrap();
    let memory = elf.memory().unwrap();
    assert_eq!(memory.segments()[0].permissions(), PERM_READ + PERM_WRITE);
}

#[test]
fn memory_rejects_out_of_range_file_slices() {
    let data_off = (EHSIZE + PHSIZE) as u64;
    let mut b = ehdr(0, 3, 1, 0, 0);
    // claims eight bytes of file content where none exist
    b.extend_from_slice(&phdr(1, 4, data_off, 0x1000, 8, 8));
    let elf = Elf::new(b, 0).unwrap();
    assert_eq!(elf.memory().err(), Some(Error::MalformedInput));
    assert_eq!(elf.dt_needed().err(), Some(Error::MalformedInput));
}

#[test]
fn no_dynamic_section_means_no_needed_libraries() {
    let elf = Elf::new(minimal_elf(0x42, 3), 0).unwrap();
    assert_eq!(elf.dt_needed().unwrap(), Vec::<String>::new());
}

#[test]
fn dt_needed_resolves_names_in_file_order() {
    let elf = Elf::new(elf_with_needed(0, &["libc.so.6", "libm.so.6"]), 0).unwrap();
    assert_eq!(elf.dt_needed().unwrap(), vec!["libc.so.6".to_string(), "libm.so.6".to_string()]);
}

#[test]
fn dt_needed_without_covering_section_is_an_internal_invariant_violation() {
    // dynamic section names a string-table address, but the one section
    // header is rewritten to cover a disjoint range
    let mut b = elf_with_needed(0, &["libc.so.6"]);
    let shoff = b.len() - SHSIZE;
    let patched = shdr(1, 0xdead_0000, 0, 4, 0, 0);
    b[shoff..].copy_from_slice(&patched);
    let elf = Elf::new(b, 0).unwrap();
    assert_eq!(elf.dt_needed().err(), Some(Error::InternalInvariantViolation));
}

#[test]
fn entry_point_alone_yields_one_unnamed_entry() {
    // no dynamic section, no symbols: the entry set is exactly the entry point
    let elf = Elf::new(minimal_elf(0x42, 3), 0x1000).unwrap();
    assert_eq!(elf.dt_needed().unwrap(), Vec::<String>::new());
    let entries = elf.function_entries().unwrap();
    assert_eq!(entries.len(), 1);
    assert_eq!(entries[0].address(), 0x1042);
    assert_eq!(*entries[0].name(), None);
}

#[test]
fn symbol_entries_carry_names_and_relocation() {
    let elf = Elf::new(elf_with_syms(0x999, &[("alpha", 0x10), ("beta", 0x20)]), 0x100).unwrap();
    let entries = elf.function_entries().unwrap();
    assert_eq!(entries.len(), 3);
    assert_eq!(entries[0].address(), 0x110);
    assert_eq!(entries[0].name().as_deref(), Some("alpha"));
    assert_eq!(entries[1].address(), 0x120);
    assert_eq!(entries[1].name().as_deref(), Some("beta"));
    // the entry point is not covered by any symbol, so it appears unnamed
    assert_eq!(entries[2].address(), 0xa99);
    assert_eq!(*entries[2].name(), None);
}

#[test]
fn entry_point_covered_by_a_symbol_adds_nothing() {
    let elf = Elf::new(elf_with_syms(0x10, &[("alpha", 0x10), ("beta", 0x20)]), 0).unwrap();
    let entries = elf.function_entries().unwrap();
    assert_eq!(entry_addresses(&entries), vec![0x10, 0x20]);
}

#[test]
fn user_functions_are_deduped_on_unrelocated_addresses() {
    let mut elf = Elf::new(elf_with_syms(0x10, &[("alpha", 0x10)]), 0x1000).unwrap();
    elf.add_user_function(0x10); // covered by alpha
    elf.add_user_function(0x10); // still covered
    elf.add_user_function(0xff);
    elf.add_user_function(0xff); // duplicates of uncovered addresses both appear
    let entries = elf.function_entries().unwrap();
    assert_eq!(entry_addresses(&entries), vec![0x1010, 0x10ff, 0x10ff]);
    assert_eq!(entries[1].name().as_deref(), Some("user_function_ff"));
    assert_eq!(entries[2].name().as_deref(), Some("user_function_ff"));
}

#[test]
fn exported_functions_need_a_defined_section() {
    // regular symbols are not exports; a file without dynamic symbols exports
    // nothing
    let elf = Elf::new(elf_with_syms(0, &[("alpha", 0x10)]), 0).unwrap();
    assert_eq!(elf.exported_functions().unwrap().len(), 0);
}

#[test]
fn program_entry_is_unrelocated() {
    let elf = Elf::new(minimal_elf(0x4321, 3), 0x9000).unwrap();
    assert_eq!(elf.program_entry().unwrap(), 0x4321);
}

#[test]
fn architecture_recognizes_only_one_machine() {
    let elf = Elf::new(minimal_elf(0, 3), 0).unwrap();
    assert_eq!(elf.architecture().unwrap(), Architecture::X86);
    let other = Elf::new(minimal_elf(0, 62), 0).unwrap();
    assert_eq!(other.architecture().err(), Some(Error::UnsupportedArchitecture));
}

#[test]
fn linker_loads_root_and_dependency_at_stepped_bases() {
    let root = elf_with_needed(0x42, &["libc.so.6"]);
    let lib = elf_with_load(0x10, 0, &[7, 7], 2, 5);

    let mut linker = ElfLinker::new("root_bin".to_string());
    let mut loads: Vec<(String, u64)> = Vec::new();
    let mut rounds = 0;
    while let Some((name, base)) = linker.next_request() {
        rounds += 1;
        assert!(rounds <= 8, "the link must terminate");
        let bytes = match name.as_str() {
            "root_bin" => root.clone(),
            "libc.so.6" => lib.clone(),
            other => panic!("unexpected request for {}", other),
        };
        loads.push((name, base));
        linker.load_elf(bytes).unwrap();
    }
    assert_eq!(
        loads,
        vec![
            ("root_bin".to_string(), 0),
            ("libc.so.6".to_string(), DEFAULT_LIB_BASE + LIB_BASE_STEP),
        ]
    );
    assert_eq!(linker.loaded.len(), 2);

    let memory = linker.memory();
    let addresses: Vec<u64> = memory.segments().iter().map(|s| s.address()).collect();
    // the root maps its whole file at zero; the library's segment sits one
    // step above the default library base, so the two cannot overlap
    assert_eq!(addresses, vec![0, DEFAULT_LIB_BASE + LIB_BASE_STEP]);
    assert_eq!(*memory.segments()[1].bytes(), vec![7, 7]);

    assert_eq!(linker.program_entry().unwrap(), 0x42);
    assert_eq!(linker.architecture().unwrap(), Architecture::X86);

    // entries come from both objects, each relocated by its own base
    let entries = linker.function_entries().unwrap();
    assert_eq!(
        entry_addresses(&entries),
        vec![0x42, DEFAULT_LIB_BASE + LIB_BASE_STEP + 0x10]
    );
}

#[test]
fn mutual_dependencies_terminate_after_one_load_each() {
    let lib_a = elf_with_needed(0, &["libb.so"]);
    let lib_b = elf_with_needed(0, &["liba.so"]);

    let mut linker = ElfLinker::new("liba.so".to_string());
    let mut loads: Vec<String> = Vec::new();
    let mut rounds = 0;
    while let Some((name, _base)) = linker.next_request() {
        rounds += 1;
        assert!(rounds <= 8, "the cycle must not loop forever");
        let bytes = match name.as_str() {
            "liba.so" => lib_a.clone(),
            "libb.so" => lib_b.clone(),
            other => panic!("unexpected request for {}", other),
        };
        loads.push(name);
        linker.load_elf(bytes).unwrap();
    }
    assert_eq!(loads, vec!["liba.so".to_string(), "libb.so".to_string()]);
    assert_eq!(linker.loaded.len(), 2);
}

#[test]
fn linker_propagates_parse_failures() {
    let mut linker = ElfLinker::new("broken".to_string());
    let request = linker.next_request().unwrap();
    assert_eq!(request, ("broken".to_string(), 0));
    assert_eq!(linker.load_elf(vec![0u8; 64]).err(), Some(Error::InvalidFormat));
    // the failed request stays outstanding
    assert_eq!(linker.next_request().unwrap(), ("broken".to_string(), 0));
}

/// An ELF whose dynamic section exposes `symbols` as dynamic function
/// symbols, counted through a hash table, beside regular needed entries. One
/// loadable segment maps the whole file at its own offsets.
fn elf_with_dynsyms(entry: u64, symbols: &[(&str, u64)]) -> Vec<u8> {
    let dyn_off = (EHSIZE + 2 * PHSIZE) as u64;
    let dyn_count = 5usize; // DT_HASH, DT_SYMTAB, DT_STRTAB, DT_STRSZ, DT_NULL
    let hash_off = dyn_off + (dyn_count * 16) as u64;
    // one bucket; the chain length counts the null symbol and the real ones
    let nchain = (symbols.len() + 1) as u32;
    let hash_size = (2 + 1 + nchain as usize) * 4;
    let sym_off = hash_off + hash_size as u64;
    let sym_size = ((symbols.len() + 1) * 24) as u64;
    let str_off = sym_off + sym_size;
    let mut strtab: Vec<u8> = vec![0];
    let mut name_offsets = Vec::new();
    for (name, _) in symbols {
        name_offsets.push(strtab.len() as u32);
        strtab.extend_from_slice(name.as_bytes());
        strtab.push(0);
    }
    let file_len = str_off + strtab.len() as u64;

    let mut b = ehdr(entry, 3, 2, 0, 0);
    b.extend_from_slice(&phdr(1, 4, 0, 0, file_len, file_len));
    b.extend_from_slice(&phdr(2, 4, dyn_off, dyn_off, (dyn_count * 16) as u64, (dyn_count * 16) as u64));
    for (tag, val) in [
        (4u64, hash_off), // DT_HASH
        (6, sym_off), // DT_SYMTAB
        (5, str_off), // DT_STRTAB
        (10, strtab.len() as u64), // DT_STRSZ
        (0, 0), // DT_NULL
    ] {
        le64(&mut b, tag);
        le64(&mut b, val);
    }
    le32(&mut b, 1); // nbucket
    le32(&mut b, nchain);
    le32(&mut b, 0); // the single bucket
    for _ in 0..nchain {
        le32(&mut b, 0); // chain entries
    }
    // the null symbol, then the declared ones
    b.extend_from_slice(&[0u8; 24]);
    for (i, (_, value)) in symbols.iter().enumerate() {
        le32(&mut b, name_offsets[i]);
        b.push(0x12); // st_info: global function
        b.push(0);
        le16(&mut b, 1); // st_shndx: defined
        le64(&mut b, *value);
        le64(&mut b, 0);
    }
    b.extend_from_slice(&strtab);
    assert_eq!(b.len(), file_len as usize);
    b
}

#[test]
fn exported_functions_come_from_dynamic_symbols() {
    let elf = Elf::new(elf_with_dynsyms(0x999, &[("open", 0x30), ("close", 0x44)]), 0).unwrap();
    let exports = elf.exported_functions().unwrap();
    assert_eq!(exports.len(), 2);
    assert_eq!(exports[0].name(), "open");
    assert_eq!(exports[0].address(), 0x30);
    assert_eq!(exports[1].name(), "close");
    assert_eq!(exports[1].address(), 0x44);
}

#[test]
fn dynamic_symbols_feed_function_entries() {
    let elf = Elf::new(elf_with_dynsyms(0x30, &[("open", 0x30)]), 0x1000).unwrap();
    let entries = elf.function_entries().unwrap();
    // the entry point coincides with the symbol's unrelocated value, so only
    // the named entry appears
    assert_eq!(entry_addresses(&entries), vec![0x1030]);
    assert_eq!(entries[0].name().as_deref(), Some("open"));
}

#[test]
fn dt_needed_with_an_unresolvable_name_is_malformed() {
    // the needed entry's offset lies beyond the string table
    let mut b = elf_with_needed(0, &["libc.so.6"]);
    let dyn_off = EHSIZE + 2 * PHSIZE;
    // patch the DT_NEEDED value, the second dynamic entry
    let val_off = dyn_off + 16 + 8;
    b[val_off..val_off + 8].copy_from_slice(&0x5000u64.to_le_bytes());
    let elf = Elf::new(b, 0).unwrap();
    assert_eq!(elf.dt_needed().err(), Some(Error::MalformedInput));
}
