//! A single ELF image: parses one byte buffer at a caller-chosen base
//! address and exposes program-header-derived memory segments, symbol-derived
//! function entries, dynamic-section dependency names, the architecture tag
//! and the entry-point address.
//!
//! The byte-level decoding of the ELF tables is done by the `goblin` crate
//! behind the trusted items below; everything computed from the decoded
//! tables is verified here.

use vstd::prelude::*;

use crate::error::Error;
use crate::memory::{Memory, MemorySegment, SegmentView, PERM_EXECUTE, PERM_NONE, PERM_READ,
    PERM_WRITE};
use crate::names::{user_function_name, user_function_name_chars};

verus! {

/// The program-header type tag of a loadable segment.
pub const PT_LOAD: u32 = 1;

/// The dynamic-entry tag naming a needed shared library.
pub const DT_NEEDED: u64 = 1;

/// The dynamic-entry tag giving the address of the dynamic string table.
pub const DT_STRTAB: u64 = 5;

/// The program-header flag bit for execute permission.
pub const PF_X: u32 = 1;

/// The program-header flag bit for write permission.
pub const PF_W: u32 = 2;

/// The program-header flag bit for read permission.
pub const PF_R: u32 = 4;

/// The machine tag of the one architecture this loader recognizes.
pub const EM_386: u16 = 3;

/// Addition modulo two to the sixty-fourth power, used for relocating
/// file-relative addresses by a base address.
pub open spec fn wadd(a: u64, b: u64) -> u64 {
    vstd::wrapping::u64_specs::wrapping_add(a, b)
}

/// The fields of a program header that the loader reads.
#[derive(Clone, Copy, Debug, PartialEq, Eq, Structural)]
pub struct ProgramHeader {
    /// The segment type tag.
    pub p_type: u32,
    /// The permission flag bits.
    pub p_flags: u32,
    /// The offset of the segment's bytes in the file.
    pub p_offset: u64,
    /// The virtual address the segment loads at, before relocation.
    pub p_vaddr: u64,
    /// The number of bytes the segment takes in the file.
    pub p_filesz: u64,
    /// The number of bytes the segment takes in memory.
    pub p_memsz: u64,
}

/// The fields of a section header that the loader reads.
#[derive(Clone, Copy, Debug, PartialEq, Eq, Structural)]
pub struct SectionHeader {
    /// The virtual address of the section.
    pub sh_addr: u64,
    /// The offset of the section's bytes in the file.
    pub sh_offset: u64,
    /// The size of the section in bytes.
    pub sh_size: u64,
}

/// One entry of the dynamic section.
#[derive(Clone, Copy, Debug, PartialEq, Eq, Structural)]
pub struct DynEntry {
    /// The tag of the entry.
    pub d_tag: u64,
    /// The value of the entry.
    pub d_val: u64,
}

/// The mathematical value of a `SymbolRecord`.
#[verifier::ext_equal]
pub ghost struct SymbolView {
    pub name: Seq<char>,
    pub value: u64,
    pub shndx: u64,
    pub function: bool,
}

/// A symbol-table entry with its name already resolved against the matching
/// string table.
#[derive(Debug)]
pub struct SymbolRecord {
    /// The resolved name of the symbol.
    pub name: String,
    /// The value of the symbol, not yet relocated.
    pub value: u64,
    /// The index of the section the symbol is defined in; zero means the
    /// symbol is only referenced, not defined.
    pub shndx: u64,
    /// Whether the symbol is function-typed.
    pub function: bool,
}

impl View for SymbolRecord {
    type V = SymbolView;

    open spec fn view(&self) -> SymbolView {
        SymbolView {
            name: self.name@,
            value: self.value,
            shndx: self.shndx,
            function: self.function,
        }
    }
}

/// The entry point and machine tag of the file header.
#[derive(Clone, Copy, Debug, PartialEq, Eq, Structural)]
pub struct HeaderInfo {
    /// The declared entry-point address, not yet relocated.
    pub entry: u64,
    /// The machine tag.
    pub machine: u16,
}

/// The decoded form of an ELF byte buffer: everything this loader reads of
/// the file's tables.
#[verifier::ext_equal]
pub ghost struct ElfView {
    pub header: HeaderInfo,
    pub program_headers: Seq<ProgramHeader>,
    pub section_headers: Seq<SectionHeader>,
    pub dynamic: Option<Seq<DynEntry>>,
    pub dynsyms: Seq<SymbolView>,
    pub syms: Seq<SymbolView>,
}

/// The decoded form of `bytes` as `goblin::elf::Elf::parse` produces it, or
/// `None` where parsing fails. Parsing is a function of the bytes alone; each
/// trusted wrapper below returns one facet of this value.
pub uninterp spec fn elf_parse(bytes: Seq<u8>) -> Option<ElfView>;

/// The string at `offset` in the NUL-delimited string table `table`, as
/// `goblin`'s string-table reader produces it, or `None` where the offset is
/// out of bounds or the table cannot be decoded. A function of the arguments
/// alone.
pub uninterp spec fn strtab_string(table: Seq<u8>, offset: u64) -> Option<Seq<char>>;

/// Whether `bytes` begins with the four-byte ELF magic.
pub open spec fn is_elf_magic(bytes: Seq<u8>) -> bool {
    bytes.len() >= 4 && bytes[0] == 0x7fu8 && bytes[1] == 0x45u8 && bytes[2] == 0x4cu8 && bytes[3]
        == 0x46u8
}

/// Relies on `goblin::peek_bytes`, which answers `Hint::Elf` exactly when the
/// first four bytes are the ELF magic; the class byte only refines the hint.
#[verifier::external_body]
fn peek_is_elf(bytes: &Vec<u8>) -> (r: bool)
    requires
        bytes@.len() >= 16,
    ensures
        r == is_elf_magic(bytes@),
{
    let mut first: [u8; 16] = [0; 16];
    first.copy_from_slice(&bytes[0..16]);
    matches!(goblin::peek_bytes(&first), Ok(goblin::Hint::Elf(_)))
}

/// Relies on `goblin::elf::Elf::parse`: returns the file header's entry point
/// and machine tag.
#[verifier::external_body]
fn parse_header(bytes: &Vec<u8>) -> (r: Option<HeaderInfo>)
    ensures
        r.is_some() == elf_parse(bytes@).is_some(),
        r matches Some(h) ==> elf_parse(bytes@) matches Some(v) && h == v.header,
{
    goblin::elf::Elf::parse(bytes).ok().map(
        |e| HeaderInfo { entry: e.header.e_entry, machine: e.header.e_machine },
    )
}

/// Relies on `goblin::elf::Elf::parse`: returns the program headers.
#[verifier::external_body]
fn parse_program_headers(bytes: &Vec<u8>) -> (r: Option<Vec<ProgramHeader>>)
    ensures
        r.is_some() == elf_parse(bytes@).is_some(),
        r matches Some(v) ==> elf_parse(bytes@) matches Some(ev) && v@ == ev.program_headers,
{
    goblin::elf::Elf::parse(bytes).ok().map(
        |e|
            e.program_headers.iter().map(
                |ph| ProgramHeader {
                    p_type: ph.p_type,
                    p_flags: ph.p_flags,
                    p_offset: ph.p_offset,
                    p_vaddr: ph.p_vaddr,
                    p_filesz: ph.p_filesz,
                    p_memsz: ph.p_memsz,
                },
            ).collect(),
    )
}

/// Relies on `goblin::elf::Elf::parse`: returns the section headers.
#[verifier::external_body]
fn parse_section_headers(bytes: &Vec<u8>) -> (r: Option<Vec<SectionHeader>>)
    ensures
        r.is_some() == elf_parse(bytes@).is_some(),
        r matches Some(v) ==> elf_parse(bytes@) matches Some(ev) && v@ == ev.section_headers,
{
    goblin::elf::Elf::parse(bytes).ok().map(
        |e|
            e.section_headers.iter().map(
                |sh| SectionHeader {
                    sh_addr: sh.sh_addr,
                    sh_offset: sh.sh_offset,
                    sh_size: sh.sh_size,
                },
            ).collect(),
    )
}

/// Relies on `goblin::elf::Elf::parse`: returns the dynamic section's
/// entries, or `None` inside `Some` where the file has no dynamic section.
#[verifier::external_body]
fn parse_dynamic(bytes: &Vec<u8>) -> (r: Option<Option<Vec<DynEntry>>>)
    ensures
        r.is_some() == elf_parse(bytes@).is_some(),
        r matches Some(d) ==> elf_parse(bytes@) matches Some(ev) && (match d {
            Some(v) => ev.dynamic matches Some(dv) && v@ == dv,
            None => ev.dynamic is None,
        }),
{
    goblin::elf::Elf::parse(bytes).ok().map(
        |e|
            e.dynamic.map(
                |d|
                    d.dyns.iter().map(
                        |x| DynEntry { d_tag: x.d_tag, d_val: x.d_val },
                    ).collect(),
            ),
    )
}

/// Relies on `goblin::elf::Elf::parse`: returns the dynamic symbols with
/// their names resolved against the dynamic string table.
#[verifier::external_body]
fn parse_dynsyms(bytes: &Vec<u8>) -> (r: Option<Vec<SymbolRecord>>)
    ensures
        r.is_some() == elf_parse(bytes@).is_some(),
        r matches Some(v) ==> elf_parse(bytes@) matches Some(ev) && v@.map(
            |i: int, s: SymbolRecord| s@,
        ) == ev.dynsyms,
{
    goblin::elf::Elf::parse(bytes).ok().map(
        |e|
            e.dynsyms.iter().map(
                |sym| SymbolRecord {
                    name: e.dynstrtab.get_at(sym.st_name).unwrap_or("").to_string(),
                    value: sym.st_value,
                    shndx: sym.st_shndx as u64,
                    function: sym.is_function(),
                },
            ).collect(),
    )
}

/// Relies on `goblin::elf::Elf::parse`: returns the regular symbol-table
/// symbols with their names resolved against the regular string table.
#[verifier::external_body]
fn parse_syms(bytes: &Vec<u8>) -> (r: Option<Vec<SymbolRecord>>)
    ensures
        r.is_some() == elf_parse(bytes@).is_some(),
        r matches Some(v) ==> elf_parse(bytes@) matches Some(ev) && v@.map(
            |i: int, s: SymbolRecord| s@,
        ) == ev.syms,
{
    goblin::elf::Elf::parse(bytes).ok().map(
        |e|
            e.syms.iter().map(
                |sym| SymbolRecord {
                    name: e.strtab.get_at(sym.st_name).unwrap_or("").to_string(),
                    value: sym.st_value,
                    shndx: sym.st_shndx as u64,
                    function: sym.is_function(),
                },
            ).collect(),
    )
}

/// Relies on `goblin::strtab::Strtab::new_preparsed` and `Strtab::get_at`:
/// decodes `table` as a NUL-delimited string table and returns the string at
/// `offset`, or `None` where the table cannot be decoded or the offset is out
/// of bounds.
#[verifier::external_body]
fn strtab_get(table: &Vec<u8>, offset: u64) -> (r: Option<String>)
    ensures
        r.is_some() == strtab_string(table@, offset).is_some(),
        r matches Some(s) ==> strtab_string(table@, offset) == Some(s@),
{
    goblin::strtab::Strtab::new_preparsed(table, 0).ok().and_then(
        |t| t.get_at(offset as usize).map(|s| s.to_string()),
    )
}


/// The permission flags derived from a program header's flag bits. The flag
/// bits are disjoint, so adding them equals taking their bitwise union.
pub open spec fn spec_permissions(flags: u32) -> u32 {
    (((if flags & PF_R != 0 {
        PERM_READ
    } else {
        PERM_NONE
    }) + (if flags & PF_W != 0 {
        PERM_WRITE
    } else {
        PERM_NONE
    }) + (if flags & PF_X != 0 {
        PERM_EXECUTE
    } else {
        PERM_NONE
    })) as u32)
}

/// A run of `n` zero bytes.
pub open spec fn zero_bytes(n: nat) -> Seq<u8> {
    Seq::new(n, |i: int| 0u8)
}

/// The segment a loadable program header describes: the file bytes of
/// `[p_offset, p_offset + p_filesz)`, zero-extended to `p_memsz` where that
/// is larger, placed at the relocated virtual address. `None` where the file
/// byte range lies outside the buffer or the in-memory size exceeds the
/// machine's address range.
pub open spec fn spec_load_segment(bytes: Seq<u8>, base: u64, ph: ProgramHeader) -> Option<
    SegmentView,
> {
    if ph.p_offset + ph.p_filesz <= bytes.len() && ph.p_memsz <= usize::MAX {
        Some(
            SegmentView {
                address: wadd(ph.p_vaddr, base),
                bytes: bytes.subrange(ph.p_offset as int, ph.p_offset + ph.p_filesz) + (
                if ph.p_memsz > ph.p_filesz {
                    zero_bytes((ph.p_memsz - ph.p_filesz) as nat)
                } else {
                    Seq::<u8>::empty()
                }),
                permissions: spec_permissions(ph.p_flags),
            },
        )
    } else {
        None
    }
}

/// The loadable program headers, in file order.
pub open spec fn load_headers(phs: Seq<ProgramHeader>) -> Seq<ProgramHeader>
    decreases phs.len(),
{
    if phs.len() == 0 {
        Seq::empty()
    } else {
        let rest = load_headers(phs.drop_last());
        if phs.last().p_type == PT_LOAD {
            rest.push(phs.last())
        } else {
            rest
        }
    }
}

/// The segments of the memory image: one per loadable program header, in file
/// order. `None` where some loadable header describes an out-of-range byte
/// slice.
pub open spec fn spec_segments(bytes: Seq<u8>, base: u64, phs: Seq<ProgramHeader>) -> Option<
    Seq<SegmentView>,
>
    decreases phs.len(),
{
    if phs.len() == 0 {
        Some(Seq::empty())
    } else {
        match spec_segments(bytes, base, phs.drop_last()) {
            None => None,
            Some(s) => {
                if phs.last().p_type != PT_LOAD {
                    Some(s)
                } else {
                    match spec_load_segment(bytes, base, phs.last()) {
                        None => None,
                        Some(seg) => Some(s.push(seg)),
                    }
                }
            },
        }
    }
}

/// A loadable program header whose segment cannot be built makes the whole
/// image fail.
proof fn lemma_segments_failure(bytes: Seq<u8>, base: u64, phs: Seq<ProgramHeader>, i: int)
    requires
        0 <= i < phs.len(),
        phs[i].p_type == PT_LOAD,
        spec_load_segment(bytes, base, phs[i]) is None,
    ensures
        spec_segments(bytes, base, phs) is None,
    decreases phs.len(),
{
    if i < phs.len() - 1 {
        assert(phs.drop_last()[i] == phs[i]);
        lemma_segments_failure(bytes, base, phs.drop_last(), i);
    }
}

/// The memory image holds one segment per loadable program header, in file
/// order; each sits at the header's relocated virtual address, holds
/// `max(p_filesz, p_memsz)` bytes copied from the file and zero-filled beyond
/// `p_filesz`, and carries the header's mapped permission flags.
pub proof fn lemma_memory_segments(
    bytes: Seq<u8>,
    base: u64,
    phs: Seq<ProgramHeader>,
    segs: Seq<SegmentView>,
)
    requires
        spec_segments(bytes, base, phs) == Some(segs),
    ensures
        segs.len() == load_headers(phs).len(),
        forall|i: int|
            0 <= i < segs.len() ==> #[trigger] segs[i] == spec_load_segment(
                bytes,
                base,
                load_headers(phs)[i],
            )->Some_0,
        forall|i: int|
            0 <= i < segs.len() ==> (#[trigger] segs[i]).address == wadd(
                load_headers(phs)[i].p_vaddr,
                base,
            ) && segs[i].bytes.len() == (if load_headers(phs)[i].p_memsz
                > load_headers(phs)[i].p_filesz {
                load_headers(phs)[i].p_memsz
            } else {
                load_headers(phs)[i].p_filesz
            }) && segs[i].permissions == spec_permissions(load_headers(phs)[i].p_flags) && (forall|
                j: int,
            |
                load_headers(phs)[i].p_filesz <= j < segs[i].bytes.len()
                    ==> #[trigger] segs[i].bytes[j] == 0u8),
    decreases phs.len(),
{
    if phs.len() > 0 {
        let rest = spec_segments(bytes, base, phs.drop_last())->Some_0;
        lemma_memory_segments(bytes, base, phs.drop_last(), rest);
    }
}


/// The value of the first dynamic entry tagged `DT_STRTAB`, in file order.
pub open spec fn first_strtab(dyns: Seq<DynEntry>) -> Option<u64>
    decreases dyns.len(),
{
    if dyns.len() == 0 {
        None
    } else if dyns[0].d_tag == DT_STRTAB {
        Some(dyns[0].d_val)
    } else {
        first_strtab(dyns.drop_first())
    }
}

/// Whether the section's address range contains `addr`.
pub open spec fn section_covers(sh: SectionHeader, addr: u64) -> bool {
    sh.sh_addr <= addr && addr - sh.sh_addr < sh.sh_size
}

/// The file range (offset, size) of the string table at virtual address
/// `addr`: the tail of the last section whose address range contains `addr`,
/// from `addr` to the section's end. `None` where no section covers `addr`.
pub open spec fn strtab_range(shs: Seq<SectionHeader>, addr: u64) -> Option<(int, int)>
    decreases shs.len(),
{
    if shs.len() == 0 {
        None
    } else if section_covers(shs.last(), addr) {
        Some(
            (
                shs.last().sh_offset + (addr - shs.last().sh_addr),
                shs.last().sh_size - (addr - shs.last().sh_addr),
            ),
        )
    } else {
        strtab_range(shs.drop_last(), addr)
    }
}

/// The names of the entries tagged `DT_NEEDED`, in file order, each resolved
/// at its value's offset into the string table. `None` where some needed
/// entry's name cannot be resolved.
pub open spec fn spec_needed_names(dyns: Seq<DynEntry>, table: Seq<u8>) -> Option<Seq<Seq<char>>>
    decreases dyns.len(),
{
    if dyns.len() == 0 {
        Some(Seq::empty())
    } else {
        match spec_needed_names(dyns.drop_last(), table) {
            None => None,
            Some(s) => {
                if dyns.last().d_tag == DT_NEEDED {
                    match strtab_string(table, dyns.last().d_val) {
                        None => None,
                        Some(nm) => Some(s.push(nm)),
                    }
                } else {
                    Some(s)
                }
            },
        }
    }
}

/// A needed entry whose name cannot be resolved makes the whole list fail.
proof fn lemma_needed_failure(dyns: Seq<DynEntry>, table: Seq<u8>, i: int)
    requires
        0 <= i < dyns.len(),
        dyns[i].d_tag == DT_NEEDED,
        strtab_string(table, dyns[i].d_val) is None,
    ensures
        spec_needed_names(dyns, table) is None,
    decreases dyns.len(),
{
    if i < dyns.len() - 1 {
        assert(dyns.drop_last()[i] == dyns[i]);
        lemma_needed_failure(dyns.drop_last(), table, i);
    }
}

/// What `dt_needed` returns on an image over `bytes` at `base`: the needed
/// shared-library names in file order, or the error the lookup fails with.
pub open spec fn spec_dt_needed(bytes: Seq<u8>, base: u64) -> Result<Seq<Seq<char>>, Error> {
    match elf_parse(bytes) {
        None => Err(Error::MalformedInput),
        Some(ev) => {
            if spec_segments(bytes, base, ev.program_headers) is None {
                Err(Error::MalformedInput)
            } else {
                match ev.dynamic {
                    None => Ok(Seq::empty()),
                    Some(dyns) => match first_strtab(dyns) {
                        None => Ok(Seq::empty()),
                        Some(addr) => match strtab_range(ev.section_headers, addr) {
                            None => Err(Error::InternalInvariantViolation),
                            Some(range) => {
                                if range.0 + range.1 > bytes.len() {
                                    Err(Error::MalformedInput)
                                } else {
                                    match spec_needed_names(
                                        dyns,
                                        bytes.subrange(range.0, range.0 + range.1),
                                    ) {
                                        None => Err(Error::MalformedInput),
                                        Some(names) => Ok(names),
                                    }
                                }
                            },
                        },
                    },
                }
            }
        },
    }
}

/// The value of the first dynamic entry tagged `DT_STRTAB`, scanned in file
/// order.
fn find_strtab(dyns: &Vec<DynEntry>) -> (r: Option<u64>)
    ensures
        r == first_strtab(dyns@),
{
    let mut i: usize = 0;
    proof {
        assert(dyns@.skip(0) =~= dyns@);
    }
    #[verifier::loop_isolation(false)]
    while i < dyns.len()
        invariant
            i <= dyns.len(),
            first_strtab(dyns@) == first_strtab(dyns@.skip(i as int)),
        decreases dyns.len() - i,
    {
        proof {
            assert(dyns@.skip(i as int)[0] == dyns@[i as int]);
            assert(dyns@.skip(i as int).drop_first() =~= dyns@.skip(i + 1));
        }
        if dyns[i].d_tag == DT_STRTAB {
            return Some(dyns[i].d_val);
        }
        i = i + 1;
    }
    proof {
        assert(dyns@.skip(dyns@.len() as int) =~= Seq::<DynEntry>::empty());
    }
    None
}

/// The position of the last section whose address range contains `addr`.
fn find_strtab_section(shs: &Vec<SectionHeader>, addr: u64) -> (r: Option<usize>)
    ensures
        match r {
            Some(i) => i < shs@.len() && section_covers(shs@[i as int], addr) && strtab_range(
                shs@,
                addr,
            ) == Some(
                (
                    shs@[i as int].sh_offset + (addr - shs@[i as int].sh_addr),
                    shs@[i as int].sh_size - (addr - shs@[i as int].sh_addr),
                ),
            ),
            None => strtab_range(shs@, addr) is None,
        },
{
    let mut i: usize = shs.len();
    proof {
        assert(shs@.take(shs@.len() as int) =~= shs@);
    }
    #[verifier::loop_isolation(false)]
    while i > 0
        invariant
            i <= shs.len(),
            strtab_range(shs@, addr) == strtab_range(shs@.take(i as int), addr),
        decreases i,
    {
        i = i - 1;
        proof {
            assert(shs@.take(i + 1).drop_last() =~= shs@.take(i as int));
            assert(shs@.take(i + 1).last() == shs@[i as int]);
        }
        let sh = shs[i];
        if sh.sh_addr <= addr && addr - sh.sh_addr < sh.sh_size {
            return Some(i);
        }
    }
    proof {
        assert(shs@.take(0) =~= Seq::<SectionHeader>::empty());
    }
    None
}


/// Whether a symbol contributes a function entry: it is function-typed and
/// has a nonzero value.
pub open spec fn keeps_symbol(s: SymbolView) -> bool {
    s.function && s.value != 0
}

/// The function entries contributed by a symbol table: one per function-typed
/// symbol with a nonzero value, in table order, relocated by `base` and named
/// by the symbol's name.
pub open spec fn symbol_entries(syms: Seq<SymbolView>, base: u64) -> Seq<FunctionEntryView>
    decreases syms.len(),
{
    if syms.len() == 0 {
        Seq::empty()
    } else {
        let rest = symbol_entries(syms.drop_last(), base);
        if keeps_symbol(syms.last()) {
            rest.push(
                FunctionEntryView {
                    address: wadd(syms.last().value, base),
                    name: Some(syms.last().name),
                },
            )
        } else {
            rest
        }
    }
}

/// The unrelocated values of the symbols that contribute function entries.
pub open spec fn symbol_values(syms: Seq<SymbolView>) -> Set<u64>
    decreases syms.len(),
{
    if syms.len() == 0 {
        Set::empty()
    } else {
        let rest = symbol_values(syms.drop_last());
        if keeps_symbol(syms.last()) {
            rest.insert(syms.last().value)
        } else {
            rest
        }
    }
}

/// The function entries contributed by the user-declared addresses: one per
/// address not already covered, in declaration order, relocated by `base` and
/// carrying a synthesized name. Coverage is judged on the unrelocated
/// address.
pub open spec fn user_entries(users: Seq<u64>, covered: Set<u64>, base: u64) -> Seq<
    FunctionEntryView,
>
    decreases users.len(),
{
    if users.len() == 0 {
        Seq::empty()
    } else {
        let rest = user_entries(users.drop_last(), covered, base);
        if covered.contains(users.last()) {
            rest
        } else {
            rest.push(
                FunctionEntryView {
                    address: wadd(users.last(), base),
                    name: Some(user_function_name_chars(users.last())),
                },
            )
        }
    }
}

/// What `function_entries` returns for a parsed file `ev` with user-declared
/// addresses `users` at base address `base`: the dynamic-symbol entries, the
/// regular-symbol entries, the declared entry point where no symbol already
/// covers its unrelocated address, and the user-declared entries not covered
/// by any of the former.
pub open spec fn spec_function_entries(ev: ElfView, users: Seq<u64>, base: u64) -> Seq<
    FunctionEntryView,
> {
    let symbol_part = symbol_entries(ev.dynsyms, base) + symbol_entries(ev.syms, base);
    let covered = symbol_values(ev.dynsyms).union(symbol_values(ev.syms));
    let with_entry = if covered.contains(ev.header.entry) {
        symbol_part
    } else {
        symbol_part.push(FunctionEntryView { address: wadd(ev.header.entry, base), name: None })
    };
    with_entry + user_entries(users, covered.insert(ev.header.entry), base)
}

/// Whether `v` holds `x`.
fn contains_u64(v: &Vec<u64>, x: u64) -> (r: bool)
    ensures
        r == v@.contains(x),
{
    let mut i: usize = 0;
    #[verifier::loop_isolation(false)]
    while i < v.len()
        invariant
            i <= v.len(),
            forall|j: int| 0 <= j < i ==> v@[j] != x,
        decreases v.len() - i,
    {
        if v[i] == x {
            return true;
        }
        i = i + 1;
    }
    false
}


/// An entry point already covered by a function-typed symbol's unrelocated
/// value contributes no entry of its own: the total count equals the symbol
/// and user entries alone. An uncovered entry point contributes exactly one.
pub proof fn lemma_entry_point_coverage(ev: ElfView, users: Seq<u64>, base: u64)
    ensures
        ({
            let covered = symbol_values(ev.dynsyms).union(symbol_values(ev.syms));
            let n = symbol_entries(ev.dynsyms, base).len() + symbol_entries(ev.syms, base).len()
                + user_entries(users, covered.insert(ev.header.entry), base).len();
            spec_function_entries(ev, users, base).len() == (if covered.contains(ev.header.entry) {
                n
            } else {
                n + 1
            })
        }),
{
}

/// A file with no dynamic section needs no libraries, and one that defines no
/// symbols yields exactly one function entry: its relocated entry point,
/// unnamed.
pub proof fn lemma_no_dynamic_no_symbols(bytes: Seq<u8>, base: u64, ev: ElfView)
    requires
        elf_parse(bytes) == Some(ev),
        ev.dynamic is None,
        ev.dynsyms.len() == 0,
        ev.syms.len() == 0,
        spec_segments(bytes, base, ev.program_headers) is Some,
    ensures
        spec_dt_needed(bytes, base) == Ok::<Seq<Seq<char>>, Error>(Seq::empty()),
        spec_function_entries(ev, Seq::empty(), base) =~= seq![
            FunctionEntryView { address: wadd(ev.header.entry, base), name: None },
        ],
{
    let covered = symbol_values(ev.dynsyms).union(symbol_values(ev.syms));
    assert(!covered.contains(ev.header.entry));
    assert(symbol_entries(ev.dynsyms, base) =~= Seq::<FunctionEntryView>::empty());
    assert(symbol_entries(ev.syms, base) =~= Seq::<FunctionEntryView>::empty());
    assert(user_entries(Seq::empty(), covered.insert(ev.header.entry), base) =~= Seq::<
        FunctionEntryView,
    >::empty());
}

/// The mathematical value of an `ElfSymbol`.
#[verifier::ext_equal]
pub ghost struct ElfSymbolView {
    pub name: Seq<char>,
    pub address: u64,
}

/// An exported dynamic symbol: its name and its address, not yet relocated by
/// the base address.
#[derive(Debug)]
pub struct ElfSymbol {
    /// The name of the symbol.
    pub name: String,
    /// The address of the symbol, not yet relocated.
    pub address: u64,
}

impl View for ElfSymbol {
    type V = ElfSymbolView;

    open spec fn view(&self) -> ElfSymbolView {
        ElfSymbolView { name: self.name@, address: self.address }
    }
}

impl ElfSymbol {
    /// Builds a symbol from its name and unrelocated address.
    pub fn new(name: String, address: u64) -> (r: ElfSymbol)
        ensures
            r@ == (ElfSymbolView { name: name@, address }),
    {
        ElfSymbol { name, address }
    }

    /// The name of this symbol.
    pub fn name(&self) -> (r: &str)
        ensures
            r@ == self@.name,
    {
        self.name.as_str()
    }

    /// The unrelocated address of this symbol.
    pub fn address(&self) -> (r: u64)
        ensures
            r == self@.address,
    {
        self.address
    }
}

/// The mathematical value of a `FunctionEntry`.
#[verifier::ext_equal]
pub ghost struct FunctionEntryView {
    pub address: u64,
    pub name: Option<Seq<char>>,
}

/// A discovered or declared address believed to start a callable function,
/// with an optional symbolic name.
#[derive(Debug)]
pub struct FunctionEntry {
    /// The relocated address of the entry.
    pub address: u64,
    /// The symbolic name, where one is known.
    pub name: Option<String>,
}

impl View for FunctionEntry {
    type V = FunctionEntryView;

    open spec fn view(&self) -> FunctionEntryView {
        FunctionEntryView {
            address: self.address,
            name: match self.name {
                Some(n) => Some(n@),
                None => None,
            },
        }
    }
}

impl FunctionEntry {
    /// Builds a function entry from its relocated address and optional name.
    pub fn new(address: u64, name: Option<String>) -> (r: FunctionEntry)
        ensures
            r@.address == address,
            r@.name == (match name {
                Some(n) => Some(n@),
                None => None::<Seq<char>>,
            }),
    {
        FunctionEntry { address, name }
    }

    /// The relocated address of this entry.
    pub fn address(&self) -> (r: u64)
        ensures
            r == self@.address,
    {
        self.address
    }

    /// The symbolic name of this entry, where one is known.
    pub fn name(&self) -> (r: &Option<String>)
        ensures
            r is Some <==> self@.name is Some,
            r matches Some(n) ==> self@.name == Some(n@),
    {
        &self.name
    }
}

/// The architecture tags this loader recognizes.
#[derive(Clone, Copy, Debug, PartialEq, Eq, Structural)]
pub enum Architecture {
    /// 32-bit x86.
    X86,
}

/// The mathematical value of an `Elf`.
#[verifier::ext_equal]
pub ghost struct ElfImageView {
    pub base_address: u64,
    pub bytes: Seq<u8>,
    pub user_function_entries: Seq<u64>,
}

/// One ELF image placed at a base address. Parsing is performed anew on each
/// accessor call; nothing of the parse is cached.
#[derive(Debug)]
pub struct Elf {
    /// The address added to every address taken from the file.
    pub base_address: u64,
    /// The raw bytes of the file.
    pub bytes: Vec<u8>,
    /// User-declared function addresses, file-relative.
    pub user_function_entries: Vec<u64>,
}

impl View for Elf {
    type V = ElfImageView;

    open spec fn view(&self) -> ElfImageView {
        ElfImageView {
            base_address: self.base_address,
            bytes: self.bytes@,
            user_function_entries: self.user_function_entries@,
        }
    }
}

impl Elf {
    /// The first sixteen bytes of the buffer were checked to carry the ELF
    /// signature when the image was constructed.
    pub open spec fn wf(&self) -> bool {
        self.bytes@.len() >= 16 && is_elf_magic(self.bytes@)
    }

    /// Builds an image over `bytes`, placed at `base_address`. Fails with
    /// `InvalidFormat` exactly when the buffer is shorter than sixteen bytes
    /// or does not begin with the ELF magic.
    pub fn new(bytes: Vec<u8>, base_address: u64) -> (r: Result<Elf, Error>)
        ensures
            match r {
                Ok(elf) => bytes@.len() >= 16 && is_elf_magic(bytes@) && elf.base_address
                    == base_address && elf.bytes@ == bytes@ && elf.user_function_entries@
                    == Seq::<u64>::empty() && elf.wf(),
                Err(e) => e == Error::InvalidFormat && !(bytes@.len() >= 16 && is_elf_magic(
                    bytes@,
                )),
            },
    {
        if bytes.len() < 16 {
            return Err(Error::InvalidFormat);
        }
        if !peek_is_elf(&bytes) {
            return Err(Error::InvalidFormat);
        }
        let elf = Elf { base_address, bytes, user_function_entries: Vec::new() };
        proof {
            assert(elf.user_function_entries@ =~= Seq::<u64>::empty());
        }
        Ok(elf)
    }

    /// The base address this image was placed at.
    pub fn base_address(&self) -> (r: u64)
        ensures
            r == self.base_address,
    {
        self.base_address
    }

    /// Declares a function entry at a file-relative address.
    pub fn add_user_function(&mut self, address: u64)
        ensures
            final(self).base_address == old(self).base_address,
            final(self).bytes@ == old(self).bytes@,
            final(self).user_function_entries@ == old(self).user_function_entries@.push(address),
    {
        self.user_function_entries.push(address);
    }

    /// The file header's declared entry point, not relocated by the base
    /// address. Fails with `MalformedInput` exactly when the buffer does not
    /// parse.
    pub fn program_entry(&self) -> (r: Result<u64, Error>)
        ensures
            match r {
                Ok(entry) => elf_parse(self.bytes@) matches Some(ev) && entry == ev.header.entry,
                Err(e) => e == Error::MalformedInput && elf_parse(self.bytes@) is None,
            },
    {
        match parse_header(&self.bytes) {
            Some(header) => Ok(header.entry),
            None => Err(Error::MalformedInput),
        }
    }

    /// The architecture tag of the file. Fails with `UnsupportedArchitecture`
    /// for any machine tag but the one recognized, and with `MalformedInput`
    /// exactly when the buffer does not parse.
    pub fn architecture(&self) -> (r: Result<Architecture, Error>)
        ensures
            match r {
                Ok(arch) => elf_parse(self.bytes@) matches Some(ev) && ev.header.machine == EM_386
                    && arch == Architecture::X86,
                Err(e) => match elf_parse(self.bytes@) {
                    Some(ev) => e == Error::UnsupportedArchitecture && ev.header.machine != EM_386,
                    None => e == Error::MalformedInput,
                },
            },
    {
        match parse_header(&self.bytes) {
            Some(header) => {
                if header.machine == EM_386 {
                    Ok(Architecture::X86)
                } else {
                    Err(Error::UnsupportedArchitecture)
                }
            },
            None => Err(Error::MalformedInput),
        }
    }


    /// The memory image of this file: one segment per loadable program
    /// header, sliced from the file bytes, zero-extended to the in-memory
    /// size and placed at the relocated virtual address. Fails with
    /// `MalformedInput` exactly when the buffer does not parse or a loadable
    /// header describes an out-of-range byte slice.
    pub fn memory(&self) -> (r: Result<Memory, Error>)
        ensures
            match r {
                Ok(m) => elf_parse(self.bytes@) matches Some(ev) && spec_segments(
                    self.bytes@,
                    self.base_address,
                    ev.program_headers,
                ) == Some(m@),
                Err(e) => e == Error::MalformedInput && (match elf_parse(self.bytes@) {
                    Some(ev) => spec_segments(
                        self.bytes@,
                        self.base_address,
                        ev.program_headers,
                    ) is None,
                    None => true,
                }),
            },
    {
        let phs = match parse_program_headers(&self.bytes) {
            Some(v) => v,
            None => {
                return Err(Error::MalformedInput);
            },
        };
        let ghost ev = elf_parse(self.bytes@)->Some_0;
        let mut memory = Memory::new();
        let mut i: usize = 0;
        #[verifier::loop_isolation(false)]
        while i < phs.len()
            invariant
                i <= phs.len(),
                phs@ == ev.program_headers,
                spec_segments(self.bytes@, self.base_address, phs@.take(i as int)) == Some(
                    memory@,
                ),
            decreases phs.len() - i,
        {
            proof {
                assert(phs@.take(i + 1).drop_last() =~= phs@.take(i as int));
            }
            let ph = phs[i];
            if ph.p_type == PT_LOAD {
                let blen = self.bytes.len() as u64;
                if ph.p_filesz > u64::MAX - ph.p_offset {
                    proof {
                        assert(self.bytes@.len() == blen && blen <= u64::MAX);
                        assert(spec_load_segment(self.bytes@, self.base_address, ph) is None);
                        lemma_segments_failure(
                            self.bytes@,
                            self.base_address,
                            ev.program_headers,
                            i as int,
                        );
                    }
                    return Err(Error::MalformedInput);
                }
                let end = ph.p_offset + ph.p_filesz;
                if end > blen || ph.p_memsz > usize::MAX as u64 {
                    proof {
                        assert(spec_load_segment(self.bytes@, self.base_address, ph) is None);
                        lemma_segments_failure(
                            self.bytes@,
                            self.base_address,
                            ev.program_headers,
                            i as int,
                        );
                    }
                    return Err(Error::MalformedInput);
                }
                let off = ph.p_offset as usize;
                let endu = end as usize;
                let mut seg_bytes: Vec<u8> = Vec::new();
                let mut j: usize = off;
                while j < endu
                    invariant
                        off <= j <= endu,
                        endu <= self.bytes.len(),
                        seg_bytes@ == self.bytes@.subrange(off as int, j as int),
                    decreases endu - j,
                {
                    seg_bytes.push(self.bytes[j]);
                    proof {
                        assert(seg_bytes@ =~= self.bytes@.subrange(off as int, j + 1));
                    }
                    j = j + 1;
                }
                if ph.p_memsz > ph.p_filesz {
                    let fill = (ph.p_memsz - ph.p_filesz) as usize;
                    let ghost copied = seg_bytes@;
                    let mut k: usize = 0;
                    while k < fill
                        invariant
                            k <= fill,
                            seg_bytes@ == copied + zero_bytes(k as nat),
                        decreases fill - k,
                    {
                        seg_bytes.push(0u8);
                        proof {
                            assert(seg_bytes@ =~= copied + zero_bytes((k + 1) as nat));
                        }
                        k = k + 1;
                    }
                }
                let mut permissions: u32 = PERM_NONE;
                if ph.p_flags & PF_R != 0 {
                    permissions = permissions + PERM_READ;
                }
                if ph.p_flags & PF_W != 0 {
                    permissions = permissions + PERM_WRITE;
                }
                if ph.p_flags & PF_X != 0 {
                    permissions = permissions + PERM_EXECUTE;
                }
                let address = ph.p_vaddr.wrapping_add(self.base_address);
                let segment = MemorySegment::new(address, seg_bytes, permissions);
                proof {
                    assert(segment@ =~= spec_load_segment(
                        self.bytes@,
                        self.base_address,
                        ph,
                    )->Some_0);
                }
                memory.add_segment(segment);
                proof {
                    assert(spec_segments(self.bytes@, self.base_address, phs@.take(i + 1))
                        == Some(memory@));
                }
            } else {
                proof {
                    assert(spec_segments(self.bytes@, self.base_address, phs@.take(i + 1))
                        == Some(memory@));
                }
            }
            i = i + 1;
        }
        proof {
            assert(phs@.take(phs@.len() as int) =~= ev.program_headers);
        }
        Ok(memory)
    }


    /// The names of the shared libraries this file declares it needs: the
    /// string at each `DT_NEEDED` entry's offset into the dynamic string
    /// table, in file order. Returns an empty list where the file has no
    /// dynamic section or no `DT_STRTAB` entry. Fails with
    /// `InternalInvariantViolation` where a string-table address was found
    /// but no section header covers it, and with `MalformedInput` exactly
    /// where the buffer does not parse, its memory image cannot be built, the
    /// string table's byte range lies outside the buffer, or a needed entry's
    /// name cannot be resolved.
    pub fn dt_needed(&self) -> (r: Result<Vec<String>, Error>)
        ensures
            ({
                let s = spec_dt_needed(self.bytes@, self.base_address);
                match r {
                    Ok(v) => s matches Ok(names) && v@.map(|i: int, n: String| n@) == names,
                    Err(e) => s == Err::<Seq<Seq<char>>, Error>(e),
                }
            }),
    {
        match self.memory() {
            Ok(_) => (),
            Err(e) => {
                return Err(e);
            },
        }
        let ghost ev = elf_parse(self.bytes@)->Some_0;
        let dynamic = match parse_dynamic(&self.bytes) {
            Some(d) => d,
            None => {
                proof {
                    assert(false);
                }
                return Err(Error::MalformedInput);
            },
        };
        let dyns = match dynamic {
            Some(d) => d,
            None => {
                let v: Vec<String> = Vec::new();
                proof {
                    assert(v@.map(|i: int, n: String| n@) =~= Seq::<Seq<char>>::empty());
                }
                return Ok(v);
            },
        };
        let strtab_address = match find_strtab(&dyns) {
            Some(a) => a,
            None => {
                let v: Vec<String> = Vec::new();
                proof {
                    assert(v@.map(|i: int, n: String| n@) =~= Seq::<Seq<char>>::empty());
                }
                return Ok(v);
            },
        };
        let shs = match parse_section_headers(&self.bytes) {
            Some(v) => v,
            None => {
                proof {
                    assert(false);
                }
                return Err(Error::MalformedInput);
            },
        };
        let section = match find_strtab_section(&shs, strtab_address) {
            Some(i) => shs[i],
            None => {
                return Err(Error::InternalInvariantViolation);
            },
        };
        let delta = strtab_address - section.sh_addr;
        let blen = self.bytes.len() as u64;
        if delta > u64::MAX - section.sh_offset {
            return Err(Error::MalformedInput);
        }
        let start = section.sh_offset + delta;
        let size = section.sh_size - delta;
        if size > u64::MAX - start {
            return Err(Error::MalformedInput);
        }
        if start + size > blen {
            return Err(Error::MalformedInput);
        }
        let startu = start as usize;
        let endu = (start + size) as usize;
        let mut table: Vec<u8> = Vec::new();
        let mut j: usize = startu;
        #[verifier::loop_isolation(false)]
        while j < endu
            invariant
                startu <= j <= endu,
                endu <= self.bytes.len(),
                table@ == self.bytes@.subrange(startu as int, j as int),
            decreases endu - j,
        {
            table.push(self.bytes[j]);
            proof {
                assert(table@ =~= self.bytes@.subrange(startu as int, j + 1));
            }
            j = j + 1;
        }
        let ghost spec_table = self.bytes@.subrange(start as int, start + size);
        proof {
            assert(table@ =~= spec_table);
        }
        let mut v: Vec<String> = Vec::new();
        let mut i: usize = 0;
        #[verifier::loop_isolation(false)]
        while i < dyns.len()
            invariant
                i <= dyns.len(),
                spec_needed_names(dyns@.take(i as int), spec_table) == Some(
                    v@.map(|k: int, n: String| n@),
                ),
                table@ == spec_table,
            decreases dyns.len() - i,
        {
            proof {
                assert(dyns@.take(i + 1).drop_last() =~= dyns@.take(i as int));
                assert(dyns@.take(i + 1).last() == dyns@[i as int]);
            }
            if dyns[i].d_tag == DT_NEEDED {
                match strtab_get(&table, dyns[i].d_val) {
                    Some(name) => {
                        let ghost prev = v@;
                        v.push(name);
                        proof {
                            assert(v@.map(|k: int, n: String| n@) =~= prev.map(
                                |k: int, n: String| n@,
                            ).push(v@.last()@));
                        }
                    },
                    None => {
                        proof {
                            lemma_needed_failure(dyns@, spec_table, i as int);
                        }
                        return Err(Error::MalformedInput);
                    },
                }
            }
            i = i + 1;
        }
        proof {
            assert(dyns@.take(dyns@.len() as int) =~= dyns@);
        }
        Ok(v)
    }


    /// The discovered function entries of this file: the function-typed
    /// dynamic symbols with nonzero value, then the function-typed regular
    /// symbols with nonzero value, then the declared entry point where no
    /// symbol already covers its unrelocated address, then the user-declared
    /// addresses not covered by any of the former — each relocated by the
    /// base address. Fails with `MalformedInput` exactly when the buffer does
    /// not parse.
    pub fn function_entries(&self) -> (r: Result<Vec<FunctionEntry>, Error>)
        ensures
            match r {
                Ok(v) => elf_parse(self.bytes@) matches Some(ev) && v@.map(
                    |i: int, e: FunctionEntry| e@,
                ) == spec_function_entries(ev, self.user_function_entries@, self.base_address),
                Err(e) => e == Error::MalformedInput && elf_parse(self.bytes@) is None,
            },
    {
        let dynsyms = match parse_dynsyms(&self.bytes) {
            Some(v) => v,
            None => {
                return Err(Error::MalformedInput);
            },
        };
        let syms = match parse_syms(&self.bytes) {
            Some(v) => v,
            None => {
                proof {
                    assert(false);
                }
                return Err(Error::MalformedInput);
            },
        };
        let header = match parse_header(&self.bytes) {
            Some(h) => h,
            None => {
                proof {
                    assert(false);
                }
                return Err(Error::MalformedInput);
            },
        };
        let ghost ev = elf_parse(self.bytes@)->Some_0;
        let mut entries: Vec<FunctionEntry> = Vec::new();
        let mut added: Vec<u64> = Vec::new();
        let mut i: usize = 0;
        proof {
            assert(ev.dynsyms.take(0) =~= Seq::<SymbolView>::empty());
            assert(entries@.map(|k: int, e: FunctionEntry| e@) =~= Seq::<
                FunctionEntryView,
            >::empty());
        }
        #[verifier::loop_isolation(false)]
        while i < dynsyms.len()
            invariant
                i <= dynsyms.len(),
                entries@.map(|k: int, e: FunctionEntry| e@) == symbol_entries(
                    ev.dynsyms.take(i as int),
                    self.base_address,
                ),
                forall|x: u64|
                    added@.contains(x) <==> symbol_values(ev.dynsyms.take(i as int)).contains(x),
            decreases dynsyms.len() - i,
        {
            proof {
                assert(ev.dynsyms.take(i + 1).drop_last() =~= ev.dynsyms.take(i as int));
                assert(dynsyms@.map(|j: int, x: SymbolRecord| x@)[i as int] == dynsyms@[i as int]@);
            }
            let sym = &dynsyms[i];
            let ghost prev_entries = entries@;
            let ghost prev_added = added@;
            if sym.function && sym.value != 0 {
                entries.push(
                    FunctionEntry::new(
                        sym.value.wrapping_add(self.base_address),
                        Some(sym.name.clone()),
                    ),
                );
                added.push(sym.value);
                proof {
                    assert(entries@.map(|k: int, e: FunctionEntry| e@) =~= prev_entries.map(
                        |k: int, e: FunctionEntry| e@,
                    ).push(entries@.last()@));
                    assert(added@ =~= prev_added.push(sym.value));
                    assert forall|x: u64|
                        added@.contains(x) <==> symbol_values(
                            ev.dynsyms.take(i + 1),
                        ).contains(x) by {
                        if added@.contains(x) {
                            let w = choose|w: int| 0 <= w < added@.len() && added@[w] == x;
                            if w < prev_added.len() {
                                assert(prev_added.contains(x));
                            }
                        }
                        if prev_added.contains(x) {
                            let w = choose|w: int|
                                0 <= w < prev_added.len() && prev_added[w] == x;
                            assert(added@[w] == x);
                        }
                        if x == sym.value {
                            assert(added@[added@.len() - 1] == x);
                        }
                    }
                }
            }
            i = i + 1;
        }
        proof {
            assert(ev.dynsyms.take(dynsyms@.len() as int) =~= ev.dynsyms);
            assert(ev.syms.take(0) =~= Seq::<SymbolView>::empty());
        }
        let ghost dyn_part = symbol_entries(ev.dynsyms, self.base_address);
        let mut i: usize = 0;
        #[verifier::loop_isolation(false)]
        while i < syms.len()
            invariant
                i <= syms.len(),
                entries@.map(|k: int, e: FunctionEntry| e@) == dyn_part + symbol_entries(
                    ev.syms.take(i as int),
                    self.base_address,
                ),
                forall|x: u64|
                    added@.contains(x) <==> symbol_values(ev.dynsyms).union(
                        symbol_values(ev.syms.take(i as int)),
                    ).contains(x),
            decreases syms.len() - i,
        {
            proof {
                assert(ev.syms.take(i + 1).drop_last() =~= ev.syms.take(i as int));
                assert(syms@.map(|j: int, x: SymbolRecord| x@)[i as int] == syms@[i as int]@);
            }
            let sym = &syms[i];
            let ghost prev_entries = entries@;
            let ghost prev_added = added@;
            if sym.function && sym.value != 0 {
                entries.push(
                    FunctionEntry::new(
                        sym.value.wrapping_add(self.base_address),
                        Some(sym.name.clone()),
                    ),
                );
                added.push(sym.value);
                proof {
                    assert(entries@.map(|k: int, e: FunctionEntry| e@) =~= prev_entries.map(
                        |k: int, e: FunctionEntry| e@,
                    ).push(entries@.last()@));
                    assert(added@ =~= prev_added.push(sym.value));
                    assert forall|x: u64|
                        added@.contains(x) <==> symbol_values(ev.dynsyms).union(
                            symbol_values(ev.syms.take(i + 1)),
                        ).contains(x) by {
                        if added@.contains(x) {
                            let w = choose|w: int| 0 <= w < added@.len() && added@[w] == x;
                            if w < prev_added.len() {
                                assert(prev_added.contains(x));
                            }
                        }
                        if prev_added.contains(x) {
                            let w = choose|w: int|
                                0 <= w < prev_added.len() && prev_added[w] == x;
                            assert(added@[w] == x);
                        }
                        if x == sym.value {
                            assert(added@[added@.len() - 1] == x);
                        }
                    }
                }
            }
            i = i + 1;
        }
        proof {
            assert(ev.syms.take(syms@.len() as int) =~= ev.syms);
        }
        let ghost symbol_part = dyn_part + symbol_entries(ev.syms, self.base_address);
        let ghost covered = symbol_values(ev.dynsyms).union(symbol_values(ev.syms));
        let ghost prev_entries = entries@;
        if !contains_u64(&added, header.entry) {
            entries.push(FunctionEntry::new(header.entry.wrapping_add(self.base_address), None));
            proof {
                assert(entries@.map(|k: int, e: FunctionEntry| e@) =~= prev_entries.map(
                    |k: int, e: FunctionEntry| e@,
                ).push(entries@.last()@));
            }
        }
        let ghost with_entry = entries@.map(|k: int, e: FunctionEntry| e@);
        let ghost prev_added = added@;
        added.push(header.entry);
        proof {
            assert(added@ =~= prev_added.push(header.entry));
            assert forall|x: u64|
                added@.contains(x) <==> covered.insert(ev.header.entry).contains(x) by {
                if added@.contains(x) {
                    let w = choose|w: int| 0 <= w < added@.len() && added@[w] == x;
                    if w < prev_added.len() {
                        assert(prev_added.contains(x));
                    }
                }
                if prev_added.contains(x) {
                    let w = choose|w: int| 0 <= w < prev_added.len() && prev_added[w] == x;
                    assert(added@[w] == x);
                }
                if x == ev.header.entry {
                    assert(added@[added@.len() - 1] == x);
                }
            }
            assert(self.user_function_entries@.take(0) =~= Seq::<u64>::empty());
        }
        let ghost covered_all = covered.insert(ev.header.entry);
        let mut i: usize = 0;
        #[verifier::loop_isolation(false)]
        while i < self.user_function_entries.len()
            invariant
                i <= self.user_function_entries.len(),
                entries@.map(|k: int, e: FunctionEntry| e@) == with_entry + user_entries(
                    self.user_function_entries@.take(i as int),
                    covered_all,
                    self.base_address,
                ),
                forall|x: u64| added@.contains(x) <==> covered_all.contains(x),
            decreases self.user_function_entries.len() - i,
        {
            proof {
                assert(self.user_function_entries@.take(i + 1).drop_last()
                    =~= self.user_function_entries@.take(i as int));
            }
            let user = self.user_function_entries[i];
            let ghost prev_entries = entries@;
            if !contains_u64(&added, user) {
                entries.push(
                    FunctionEntry::new(
                        user.wrapping_add(self.base_address),
                        Some(user_function_name(user)),
                    ),
                );
                proof {
                    assert(entries@.map(|k: int, e: FunctionEntry| e@) =~= prev_entries.map(
                        |k: int, e: FunctionEntry| e@,
                    ).push(entries@.last()@));
                }
            }
            i = i + 1;
        }
        proof {
            assert(self.user_function_entries@.take(self.user_function_entries@.len() as int)
                =~= self.user_function_entries@);
        }
        Ok(entries)
    }

    /// The exported-function view of `dynsyms`: every function-typed symbol
    /// with a nonzero section index, in table order, with its unrelocated
    /// value.
    pub open spec fn spec_exported_functions(dynsyms: Seq<SymbolView>) -> Seq<ElfSymbolView>
        decreases dynsyms.len(),
    {
        if dynsyms.len() == 0 {
            Seq::empty()
        } else {
            let rest = Self::spec_exported_functions(dynsyms.drop_last());
            let last = dynsyms.last();
            if last.function && last.shndx != 0 {
                rest.push(ElfSymbolView { name: last.name, address: last.value })
            } else {
                rest
            }
        }
    }

    /// Every dynamic symbol that is function-typed and defined in some
    /// section, with its unrelocated value. Fails with `MalformedInput`
    /// exactly when the buffer does not parse.
    pub fn exported_functions(&self) -> (r: Result<Vec<ElfSymbol>, Error>)
        ensures
            match r {
                Ok(v) => elf_parse(self.bytes@) matches Some(ev) && v@.map(
                    |i: int, s: ElfSymbol| s@,
                ) == Self::spec_exported_functions(ev.dynsyms),
                Err(e) => e == Error::MalformedInput && elf_parse(self.bytes@) is None,
            },
    {
        let dynsyms = match parse_dynsyms(&self.bytes) {
            Some(v) => v,
            None => {
                return Err(Error::MalformedInput);
            },
        };
        let ghost ev = elf_parse(self.bytes@)->Some_0;
        let mut v: Vec<ElfSymbol> = Vec::new();
        let mut i: usize = 0;
        #[verifier::loop_isolation(false)]
        while i < dynsyms.len()
            invariant
                i <= dynsyms.len(),
                dynsyms@.map(|j: int, s: SymbolRecord| s@) == ev.dynsyms,
                v@.map(|j: int, s: ElfSymbol| s@) =~= Self::spec_exported_functions(
                    ev.dynsyms.take(i as int),
                ),
            decreases dynsyms.len() - i,
        {
            proof {
                assert(ev.dynsyms.take(i + 1).drop_last() =~= ev.dynsyms.take(i as int));
                assert(dynsyms@.map(|j: int, s: SymbolRecord| s@)[i as int] == dynsyms@[i as int]@);
            }
            let sym = &dynsyms[i];
            if sym.function && sym.shndx != 0 {
                let ghost prev = v@;
                v.push(ElfSymbol::new(sym.name.clone(), sym.value));
                proof {
                    assert(v@.map(|j: int, s: ElfSymbol| s@) =~= prev.map(
                        |j: int, s: ElfSymbol| s@,
                    ).push(v@.last()@));
                }
            }
            i = i + 1;
        }
        proof {
            assert(ev.dynsyms.take(dynsyms@.len() as int) =~= ev.dynsyms);
        }
        Ok(v)
    }
}

} // verus!
