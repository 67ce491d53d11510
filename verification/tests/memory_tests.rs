use falcon::elf::ElfSymbol;
use falcon::memory::{Memory, MemorySegment, PERM_READ, PERM_WRITE};

#[test]
fn segments_keep_their_fields() {
    let seg = MemorySegment::new(0x4000, vec![1, 2, 3], PERM_READ);
    assert_eq!(seg.address(), 0x4000);
    assert_eq!(*seg.bytes(), vec![1, 2, 3]);
    assert_eq!(seg.len(), 3);
    assert_eq!(seg.permissions(), PERM_READ);
}

#[test]
fn memory_accepts_overlapping_segments() {
    // no dedup and no overlap resolution at this layer
    let mut memory = Memory::new();
    assert_eq!(memory.len(), 0);
    memory.add_segment(MemorySegment::new(0x1000, vec![1, 2], PERM_READ));
    memory.add_segment(MemorySegment::new(0x1000, vec![3], PERM_WRITE));
    memory.add_segment(MemorySegment::new(0x1001, vec![4], PERM_READ));
    assert_eq!(memory.len(), 3);
    assert_eq!(memory.segments()[0].address(), 0x1000);
    assert_eq!(memory.segments()[1].address(), 0x1000);
    assert_eq!(memory.segments()[2].address(), 0x1001);
}

#[test]
fn memory_duplicate_is_independent() {
    let mut memory = Memory::new();
    memory.add_segment(MemorySegment::new(0x1000, vec![1], PERM_READ));
    let mut copy = memory.duplicate();
    copy.add_segment(MemorySegment::new(0x2000, vec![2], PERM_READ));
    assert_eq!(memory.len(), 1);
    assert_eq!(copy.len(), 2);
    assert_eq!(*copy.segments()[0].bytes(), vec![1]);
}

#[test]
fn elf_symbols_keep_name_and_address() {
    let sym = ElfSymbol::new("memcpy".to_string(), 0x4010);
    assert_eq!(sym.name(), "memcpy");
    assert_eq!(sym.address(), 0x4010);
}
