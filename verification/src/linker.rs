//! Loading and linking of a root binary together with its transitive
//! shared-library dependencies: each loaded object is assigned a
//! non-overlapping base address by fixed-step bump allocation, and their
//! memory images and function entries are unioned into one view.
//!
//! Reading files is outside this crate's reach, so the linker is driven as a
//! state machine: `next_request` says which object to read next and at which
//! base address, and `load_elf` consumes that object's bytes. The loop ends
//! when `next_request` answers `None`. A name already loaded is never
//! requested again, which is what ends mutual dependency cycles.

use vstd::prelude::*;

use crate::elf::{elf_parse, is_elf_magic, spec_dt_needed, spec_function_entries, spec_segments,
    Architecture, Elf, ElfImageView, FunctionEntry, FunctionEntryView};
use crate::error::Error;
use crate::memory::{Memory, SegmentView};

verus! {

/// The address the first library is loaded at, once stepped.
pub const DEFAULT_LIB_BASE: u64 = 0x8000_0000;

/// The distance between the base addresses of consecutively loaded libraries.
pub const LIB_BASE_STEP: u64 = 0x0400_0000;

/// The mathematical value of an `ElfLinker`.
#[verifier::ext_equal]
pub ghost struct ElfLinkerView {
    pub filename: Seq<char>,
    pub loaded: Seq<(Seq<char>, ElfImageView)>,
    pub memory: Seq<SegmentView>,
    pub next_lib_address: u64,
    pub pending: Seq<Seq<char>>,
    pub outstanding: Option<(Seq<char>, u64)>,
}

/// Whether some loaded object is registered under `name`.
pub open spec fn has_key(loaded: Seq<(Seq<char>, ElfImageView)>, name: Seq<char>) -> bool {
    exists|i: int| 0 <= i < loaded.len() && loaded[i].0 == name
}

/// `pending` with its leading already-loaded names dropped: the head of the
/// result, if any, is the next name to request.
pub open spec fn spec_scan(
    pending: Seq<Seq<char>>,
    loaded: Seq<(Seq<char>, ElfImageView)>,
) -> Seq<Seq<char>>
    decreases pending.len(),
{
    if pending.len() == 0 {
        pending
    } else if has_key(loaded, pending[0]) {
        spec_scan(pending.drop_first(), loaded)
    } else {
        pending
    }
}

/// The loaded map with `name` bound to `image`: a binding already present
/// under that name is overwritten in place, otherwise the pair is appended.
pub open spec fn spec_upsert(
    loaded: Seq<(Seq<char>, ElfImageView)>,
    name: Seq<char>,
    image: ElfImageView,
) -> Seq<(Seq<char>, ElfImageView)>
    decreases loaded.len(),
{
    if loaded.len() == 0 {
        seq![(name, image)]
    } else if loaded[0].0 == name {
        seq![(name, image)] + loaded.drop_first()
    } else {
        seq![loaded[0]] + spec_upsert(loaded.drop_first(), name, image)
    }
}

/// What loading one object does: `InvalidFormat` where the bytes carry no ELF
/// signature, else the needed-library names of `dt_needed`, whose error cases
/// subsume a memory image that cannot be built.
pub open spec fn spec_load_result(bytes: Seq<u8>, base: u64) -> Result<Seq<Seq<char>>, Error> {
    if !(bytes.len() >= 16 && is_elf_magic(bytes)) {
        Err(Error::InvalidFormat)
    } else {
        spec_dt_needed(bytes, base)
    }
}

/// The first image registered under `name`, if any.
pub open spec fn spec_lookup(loaded: Seq<(Seq<char>, ElfImageView)>, name: Seq<char>) -> Option<
    ElfImageView,
>
    decreases loaded.len(),
{
    if loaded.len() == 0 {
        None
    } else if loaded[0].0 == name {
        Some(loaded[0].1)
    } else {
        spec_lookup(loaded.drop_first(), name)
    }
}

/// The function entries of all loaded objects, concatenated in map order, or
/// `None` where some object's bytes do not parse.
pub open spec fn spec_all_entries(loaded: Seq<(Seq<char>, ElfImageView)>) -> Option<
    Seq<FunctionEntryView>,
>
    decreases loaded.len(),
{
    if loaded.len() == 0 {
        Some(Seq::empty())
    } else {
        match spec_all_entries(loaded.drop_last()) {
            None => None,
            Some(s) => match elf_parse(loaded.last().1.bytes) {
                None => None,
                Some(ev) => Some(
                    s + spec_function_entries(
                        ev,
                        loaded.last().1.user_function_entries,
                        loaded.last().1.base_address,
                    ),
                ),
            },
        }
    }
}

/// An object whose bytes do not parse makes the concatenation fail.
proof fn lemma_all_entries_failure(loaded: Seq<(Seq<char>, ElfImageView)>, i: int)
    requires
        0 <= i < loaded.len(),
        elf_parse(loaded[i].1.bytes) is None,
    ensures
        spec_all_entries(loaded) is None,
    decreases loaded.len(),
{
    if i < loaded.len() - 1 {
        assert(loaded.drop_last()[i] == loaded[i]);
        lemma_all_entries_failure(loaded.drop_last(), i);
    }
}

/// Links a root binary and its transitive shared-library dependencies into
/// one address space.
#[derive(Debug)]
pub struct ElfLinker {
    /// The base file name of the root binary; the root is registered under
    /// this key, and `program_entry` and `architecture` describe it.
    pub filename: String,
    /// The loaded objects, keyed by base file name; keys are unique.
    pub loaded: Vec<(String, Elf)>,
    /// The accumulated memory image of everything loaded.
    pub memory: Memory,
    /// The bump allocator for library base addresses; stepped before use.
    pub next_lib_address: u64,
    /// The needed-library names still to consider, depth-first: the head is
    /// considered next.
    pub pending: Vec<String>,
    /// The object whose bytes the caller was asked for and has not yet
    /// handed in.
    pub outstanding: Option<(String, u64)>,
}

impl View for ElfLinker {
    type V = ElfLinkerView;

    open spec fn view(&self) -> ElfLinkerView {
        ElfLinkerView {
            filename: self.filename@,
            loaded: self.loaded@.map(|i: int, p: (String, Elf)| (p.0@, p.1@)),
            memory: self.memory@,
            next_lib_address: self.next_lib_address,
            pending: self.pending@.map(|i: int, n: String| n@),
            outstanding: match self.outstanding {
                Some(p) => Some((p.0@, p.1)),
                None => None,
            },
        }
    }
}

/// Whether `loaded` holds a pair whose key's view equals `name`.
fn contains_key(loaded: &Vec<(String, Elf)>, name: &String) -> (r: bool)
    ensures
        r == has_key(loaded@.map(|i: int, p: (String, Elf)| (p.0@, p.1@)), name@),
{
    let ghost lv = loaded@.map(|i: int, p: (String, Elf)| (p.0@, p.1@));
    let mut i: usize = 0;
    #[verifier::loop_isolation(false)]
    while i < loaded.len()
        invariant
            i <= loaded.len(),
            forall|j: int| 0 <= j < i ==> #[trigger] lv[j].0 != name@,
        decreases loaded.len() - i,
    {
        proof {
            assert(lv[i as int] == (loaded@[i as int].0@, loaded@[i as int].1@));
        }
        if loaded[i].0 == *name {
            return true;
        }
        i = i + 1;
    }
    false
}

/// The first position of `loaded` whose key's view equals `name`, if any.
fn find_key(loaded: &Vec<(String, Elf)>, name: &String) -> (r: Option<usize>)
    ensures
        ({
            let lv = loaded@.map(|i: int, p: (String, Elf)| (p.0@, p.1@));
            match r {
                Some(p) => p < lv.len() && lv[p as int].0 == name@ && forall|j: int|
                    0 <= j < p ==> #[trigger] lv[j].0 != name@,
                None => forall|j: int| 0 <= j < lv.len() ==> #[trigger] lv[j].0 != name@,
            }
        }),
{
    let ghost lv = loaded@.map(|i: int, p: (String, Elf)| (p.0@, p.1@));
    let mut i: usize = 0;
    #[verifier::loop_isolation(false)]
    while i < loaded.len()
        invariant
            i <= loaded.len(),
            forall|j: int| 0 <= j < i ==> #[trigger] lv[j].0 != name@,
        decreases loaded.len() - i,
    {
        proof {
            assert(lv[i as int] == (loaded@[i as int].0@, loaded@[i as int].1@));
        }
        if loaded[i].0 == *name {
            return Some(i);
        }
        i = i + 1;
    }
    None
}

impl ElfLinker {
    /// No two loaded objects are registered under the same name.
    pub open spec fn wf(&self) -> bool {
        forall|i: int, j: int|
            0 <= i < j < self@.loaded.len() ==> #[trigger] self@.loaded[i].0 != #[trigger] self@
                .loaded[j].0
    }

    /// Starts a link of the root binary registered under `filename`, its base
    /// file name. The first request is the root itself at base address zero.
    pub fn new(filename: String) -> (r: ElfLinker)
        ensures
            r@ == (ElfLinkerView {
                filename: filename@,
                loaded: Seq::empty(),
                memory: Seq::empty(),
                next_lib_address: DEFAULT_LIB_BASE,
                pending: Seq::empty(),
                outstanding: Some((filename@, 0)),
            }),
            r.wf(),
    {
        let r = ElfLinker {
            filename: filename.clone(),
            loaded: Vec::new(),
            memory: Memory::new(),
            next_lib_address: DEFAULT_LIB_BASE,
            pending: Vec::new(),
            outstanding: Some((filename, 0)),
        };
        proof {
            assert(r@.loaded =~= Seq::<(Seq<char>, ElfImageView)>::empty());
            assert(r@.pending =~= Seq::<Seq<char>>::empty());
        }
        r
    }

    /// The name and base address of the next object to read and hand to
    /// `load_elf`, or `None` when everything needed is loaded. A still
    /// outstanding request is repeated; otherwise the pending names are
    /// considered in order, and the first one not already loaded is assigned
    /// the next stepped base address — a name already loaded is never
    /// requested, which is what ends mutual dependency cycles.
    pub fn next_request(&mut self) -> (r: Option<(String, u64)>)
        requires
            old(self).wf(),
            old(self)@.next_lib_address + LIB_BASE_STEP <= u64::MAX,
        ensures
            final(self).wf(),
            match old(self)@.outstanding {
                Some(req) => r matches Some(rr) && rr.0@ == req.0 && rr.1 == req.1 && final(self)@
                    == old(self)@,
                None => {
                    let rest = spec_scan(old(self)@.pending, old(self)@.loaded);
                    match r {
                        None => rest.len() == 0 && final(self)@ == (ElfLinkerView {
                            pending: Seq::empty(),
                            ..old(self)@
                        }),
                        Some(rr) => rest.len() > 0 && rr.0@ == rest[0] && rr.1 == old(
                            self,
                        )@.next_lib_address + LIB_BASE_STEP && !has_key(old(self)@.loaded, rr.0@)
                            && final(self)@ == (ElfLinkerView {
                            next_lib_address: (old(self)@.next_lib_address
                                + LIB_BASE_STEP) as u64,
                            pending: rest.drop_first(),
                            outstanding: Some((rr.0@, rr.1)),
                            ..old(self)@
                        }),
                    }
                },
            },
    {
        match &self.outstanding {
            Some(req) => {
                return Some((req.0.clone(), req.1));
            },
            None => {},
        }
        #[verifier::loop_isolation(false)]
        while self.pending.len() > 0
            invariant
                self@ == (ElfLinkerView { pending: self@.pending, ..old(self)@ }),
                spec_scan(old(self)@.pending, old(self)@.loaded) == spec_scan(
                    self@.pending,
                    self@.loaded,
                ),
                self.wf(),
            decreases self.pending.len(),
        {
            let ghost pend = self@.pending;
            let name = self.pending.remove(0);
            proof {
                assert(self@.pending =~= pend.drop_first());
                assert(pend[0] == name@);
            }
            if !contains_key(&self.loaded, &name) {
                self.next_lib_address = self.next_lib_address + LIB_BASE_STEP;
                let address = self.next_lib_address;
                self.outstanding = Some((name.clone(), address));
                proof {
                    assert(spec_scan(pend, self@.loaded) == pend);
                }
                return Some((name, address));
            }
        }
        proof {
            assert(self@.pending =~= Seq::<Seq<char>>::empty());
        }
        None
    }

    /// Loads the requested object from its bytes: its memory segments are
    /// merged into the accumulated image, it is registered under the
    /// requested name — overwriting any object already registered under that
    /// name — and its needed-library names are queued, depth-first, ahead of
    /// the names already pending. Any failure leaves the linker unchanged,
    /// with the request still outstanding.
    pub fn load_elf(&mut self, bytes: Vec<u8>) -> (r: Result<(), Error>)
        requires
            old(self).wf(),
            old(self)@.outstanding is Some,
        ensures
            final(self).wf(),
            ({
                let req = old(self)@.outstanding->Some_0;
                match r {
                    Ok(()) => spec_load_result(bytes@, req.1) matches Ok(names) && elf_parse(
                        bytes@,
                    ) matches Some(ev) && spec_segments(bytes@, req.1, ev.program_headers)
                        matches Some(segs) && final(self)@ == (ElfLinkerView {
                        loaded: spec_upsert(
                            old(self)@.loaded,
                            req.0,
                            ElfImageView {
                                base_address: req.1,
                                bytes: bytes@,
                                user_function_entries: Seq::empty(),
                            },
                        ),
                        memory: old(self)@.memory + segs,
                        pending: names + old(self)@.pending,
                        outstanding: None,
                        ..old(self)@
                    }),
                    Err(e) => spec_load_result(bytes@, req.1) == Err::<Seq<Seq<char>>, Error>(e)
                        && final(self)@ == old(self)@,
                }
            }),
    {
        let ghost bv = bytes@;
        let base = match &self.outstanding {
            Some(req) => req.1,
            None => {
                proof {
                    assert(false);
                }
                return Err(Error::InternalInvariantViolation);
            },
        };
        let elf = match Elf::new(bytes, base) {
            Ok(e) => e,
            Err(e) => {
                return Err(e);
            },
        };
        let segments = match elf.memory() {
            Ok(m) => m,
            Err(e) => {
                return Err(e);
            },
        };
        let names = match elf.dt_needed() {
            Ok(n) => n,
            Err(e) => {
                return Err(e);
            },
        };
        let name = match &self.outstanding {
            Some(req) => req.0.clone(),
            None => {
                proof {
                    assert(false);
                }
                return Err(Error::InternalInvariantViolation);
            },
        };
        self.outstanding = None;

        // merge the object's segments into the accumulated image
        let ghost merged = segments@;
        let ghost mem0 = self.memory@;
        let mut segs = segments.segments;
        proof {
            assert(segs@.map(|i: int, s: crate::memory::MemorySegment| s@) =~= merged);
        }
        #[verifier::loop_isolation(false)]
        while segs.len() > 0
            invariant
                segs@.len() <= merged.len(),
                self@.filename == old(self)@.filename,
                self@.loaded == old(self)@.loaded,
                self@.pending == old(self)@.pending,
                self@.next_lib_address == old(self)@.next_lib_address,
                self@.outstanding is None,
                self.memory@ == mem0 + merged.take(
                    merged.len() - segs@.len() as int,
                ),
                segs@.map(|i: int, s: crate::memory::MemorySegment| s@) =~= merged.skip(
                    merged.len() - segs@.len() as int,
                ),
            decreases segs.len(),
        {
            let ghost consumed = merged.len() - segs@.len() as int;
            let ghost seg_views = segs@.map(|i: int, s: crate::memory::MemorySegment| s@);
            let segment = segs.remove(0);
            proof {
                assert(segment@ == seg_views[0]);
                assert(segs@.map(|i: int, s: crate::memory::MemorySegment| s@) =~= seg_views
                    .drop_first());
                assert(seg_views.drop_first() =~= merged.skip(consumed + 1));
                assert(merged.take(consumed + 1) =~= merged.take(consumed).push(
                    merged[consumed],
                ));
            }
            self.memory.add_segment(segment);
        }
        proof {
            assert(merged.take(merged.len() as int) =~= merged);
            assert(self.memory@ == mem0 + merged);
        }

        // register the object under the requested name
        let ghost loaded0 = self@.loaded;
        let ghost image = elf@;
        let position = find_key(&self.loaded, &name);
        match position {
            Some(p) => {
                self.loaded.remove(p);
                self.loaded.insert(p, (name, elf));
                proof {
                    assert(self@.loaded =~= loaded0.update(p as int, (name@, image)));
                    lemma_upsert_at(loaded0, name@, image, p as int);
                    assert forall|a: int, b: int|
                        0 <= a < b < self@.loaded.len() implies #[trigger] self@.loaded[a].0
                        != #[trigger] self@.loaded[b].0 by {
                        assert(loaded0[a].0 != loaded0[b].0);
                        assert(loaded0[p as int].0 == name@);
                    }
                }
            },
            None => {
                self.loaded.push((name, elf));
                proof {
                    assert(self@.loaded =~= loaded0.push((name@, image)));
                    lemma_upsert_absent(loaded0, name@, image);
                    assert forall|a: int, b: int|
                        0 <= a < b < self@.loaded.len() implies #[trigger] self@.loaded[a].0
                        != #[trigger] self@.loaded[b].0 by {
                        if b < loaded0.len() {
                            assert(loaded0[a].0 != loaded0[b].0);
                        } else {
                            assert(loaded0[a].0 != name@);
                        }
                    }
                }
            },
        }

        // queue the needed names ahead of those already pending, depth-first
        let ghost pending0 = self@.pending;
        let mut queue = names;
        queue.append(&mut self.pending);
        self.pending = queue;
        proof {
            assert(self@.pending =~= spec_dt_needed(bv, base)->Ok_0 + pending0);
            assert(self@ =~= (ElfLinkerView {
                loaded: spec_upsert(old(self)@.loaded, name@, image),
                memory: mem0 + merged,
                pending: spec_dt_needed(bv, base)->Ok_0 + pending0,
                outstanding: None,
                ..old(self)@
            }));
        }
        Ok(())
    }

    /// The accumulated memory image of everything loaded so far.
    pub fn memory(&self) -> (r: Memory)
        ensures
            r@ == self@.memory,
    {
        self.memory.duplicate()
    }

    /// The function entries of all loaded objects, concatenated in map order;
    /// each object's entries are already relocated by its own base address.
    /// Fails with `MalformedInput` exactly when some loaded object's bytes do
    /// not parse.
    pub fn function_entries(&self) -> (r: Result<Vec<FunctionEntry>, Error>)
        ensures
            match r {
                Ok(v) => spec_all_entries(self@.loaded) == Some(
                    v@.map(|i: int, e: FunctionEntry| e@),
                ),
                Err(e) => e == Error::MalformedInput && spec_all_entries(self@.loaded) is None,
            },
    {
        let mut entries: Vec<FunctionEntry> = Vec::new();
        let mut i: usize = 0;
        proof {
            assert(self@.loaded.take(0) =~= Seq::<(Seq<char>, ElfImageView)>::empty());
            assert(entries@.map(|k: int, e: FunctionEntry| e@) =~= Seq::<
                FunctionEntryView,
            >::empty());
        }
        #[verifier::loop_isolation(false)]
        while i < self.loaded.len()
            invariant
                i <= self.loaded.len(),
                spec_all_entries(self@.loaded.take(i as int)) == Some(
                    entries@.map(|k: int, e: FunctionEntry| e@),
                ),
            decreases self.loaded.len() - i,
        {
            proof {
                assert(self@.loaded.take(i + 1).drop_last() =~= self@.loaded.take(i as int));
                assert(self@.loaded[i as int] == (
                    self.loaded@[i as int].0@,
                    self.loaded@[i as int].1@,
                ));
            }
            let mut fe = match self.loaded[i].1.function_entries() {
                Ok(v) => v,
                Err(e) => {
                    proof {
                        lemma_all_entries_failure(self@.loaded, i as int);
                    }
                    return Err(Error::MalformedInput);
                },
            };
            let ghost prev = entries@.map(|k: int, e: FunctionEntry| e@);
            let ghost fev = fe@.map(|k: int, e: FunctionEntry| e@);
            entries.append(&mut fe);
            proof {
                assert(entries@.map(|k: int, e: FunctionEntry| e@) =~= prev + fev);
            }
            i = i + 1;
        }
        proof {
            assert(self@.loaded.take(self.loaded@.len() as int) =~= self@.loaded);
        }
        Ok(entries)
    }

    /// The first object registered under the root's name, if any.
    fn root_elf(&self) -> (r: Option<&Elf>)
        ensures
            match r {
                Some(elf) => spec_lookup(self@.loaded, self@.filename) == Some(elf@),
                None => spec_lookup(self@.loaded, self@.filename) is None,
            },
    {
        let ghost lv = self@.loaded;
        let mut i: usize = 0;
        proof {
            assert(lv.skip(0) =~= lv);
        }
        #[verifier::loop_isolation(false)]
        while i < self.loaded.len()
            invariant
                i <= self.loaded.len(),
                spec_lookup(lv, self@.filename) == spec_lookup(
                    lv.skip(i as int),
                    self@.filename,
                ),
            decreases self.loaded.len() - i,
        {
            proof {
                assert(lv.skip(i as int)[0] == lv[i as int]);
                assert(lv.skip(i as int).drop_first() =~= lv.skip(i + 1));
                assert(lv[i as int] == (self.loaded@[i as int].0@, self.loaded@[i as int].1@));
            }
            if self.loaded[i].0 == self.filename {
                return Some(&self.loaded[i].1);
            }
            i = i + 1;
        }
        proof {
            assert(lv.skip(lv.len() as int) =~= Seq::<(Seq<char>, ElfImageView)>::empty());
        }
        None
    }

    /// The root binary's declared entry point, not relocated: the root loads
    /// at base address zero. Fails with `InternalInvariantViolation` where
    /// the root was never loaded, and with `MalformedInput` where its bytes
    /// do not parse.
    pub fn program_entry(&self) -> (r: Result<u64, Error>)
        ensures
            match spec_lookup(self@.loaded, self@.filename) {
                None => r == Err::<u64, Error>(Error::InternalInvariantViolation),
                Some(image) => match elf_parse(image.bytes) {
                    None => r == Err::<u64, Error>(Error::MalformedInput),
                    Some(ev) => r == Ok::<u64, Error>(ev.header.entry),
                },
            },
    {
        match self.root_elf() {
            Some(elf) => elf.program_entry(),
            None => Err(Error::InternalInvariantViolation),
        }
    }

    /// The root binary's architecture tag. Fails with
    /// `InternalInvariantViolation` where the root was never loaded, with
    /// `MalformedInput` where its bytes do not parse, and with
    /// `UnsupportedArchitecture` for any machine tag but the one recognized.
    pub fn architecture(&self) -> (r: Result<Architecture, Error>)
        ensures
            match spec_lookup(self@.loaded, self@.filename) {
                None => r == Err::<Architecture, Error>(Error::InternalInvariantViolation),
                Some(image) => match elf_parse(image.bytes) {
                    None => r == Err::<Architecture, Error>(Error::MalformedInput),
                    Some(ev) => if ev.header.machine == crate::elf::EM_386 {
                        r == Ok::<Architecture, Error>(Architecture::X86)
                    } else {
                        r == Err::<Architecture, Error>(Error::UnsupportedArchitecture)
                    },
                },
            },
    {
        match self.root_elf() {
            Some(elf) => elf.architecture(),
            None => Err(Error::InternalInvariantViolation),
        }
    }
}

/// Registering an object binds its name: together with `next_request`, which
/// never asks for a name already bound, this is why a dependency cycle ends
/// after each of its names is loaded once.
pub proof fn lemma_upsert_has_key(
    loaded: Seq<(Seq<char>, ElfImageView)>,
    name: Seq<char>,
    image: ElfImageView,
)
    ensures
        has_key(spec_upsert(loaded, name, image), name),
    decreases loaded.len(),
{
    let result = spec_upsert(loaded, name, image);
    if loaded.len() == 0 {
        assert(result[0].0 == name);
    } else if loaded[0].0 == name {
        assert(result[0].0 == name);
    } else {
        lemma_upsert_has_key(loaded.drop_first(), name, image);
        let inner = spec_upsert(loaded.drop_first(), name, image);
        let k = choose|k: int| 0 <= k < inner.len() && inner[k].0 == name;
        assert(result[k + 1].0 == name);
    }
}

/// Overwriting the binding at the first position carrying `name` is the
/// upsert.
proof fn lemma_upsert_at(
    loaded: Seq<(Seq<char>, ElfImageView)>,
    name: Seq<char>,
    image: ElfImageView,
    p: int,
)
    requires
        0 <= p < loaded.len(),
        loaded[p].0 == name,
        forall|j: int| 0 <= j < p ==> #[trigger] loaded[j].0 != name,
    ensures
        spec_upsert(loaded, name, image) =~= loaded.update(p, (name, image)),
    decreases loaded.len(),
{
    if p == 0 {
        assert(spec_upsert(loaded, name, image) =~= loaded.update(0, (name, image)));
    } else {
        assert(loaded.drop_first()[p - 1] == loaded[p]);
        assert(forall|j: int|
            0 <= j < p - 1 ==> #[trigger] loaded.drop_first()[j].0 == loaded[j + 1].0);
        lemma_upsert_at(loaded.drop_first(), name, image, p - 1);
        assert(spec_upsert(loaded, name, image) =~= loaded.update(p, (name, image)));
    }
}

/// Appending a binding for a name not yet present is the upsert.
proof fn lemma_upsert_absent(
    loaded: Seq<(Seq<char>, ElfImageView)>,
    name: Seq<char>,
    image: ElfImageView,
)
    requires
        forall|j: int| 0 <= j < loaded.len() ==> #[trigger] loaded[j].0 != name,
    ensures
        spec_upsert(loaded, name, image) =~= loaded.push((name, image)),
    decreases loaded.len(),
{
    if loaded.len() > 0 {
        assert(forall|j: int|
            0 <= j < loaded.drop_first().len() ==> #[trigger] loaded.drop_first()[j].0 == loaded[j
                + 1].0);
        lemma_upsert_absent(loaded.drop_first(), name, image);
        assert(spec_upsert(loaded, name, image) =~= loaded.push((name, image)));
    }
}

} // verus!
