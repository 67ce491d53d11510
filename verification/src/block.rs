//! A basic block: an ordered, block-locally-indexed sequence of instructions
//! with block-scoped counters for instruction indices and temporary names.
//!
//! An instruction's index is an identity, not a position: indices are
//! allocated monotonically, survive deletion without renumbering, and are
//! never reused.

use vstd::prelude::*;

use crate::error::Error;
use crate::il::{Array, Expression, Instruction, InstructionView, MultiVar, Operation,
    OperationView, Scalar, ScalarView};
use crate::names::{temp_name, temp_name_chars};

verus! {

/// The mathematical value of a `Block`.
#[verifier::ext_equal]
pub ghost struct BlockView {
    pub index: u64,
    pub next_instruction_index: u64,
    pub next_temp_index: u64,
    pub instructions: Seq<InstructionView>,
}

/// Every instruction's index lies below the counter `bound`, and no two
/// instructions share an index.
pub open spec fn indices_ok(instructions: Seq<InstructionView>, bound: u64) -> bool {
    (forall|i: int| 0 <= i < instructions.len() ==> #[trigger] instructions[i].index < bound)
        && (forall|i: int, j: int|
        0 <= i < j < instructions.len() ==> #[trigger] instructions[i].index
            != #[trigger] instructions[j].index)
}

/// A basic block of the intermediate language.
#[derive(Debug)]
pub struct Block {
    /// The index of the block, assigned by the owning control-flow graph.
    pub index: u64,
    /// The counter for the next block-unique instruction index.
    pub next_instruction_index: u64,
    /// The counter for the next block-unique temporary variable.
    pub next_temp_index: u64,
    /// The instructions of this block.
    pub instructions: Vec<Instruction>,
}

impl View for Block {
    type V = BlockView;

    open spec fn view(&self) -> BlockView {
        BlockView {
            index: self.index,
            next_instruction_index: self.next_instruction_index,
            next_temp_index: self.next_temp_index,
            instructions: self.instructions@.map(|i: int, insn: Instruction| insn@),
        }
    }
}

impl Block {
    /// All instruction indices are unique and below the index counter. Every
    /// block the builder operations produce is well formed; only direct
    /// mutation of the instruction list can break this, and the caller then
    /// re-establishes it.
    pub open spec fn wf(&self) -> bool {
        indices_ok(self@.instructions, self@.next_instruction_index)
    }

    /// Builds an empty block with the given block index.
    pub fn new(index: u64) -> (r: Block)
        ensures
            r@ == (BlockView {
                index,
                next_instruction_index: 0,
                next_temp_index: 0,
                instructions: Seq::<InstructionView>::empty(),
            }),
            r.wf(),
    {
        let b = Block {
            index,
            next_instruction_index: 0,
            next_temp_index: 0,
            instructions: Vec::new(),
        };
        proof {
            assert(b@.instructions =~= Seq::<InstructionView>::empty());
        }
        b
    }

    /// Allocates the next block-unique instruction index.
    fn new_instruction_index(&mut self) -> (r: u64)
        requires
            old(self)@.next_instruction_index < u64::MAX,
        ensures
            r == old(self)@.next_instruction_index,
            final(self)@ == (BlockView {
                next_instruction_index: (old(self)@.next_instruction_index + 1) as u64,
                ..old(self)@
            }),
    {
        let instruction_index = self.next_instruction_index;
        self.next_instruction_index = instruction_index + 1;
        instruction_index
    }

    /// Appends an instruction built from a fresh index and `operation`.
    fn push_operation(&mut self, operation: Operation)
        requires
            old(self)@.next_instruction_index < u64::MAX,
        ensures
            final(self)@ == (BlockView {
                next_instruction_index: (old(self)@.next_instruction_index + 1) as u64,
                instructions: old(self)@.instructions.push(
                    InstructionView {
                        index: old(self)@.next_instruction_index,
                        operation: operation@,
                    },
                ),
                ..old(self)@
            }),
            old(self).wf() ==> final(self).wf(),
    {
        let index = self.new_instruction_index();
        self.instructions.push(Instruction::new(index, operation));
        proof {
            assert(self@.instructions =~= old(self)@.instructions.push(
                InstructionView { index: old(self)@.next_instruction_index, operation: operation@ },
            ));
        }
    }

    /// Appends the contents of another block to this block, re-assigning each
    /// copied instruction a fresh index from this block's own counter. The
    /// relative order of `other`'s instructions is preserved and their
    /// original indices are discarded.
    pub fn append(&mut self, other: &Block)
        requires
            old(self)@.next_instruction_index + other@.instructions.len() <= u64::MAX,
        ensures
            final(self)@.index == old(self)@.index,
            final(self)@.next_temp_index == old(self)@.next_temp_index,
            final(self)@.next_instruction_index == old(self)@.next_instruction_index
                + other@.instructions.len(),
            final(self)@.instructions.len() == old(self)@.instructions.len()
                + other@.instructions.len(),
            final(self)@.instructions.take(old(self)@.instructions.len() as int) == old(
                self,
            )@.instructions,
            forall|k: int|
                0 <= k < other@.instructions.len()
                    ==> #[trigger] final(self)@.instructions[old(self)@.instructions.len() + k]
                    == (InstructionView {
                    index: (old(self)@.next_instruction_index + k) as u64,
                    operation: other@.instructions[k].operation,
                }),
            old(self).wf() ==> final(self).wf(),
    {
        let ghost orig = self@;
        let mut i: usize = 0;
        #[verifier::loop_isolation(false)]
        while i < other.instructions.len()
            invariant
                i <= other.instructions.len(),
                orig.next_instruction_index + other@.instructions.len() <= u64::MAX,
                self@.index == orig.index,
                self@.next_temp_index == orig.next_temp_index,
                self@.next_instruction_index == orig.next_instruction_index + i,
                self@.instructions.len() == orig.instructions.len() + i,
                self@.instructions.take(orig.instructions.len() as int) =~= orig.instructions,
                forall|k: int|
                    0 <= k < i ==> #[trigger] self@.instructions[orig.instructions.len() + k]
                        == (InstructionView {
                        index: (orig.next_instruction_index + k) as u64,
                        operation: other@.instructions[k].operation,
                    }),
                other@.instructions.len() == other.instructions@.len(),
            decreases other.instructions.len() - i,
        {
            let ghost before = self@.instructions;
            let index = self.new_instruction_index();
            let instruction = other.instructions[i].clone_new_index(index);
            self.instructions.push(instruction);
            proof {
                assert(self@.instructions =~= before.push(instruction@));
                assert(other@.instructions[i as int] == other.instructions@[i as int]@);
            }
            i = i + 1;
        }
        proof {
            assert(old(self).wf() ==> self.wf()) by {
                if old(self).wf() {
                    let n = orig.instructions.len() as int;
                    assert forall|a: int, b: int|
                        0 <= a < b < self@.instructions.len() implies #[trigger] self@
                        .instructions[a].index != #[trigger] self@.instructions[b].index by {
                        if a < n {
                            assert(self@.instructions.take(n)[a] == orig.instructions[a]);
                        } else {
                            assert(self@.instructions[n + (a - n)].index
                                == orig.next_instruction_index + (a - n));
                        }
                        if b < n {
                            assert(self@.instructions.take(n)[b] == orig.instructions[b]);
                        } else {
                            assert(self@.instructions[n + (b - n)].index
                                == orig.next_instruction_index + (b - n));
                        }
                    }
                    assert forall|a: int|
                        0 <= a < self@.instructions.len() implies #[trigger] self@
                        .instructions[a].index < self@.next_instruction_index by {
                        if a < n {
                            assert(self@.instructions.take(n)[a] == orig.instructions[a]);
                        } else {
                            assert(self@.instructions[n + (a - n)].index
                                == orig.next_instruction_index + (a - n));
                        }
                    }
                }
            }
        }
    }

    /// The index of this block.
    pub fn index(&self) -> (r: u64)
        ensures
            r == self@.index,
    {
        self.index
    }

    /// The counter value the next appended instruction will take as index.
    pub fn next_instruction_index(&self) -> (r: u64)
        ensures
            r == self@.next_instruction_index,
    {
        self.next_instruction_index
    }

    /// The instructions of this block, in order.
    pub fn instructions(&self) -> (r: &Vec<Instruction>)
        ensures
            r@.map(|i: int, insn: Instruction| insn@) == self@.instructions,
    {
        &self.instructions
    }

    /// A mutable reference to the instructions of this block. Direct mutation
    /// can break `wf`; the caller re-establishes it before using the
    /// index-based operations again.
    pub fn instructions_mut(&mut self) -> (r: &mut Vec<Instruction>)
        ensures
            r@.map(|i: int, insn: Instruction| insn@) == old(self)@.instructions,
            final(self)@ == (BlockView {
                instructions: final(r)@.map(|i: int, insn: Instruction| insn@),
                ..old(self)@
            }),
    {
        &mut self.instructions
    }

    /// The instruction carrying the block-local index `index`, or `None` if
    /// no instruction carries it.
    pub fn instruction(&self, index: u64) -> (r: Option<&Instruction>)
        ensures
            match r {
                Some(instruction) => exists|pos: int|
                    0 <= pos < self@.instructions.len() && instruction@ == self@.instructions[pos]
                        && instruction@.index == index,
                None => forall|pos: int|
                    0 <= pos < self@.instructions.len() ==> #[trigger] self@.instructions[pos].index
                        != index,
            },
    {
        let mut i: usize = 0;
        #[verifier::loop_isolation(false)]
        while i < self.instructions.len()
            invariant
                i <= self.instructions.len(),
                forall|pos: int|
                    0 <= pos < i ==> #[trigger] self@.instructions[pos].index != index,
            decreases self.instructions.len() - i,
        {
            if self.instructions[i].index() == index {
                proof {
                    assert(self@.instructions[i as int] == self.instructions@[i as int]@);
                }
                return Some(&self.instructions[i]);
            }
            i = i + 1;
        }
        None
    }

    /// A mutable reference to the instruction at position `i` of `v`.
    fn vec_instruction_mut(v: &mut Vec<Instruction>, i: usize) -> (element: &mut Instruction)
        requires
            i < old(v).len(),
        ensures
            *element == old(v)@[i as int],
            final(v)@ == old(v)@.update(i as int, *final(element)),
    {
        &mut v[i]
    }

    /// A mutable reference to the instruction carrying the block-local index
    /// `index`, or `None` if no instruction carries it.
    pub fn instruction_mut(&mut self, index: u64) -> (r: Option<&mut Instruction>)
        ensures
            match r {
                Some(instruction) => exists|pos: int|
                    0 <= pos < old(self)@.instructions.len() && (*instruction)@ == old(
                        self,
                    )@.instructions[pos] && (*instruction)@.index == index && final(self)@
                        == (BlockView {
                        instructions: old(self)@.instructions.update(pos, (*final(instruction))@),
                        ..old(self)@
                    }),
                None => final(self)@ == old(self)@ && forall|pos: int|
                    0 <= pos < old(self)@.instructions.len() ==> #[trigger] old(
                        self,
                    )@.instructions[pos].index != index,
            },
    {
        let n = self.instructions.len();
        let mut i: usize = 0;
        #[verifier::loop_isolation(false)]
        while i < n
            invariant
                i <= n,
                n == self.instructions.len(),
                self@ == old(self)@,
                forall|pos: int|
                    0 <= pos < i ==> #[trigger] self@.instructions[pos].index != index,
            decreases n - i,
        {
            if self.instructions[i].index() == index {
                proof {
                    assert(self@.instructions[i as int] == self.instructions@[i as int]@);
                }
                let element = Block::vec_instruction_mut(&mut self.instructions, i);
                return Some(element);
            }
            i = i + 1;
        }
        None
    }

    /// Removes the instruction carrying the block-local index `index`.
    /// Surviving instructions keep their indices: the gap is never compacted.
    /// Fails with `NotFound`, leaving the block unchanged, when no
    /// instruction carries that index.
    pub fn remove_instruction(&mut self, index: u64) -> (r: Result<(), Error>)
        ensures
            match r {
                Ok(()) => exists|pos: int|
                    0 <= pos < old(self)@.instructions.len() && old(self)@.instructions[pos].index
                        == index && (forall|j: int|
                        0 <= j < pos ==> #[trigger] old(self)@.instructions[j].index != index)
                        && final(self)@ == (BlockView {
                        instructions: old(self)@.instructions.remove(pos),
                        ..old(self)@
                    }),
                Err(e) => e == (Error::NotFound { index }) && final(self)@ == old(self)@ && forall|
                    pos: int,
                |
                    0 <= pos < old(self)@.instructions.len() ==> #[trigger] old(
                        self,
                    )@.instructions[pos].index != index,
            },
            old(self).wf() ==> final(self).wf(),
    {
        let mut i: usize = 0;
        #[verifier::loop_isolation(false)]
        while i < self.instructions.len()
            invariant
                i <= self.instructions.len(),
                self@ == old(self)@,
                forall|pos: int|
                    0 <= pos < i ==> #[trigger] self@.instructions[pos].index != index,
            decreases self.instructions.len() - i,
        {
            if self.instructions[i].index() == index {
                proof {
                    assert(old(self)@.instructions[i as int] == self.instructions@[i as int]@);
                }
                self.instructions.remove(i);
                proof {
                    assert(self@.instructions =~= old(self)@.instructions.remove(i as int));
                    assert(old(self).wf() ==> self.wf()) by {
                        if old(self).wf() {
                            assert forall|a: int, b: int|
                                0 <= a < b < self@.instructions.len() implies #[trigger] self@
                                .instructions[a].index != #[trigger] self@
                                .instructions[b].index by {
                                assert(self@.instructions[a] == if a < i as int {
                                    old(self)@.instructions[a]
                                } else {
                                    old(self)@.instructions[a + 1]
                                });
                            }
                        }
                    }
                }
                return Ok(());
            }
            i = i + 1;
        }
        Err(Error::NotFound { index })
    }

    /// An independent copy of this block, equal in every field except the
    /// block index, which becomes `index`. Mutating the copy never affects
    /// the original.
    pub fn clone_new_index(&self, index: u64) -> (r: Block)
        ensures
            r@ == (BlockView { index, ..self@ }),
    {
        let mut instructions: Vec<Instruction> = Vec::new();
        let mut i: usize = 0;
        while i < self.instructions.len()
            invariant
                i <= self.instructions.len(),
                instructions@.map(|j: int, insn: Instruction| insn@)
                    =~= self.instructions@.map(|j: int, insn: Instruction| insn@).take(i as int),
            decreases self.instructions.len() - i,
        {
            let ghost prev = instructions@;
            instructions.push(self.instructions[i].duplicate());
            proof {
                assert(instructions@.map(|j: int, insn: Instruction| insn@)
                    =~= prev.map(|j: int, insn: Instruction| insn@).push(instructions@.last()@));
            }
            i = i + 1;
        }
        let b = Block {
            index,
            next_instruction_index: self.next_instruction_index,
            next_temp_index: self.next_temp_index,
            instructions,
        };
        proof {
            assert(b@.instructions =~= self@.instructions);
        }
        b
    }

    /// A temporary scalar unique within this block's lifetime, named from the
    /// block's own index and a private monotonic counter.
    pub fn temp(&mut self, bits: usize) -> (r: Scalar)
        requires
            old(self)@.next_temp_index < u64::MAX,
        ensures
            r@ == (ScalarView {
                name: temp_name_chars(old(self)@.index, old(self)@.next_temp_index),
                bits,
            }),
            final(self)@ == (BlockView {
                next_temp_index: (old(self)@.next_temp_index + 1) as u64,
                ..old(self)@
            }),
    {
        let next_index = self.next_temp_index;
        self.next_temp_index = next_index + 1;
        Scalar::new(temp_name(self.index, next_index), bits)
    }

    /// Appends an assign operation to the end of this block.
    pub fn assign(&mut self, dst: Scalar, src: Expression)
        requires
            old(self)@.next_instruction_index < u64::MAX,
        ensures
            final(self)@ == (BlockView {
                next_instruction_index: (old(self)@.next_instruction_index + 1) as u64,
                instructions: old(self)@.instructions.push(
                    InstructionView {
                        index: old(self)@.next_instruction_index,
                        operation: OperationView::Assign { dst: dst@, src: src@ },
                    },
                ),
                ..old(self)@
            }),
            old(self).wf() ==> final(self).wf(),
    {
        self.push_operation(Operation::Assign { dst, src });
    }

    /// Appends a store operation to the end of this block.
    pub fn store(&mut self, dst: Array, address: Expression, src: Expression)
        requires
            old(self)@.next_instruction_index < u64::MAX,
        ensures
            final(self)@ == (BlockView {
                next_instruction_index: (old(self)@.next_instruction_index + 1) as u64,
                instructions: old(self)@.instructions.push(
                    InstructionView {
                        index: old(self)@.next_instruction_index,
                        operation: OperationView::Store {
                            dst: dst@,
                            address: address@,
                            src: src@,
                        },
                    },
                ),
                ..old(self)@
            }),
            old(self).wf() ==> final(self).wf(),
    {
        self.push_operation(Operation::Store { dst, address, src });
    }

    /// Appends a load operation to the end of this block.
    pub fn load(&mut self, dst: Scalar, address: Expression, src: Array)
        requires
            old(self)@.next_instruction_index < u64::MAX,
        ensures
            final(self)@ == (BlockView {
                next_instruction_index: (old(self)@.next_instruction_index + 1) as u64,
                instructions: old(self)@.instructions.push(
                    InstructionView {
                        index: old(self)@.next_instruction_index,
                        operation: OperationView::Load { dst: dst@, address: address@, src: src@ },
                    },
                ),
                ..old(self)@
            }),
            old(self).wf() ==> final(self).wf(),
    {
        self.push_operation(Operation::Load { dst, address, src });
    }

    /// Appends a conditional branch operation to the end of this block.
    pub fn brc(&mut self, dst: Expression, condition: Expression)
        requires
            old(self)@.next_instruction_index < u64::MAX,
        ensures
            final(self)@ == (BlockView {
                next_instruction_index: (old(self)@.next_instruction_index + 1) as u64,
                instructions: old(self)@.instructions.push(
                    InstructionView {
                        index: old(self)@.next_instruction_index,
                        operation: OperationView::Brc { target: dst@, condition: condition@ },
                    },
                ),
                ..old(self)@
            }),
            old(self).wf() ==> final(self).wf(),
    {
        self.push_operation(Operation::Brc { target: dst, condition });
    }

    /// Appends a phi operation to the end of this block.
    pub fn phi(&mut self, dst: MultiVar, src: Vec<MultiVar>)
        requires
            old(self)@.next_instruction_index < u64::MAX,
        ensures
            final(self)@ == (BlockView {
                next_instruction_index: (old(self)@.next_instruction_index + 1) as u64,
                instructions: old(self)@.instructions.push(
                    InstructionView {
                        index: old(self)@.next_instruction_index,
                        operation: OperationView::Phi {
                            dst: dst@,
                            src: src@.map(|i: int, v: MultiVar| v@),
                        },
                    },
                ),
                ..old(self)@
            }),
            old(self).wf() ==> final(self).wf(),
    {
        self.push_operation(Operation::Phi { dst, src });
    }

    /// Appends a raise operation to the end of this block.
    pub fn raise(&mut self, expr: Expression)
        requires
            old(self)@.next_instruction_index < u64::MAX,
        ensures
            final(self)@ == (BlockView {
                next_instruction_index: (old(self)@.next_instruction_index + 1) as u64,
                instructions: old(self)@.instructions.push(
                    InstructionView {
                        index: old(self)@.next_instruction_index,
                        operation: OperationView::Raise { expr: expr@ },
                    },
                ),
                ..old(self)@
            }),
            old(self).wf() ==> final(self).wf(),
    {
        self.push_operation(Operation::Raise { expr });
    }

    /// Inserts a phi operation at the head of this block, still consuming a
    /// fresh index: phi instructions precede all others in a block, so their
    /// indices may sort after instructions added earlier.
    pub fn prepend_phi(&mut self, dst: MultiVar, src: Vec<MultiVar>)
        requires
            old(self)@.next_instruction_index < u64::MAX,
        ensures
            final(self)@ == (BlockView {
                next_instruction_index: (old(self)@.next_instruction_index + 1) as u64,
                instructions: old(self)@.instructions.insert(
                    0,
                    InstructionView {
                        index: old(self)@.next_instruction_index,
                        operation: OperationView::Phi {
                            dst: dst@,
                            src: src@.map(|i: int, v: MultiVar| v@),
                        },
                    },
                ),
                ..old(self)@
            }),
            old(self).wf() ==> final(self).wf(),
    {
        let index = self.new_instruction_index();
        let phi = Instruction::new(index, Operation::Phi { dst, src });
        self.instructions.insert(0, phi);
        proof {
            assert(self@.instructions =~= old(self)@.instructions.insert(
                0,
                InstructionView {
                    index: old(self)@.next_instruction_index,
                    operation: OperationView::Phi {
                        dst: dst@,
                        src: src@.map(|i: int, v: MultiVar| v@),
                    },
                },
            ));
        }
    }
}

} // verus!
