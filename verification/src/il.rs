//! The value types of the intermediate language that blocks hold: variables,
//! expressions and the operations an instruction can perform.
//!
//! The full expression type system lives outside this crate's scope; these
//! are the opaque value shapes the block model needs.

use vstd::prelude::*;

verus! {

/// The mathematical value of a `Scalar`.
#[verifier::ext_equal]
pub ghost struct ScalarView {
    pub name: Seq<char>,
    pub bits: usize,
}

/// A named scalar variable of a fixed bit width.
#[derive(Debug)]
pub struct Scalar {
    /// The name of this scalar.
    pub name: String,
    /// The bit width of this scalar.
    pub bits: usize,
}

impl View for Scalar {
    type V = ScalarView;

    open spec fn view(&self) -> ScalarView {
        ScalarView { name: self.name@, bits: self.bits }
    }
}

impl Scalar {
    /// Builds a scalar variable from its name and bit width.
    pub fn new(name: String, bits: usize) -> (r: Scalar)
        ensures
            r@ == (ScalarView { name: name@, bits }),
    {
        Scalar { name, bits }
    }

    /// The name of this scalar.
    pub fn name(&self) -> (r: &str)
        ensures
            r@ == self@.name,
    {
        self.name.as_str()
    }

    /// The bit width of this scalar.
    pub fn bits(&self) -> (r: usize)
        ensures
            r == self@.bits,
    {
        self.bits
    }

    /// An independent copy of this scalar.
    pub fn duplicate(&self) -> (r: Scalar)
        ensures
            r@ == self@,
    {
        Scalar { name: self.name.clone(), bits: self.bits }
    }
}

/// The mathematical value of an `Array`.
#[verifier::ext_equal]
pub ghost struct ArrayView {
    pub name: Seq<char>,
    pub size: u64,
}

/// A named memory array of a fixed element count.
#[derive(Debug)]
pub struct Array {
    /// The name of this array.
    pub name: String,
    /// The element count of this array.
    pub size: u64,
}

impl View for Array {
    type V = ArrayView;

    open spec fn view(&self) -> ArrayView {
        ArrayView { name: self.name@, size: self.size }
    }
}

impl Array {
    /// Builds an array variable from its name and element count.
    pub fn new(name: String, size: u64) -> (r: Array)
        ensures
            r@ == (ArrayView { name: name@, size }),
    {
        Array { name, size }
    }

    /// The name of this array.
    pub fn name(&self) -> (r: &str)
        ensures
            r@ == self@.name,
    {
        self.name.as_str()
    }

    /// The element count of this array.
    pub fn size(&self) -> (r: u64)
        ensures
            r == self@.size,
    {
        self.size
    }

    /// An independent copy of this array.
    pub fn duplicate(&self) -> (r: Array)
        ensures
            r@ == self@,
    {
        Array { name: self.name.clone(), size: self.size }
    }
}

/// The mathematical value of an `Expression`.
#[verifier::ext_equal]
pub ghost enum ExpressionView {
    Scalar { scalar: ScalarView },
    Constant { value: u64, bits: usize },
}

/// An expression over the intermediate language's values. Downstream passes
/// own the full expression grammar; the block model only carries expressions
/// through.
#[derive(Debug)]
pub enum Expression {
    /// A scalar variable read.
    Scalar(Scalar),
    /// A constant of a fixed bit width.
    Constant { value: u64, bits: usize },
}

impl View for Expression {
    type V = ExpressionView;

    open spec fn view(&self) -> ExpressionView {
        match self {
            Expression::Scalar(s) => ExpressionView::Scalar { scalar: s@ },
            Expression::Constant { value, bits } => ExpressionView::Constant {
                value: *value,
                bits: *bits,
            },
        }
    }
}

impl Expression {
    /// An independent copy of this expression.
    pub fn duplicate(&self) -> (r: Expression)
        ensures
            r@ == self@,
    {
        match self {
            Expression::Scalar(s) => Expression::Scalar(s.duplicate()),
            Expression::Constant { value, bits } => Expression::Constant {
                value: *value,
                bits: *bits,
            },
        }
    }
}

/// The mathematical value of a `MultiVar`.
#[verifier::ext_equal]
pub ghost enum MultiVarView {
    Scalar { scalar: ScalarView },
    Array { array: ArrayView },
}

/// A variable that a phi instruction can merge: a scalar or an array.
#[derive(Debug)]
pub enum MultiVar {
    /// A scalar variable.
    Scalar(Scalar),
    /// An array variable.
    Array(Array),
}

impl View for MultiVar {
    type V = MultiVarView;

    open spec fn view(&self) -> MultiVarView {
        match self {
            MultiVar::Scalar(s) => MultiVarView::Scalar { scalar: s@ },
            MultiVar::Array(a) => MultiVarView::Array { array: a@ },
        }
    }
}

impl MultiVar {
    /// An independent copy of this variable.
    pub fn duplicate(&self) -> (r: MultiVar)
        ensures
            r@ == self@,
    {
        match self {
            MultiVar::Scalar(s) => MultiVar::Scalar(s.duplicate()),
            MultiVar::Array(a) => MultiVar::Array(a.duplicate()),
        }
    }
}

/// The mathematical value of an `Operation`.
#[verifier::ext_equal]
pub ghost enum OperationView {
    Assign { dst: ScalarView, src: ExpressionView },
    Store { dst: ArrayView, address: ExpressionView, src: ExpressionView },
    Load { dst: ScalarView, address: ExpressionView, src: ArrayView },
    Brc { target: ExpressionView, condition: ExpressionView },
    Phi { dst: MultiVarView, src: Seq<MultiVarView> },
    Raise { expr: ExpressionView },
}

/// The operation an instruction performs.
#[derive(Debug)]
pub enum Operation {
    /// Assign the value of an expression to a scalar.
    Assign { dst: Scalar, src: Expression },
    /// Store the value of an expression into an array at an address.
    Store { dst: Array, address: Expression, src: Expression },
    /// Load a scalar from an array at an address.
    Load { dst: Scalar, address: Expression, src: Array },
    /// Branch to a target when a condition holds.
    Brc { target: Expression, condition: Expression },
    /// Merge one source variable per predecessor into a destination.
    Phi { dst: MultiVar, src: Vec<MultiVar> },
    /// Raise an exceptional or trap exit.
    Raise { expr: Expression },
}

impl View for Operation {
    type V = OperationView;

    open spec fn view(&self) -> OperationView {
        match self {
            Operation::Assign { dst, src } => OperationView::Assign { dst: dst@, src: src@ },
            Operation::Store { dst, address, src } => OperationView::Store {
                dst: dst@,
                address: address@,
                src: src@,
            },
            Operation::Load { dst, address, src } => OperationView::Load {
                dst: dst@,
                address: address@,
                src: src@,
            },
            Operation::Brc { target, condition } => OperationView::Brc {
                target: target@,
                condition: condition@,
            },
            Operation::Phi { dst, src } => OperationView::Phi {
                dst: dst@,
                src: src@.map(|i: int, v: MultiVar| v@),
            },
            Operation::Raise { expr } => OperationView::Raise { expr: expr@ },
        }
    }
}

impl Operation {
    /// An independent copy of this operation.
    pub fn duplicate(&self) -> (r: Operation)
        ensures
            r@ == self@,
    {
        match self {
            Operation::Assign { dst, src } => Operation::Assign {
                dst: dst.duplicate(),
                src: src.duplicate(),
            },
            Operation::Store { dst, address, src } => Operation::Store {
                dst: dst.duplicate(),
                address: address.duplicate(),
                src: src.duplicate(),
            },
            Operation::Load { dst, address, src } => Operation::Load {
                dst: dst.duplicate(),
                address: address.duplicate(),
                src: src.duplicate(),
            },
            Operation::Brc { target, condition } => Operation::Brc {
                target: target.duplicate(),
                condition: condition.duplicate(),
            },
            Operation::Phi { dst, src } => {
                let mut vars: Vec<MultiVar> = Vec::new();
                let mut i: usize = 0;
                while i < src.len()
                    invariant
                        i <= src.len(),
                        vars@.map(|j: int, v: MultiVar| v@)
                            =~= src@.map(|j: int, v: MultiVar| v@).take(i as int),
                    decreases src.len() - i,
                {
                    let ghost prev = vars@;
                    vars.push(src[i].duplicate());
                    proof {
                        assert(vars@.map(|j: int, v: MultiVar| v@)
                            =~= prev.map(|j: int, v: MultiVar| v@).push(vars@.last()@));
                    }
                    i = i + 1;
                }
                proof {
                    assert(vars@.map(|j: int, v: MultiVar| v@)
                        =~= src@.map(|j: int, v: MultiVar| v@));
                }
                Operation::Phi { dst: dst.duplicate(), src: vars }
            },
            Operation::Raise { expr } => Operation::Raise { expr: expr.duplicate() },
        }
    }
}

/// The mathematical value of an `Instruction`.
#[verifier::ext_equal]
pub ghost struct InstructionView {
    pub index: u64,
    pub operation: OperationView,
}

/// One instruction of a block: a block-local index, which is an identity and
/// not a position, and the operation performed.
#[derive(Debug)]
pub struct Instruction {
    /// The block-local index, an identity rather than a position.
    pub index: u64,
    /// The operation performed.
    pub operation: Operation,
}

impl View for Instruction {
    type V = InstructionView;

    open spec fn view(&self) -> InstructionView {
        InstructionView { index: self.index, operation: self.operation@ }
    }
}

impl Instruction {
    /// Builds an instruction from its block-local index and operation.
    pub fn new(index: u64, operation: Operation) -> (r: Instruction)
        ensures
            r@ == (InstructionView { index, operation: operation@ }),
    {
        Instruction { index, operation }
    }

    /// The block-local index of this instruction.
    pub fn index(&self) -> (r: u64)
        ensures
            r == self@.index,
    {
        self.index
    }

    /// The operation this instruction performs.
    pub fn operation(&self) -> (r: &Operation)
        ensures
            r@ == self@.operation,
    {
        &self.operation
    }

    /// An independent copy of this instruction carrying a new index.
    pub fn clone_new_index(&self, index: u64) -> (r: Instruction)
        ensures
            r@ == (InstructionView { index, operation: self@.operation }),
    {
        Instruction { index, operation: self.operation.duplicate() }
    }

    /// An independent copy of this instruction.
    pub fn duplicate(&self) -> (r: Instruction)
        ensures
            r@ == self@,
    {
        Instruction { index: self.index, operation: self.operation.duplicate() }
    }
}

} // verus!
