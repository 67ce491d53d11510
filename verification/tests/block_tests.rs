use falcon::block::Block;
use falcon::error::Error;
use falcon::il::{Expression, MultiVar, Operation, Scalar};

fn scalar(name: &str) -> Scalar {
    Scalar::new(name.to_string(), 32)
}

fn expr(name: &str) -> Expression {
    Expression::Scalar(scalar(name))
}

#[test]
fn builders_append_at_tail_with_monotonic_indices() {
    let mut b = Block::new(7);
    assert_eq!(b.index(), 7);
    assert_eq!(b.instructions().len(), 0);
    b.assign(scalar("a"), expr("x"));
    b.brc(Expression::Constant { value: 0x400, bits: 32 }, expr("c"));
    b.raise(expr("e"));
    assert_eq!(b.instructions().len(), 3);
    assert_eq!(b.instructions()[0].index(), 0);
    assert_eq!(b.instructions()[1].index(), 1);
    assert_eq!(b.instructions()[2].index(), 2);
    assert_eq!(b.next_instruction_index(), 3);
    assert!(matches!(b.instructions()[0].operation(), Operation::Assign { .. }));
    assert!(matches!(b.instructions()[1].operation(), Operation::Brc { .. }));
    assert!(matches!(b.instructions()[2].operation(), Operation::Raise { .. }));
}

#[test]
fn temp_names_combine_block_index_and_counter() {
    let mut b = Block::new(3);
    let t0 = b.temp(32);
    let t1 = b.temp(16);
    assert_eq!(t0.name(), "temp_3.0");
    assert_eq!(t0.bits(), 32);
    assert_eq!(t1.name(), "temp_3.1");
    assert_eq!(t1.bits(), 16);
    let mut c = Block::new(10);
    assert_eq!(c.temp(8).name(), "temp_10.0");
}

#[test]
fn append_reindexes_with_target_counter() {
    let mut target = Block::new(0);
    target.assign(scalar("a"), expr("x"));
    target.assign(scalar("b"), expr("y"));
    let mut other = Block::new(1);
    other.assign(scalar("p"), expr("q"));
    other.raise(expr("r"));
    other.assign(scalar("s"), expr("t"));
    // give the source a gap so its indices differ from its positions
    other.remove_instruction(1).unwrap();
    other.raise(expr("u"));
    assert_eq!(other.instructions().len(), 3);
    assert_eq!(other.instructions()[1].index(), 2);

    target.append(&other);
    // two original instructions plus three appended, in original relative order
    assert_eq!(target.instructions().len(), 5);
    let indices: Vec<u64> = target.instructions().iter().map(|i| i.index()).collect();
    assert_eq!(indices, vec![0, 1, 2, 3, 4]);
    assert!(matches!(target.instructions()[2].operation(), Operation::Assign { .. }));
    assert!(matches!(target.instructions()[3].operation(), Operation::Assign { .. }));
    assert!(matches!(target.instructions()[4].operation(), Operation::Raise { .. }));
    assert_eq!(target.next_instruction_index(), 5);
}

#[test]
fn clone_new_index_changes_only_the_index_and_is_independent() {
    let mut original = Block::new(4);
    original.assign(scalar("a"), expr("x"));
    original.store(
        falcon::il::Array::new("mem".to_string(), 1024),
        Expression::Constant { value: 8, bits: 32 },
        expr("v"),
    );
    let _ = original.temp(32);

    let mut copy = original.clone_new_index(9);
    assert_eq!(copy.index(), 9);
    assert_eq!(copy.instructions().len(), 2);
    assert_eq!(copy.next_instruction_index(), original.next_instruction_index());
    assert_eq!(copy.instructions()[0].index(), original.instructions()[0].index());
    assert_eq!(copy.instructions()[1].index(), original.instructions()[1].index());
    // its temporary counter carried over: the next temp continues the count
    assert_eq!(copy.temp(32).name(), "temp_9.1");

    // mutating the copy leaves the original untouched
    copy.assign(scalar("z"), expr("w"));
    copy.remove_instruction(0).unwrap();
    assert_eq!(original.index(), 4);
    assert_eq!(original.instructions().len(), 2);
    assert_eq!(original.instructions()[0].index(), 0);
}

#[test]
fn remove_instruction_missing_index_is_not_found() {
    let mut b = Block::new(0);
    b.assign(scalar("a"), expr("x"));
    b.assign(scalar("b"), expr("y"));
    let r = b.remove_instruction(5);
    assert_eq!(r, Err(Error::NotFound { index: 5 }));
    assert_eq!(b.instructions().len(), 2);
    assert_eq!(b.instructions()[0].index(), 0);
    assert_eq!(b.instructions()[1].index(), 1);
}

#[test]
fn remove_instruction_leaves_a_gap_and_never_renumbers() {
    let mut b = Block::new(0);
    b.assign(scalar("a"), expr("x"));
    b.assign(scalar("b"), expr("y"));
    b.assign(scalar("c"), expr("z"));
    b.remove_instruction(1).unwrap();
    assert_eq!(b.instructions().len(), 2);
    assert_eq!(b.instructions()[0].index(), 0);
    assert_eq!(b.instructions()[1].index(), 2);
    assert!(b.instruction(1).is_none());
    // the freed index is never reused
    b.assign(scalar("d"), expr("w"));
    assert_eq!(b.instructions()[2].index(), 3);
}

#[test]
fn instruction_lookup_is_by_index_not_position() {
    let mut b = Block::new(0);
    b.assign(scalar("a"), expr("x"));
    b.assign(scalar("b"), expr("y"));
    b.remove_instruction(0).unwrap();
    let insn = b.instruction(1).unwrap();
    assert_eq!(insn.index(), 1);
    assert!(b.instruction(0).is_none());
}

#[test]
fn instruction_mut_edits_in_place() {
    let mut b = Block::new(0);
    b.assign(scalar("a"), expr("x"));
    b.raise(expr("e"));
    {
        let insn = b.instruction_mut(1).unwrap();
        *insn = falcon::il::Instruction::new(1, Operation::Raise { expr: expr("other") });
    }
    assert_eq!(b.instructions().len(), 2);
    match b.instructions()[1].operation() {
        Operation::Raise { expr: Expression::Scalar(s) } => assert_eq!(s.name(), "other"),
        _ => panic!("expected a raise of a scalar"),
    }
    assert!(b.instruction_mut(9).is_none());
}

#[test]
fn prepend_phi_goes_to_the_head_with_a_fresh_index() {
    let mut b = Block::new(0);
    b.assign(scalar("a"), expr("x"));
    b.phi(MultiVar::Scalar(scalar("m")), vec![MultiVar::Scalar(scalar("m1"))]);
    b.prepend_phi(
        MultiVar::Scalar(scalar("p")),
        vec![MultiVar::Scalar(scalar("p1")), MultiVar::Scalar(scalar("p2"))],
    );
    assert_eq!(b.instructions().len(), 3);
    // the prepended phi sits first but carries the newest index
    assert_eq!(b.instructions()[0].index(), 2);
    assert!(matches!(b.instructions()[0].operation(), Operation::Phi { .. }));
    assert_eq!(b.instructions()[1].index(), 0);
    assert_eq!(b.instructions()[2].index(), 1);
}

#[test]
fn instructions_mut_allows_direct_edits() {
    let mut b = Block::new(0);
    b.assign(scalar("a"), expr("x"));
    b.load(
        scalar("l"),
        Expression::Constant { value: 4, bits: 32 },
        falcon::il::Array::new("mem".to_string(), 64),
    );
    let insns = b.instructions_mut();
    insns.pop();
    assert_eq!(b.instructions().len(), 1);
}
