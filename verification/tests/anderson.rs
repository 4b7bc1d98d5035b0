use anderson::constraints::{Constraint, Ty};
use anderson::errors::{AnalysisErrorKind, SimpleAndersonError};
use anderson::ir::{BasicBlock, Body, MirPlace, Operand, Projection, Rvalue, Statement};
use anderson::simple_anderson::SimpleAnderson;

fn ty(ptr_depth: usize) -> Ty {
    Ty { ptr_depth }
}

fn place(local: usize, derefs: usize) -> MirPlace {
    MirPlace { local, projection: vec![Projection::Deref; derefs] }
}

fn body_of(decl_depths: Vec<usize>, statements: Vec<Statement>) -> Body {
    Body {
        local_decls: decl_depths.into_iter().map(|d| ty(d)).collect(),
        basic_blocks: vec![BasicBlock { statements }],
    }
}

fn constraints_of(engine: &SimpleAnderson) -> Vec<(usize, Constraint)> {
    engine.constraints()
}

#[test]
fn new_engine_is_empty() {
    let engine = SimpleAnderson::new();
    assert_eq!(engine.num_locations(), 0);
    assert!(constraints_of(&engine).is_empty());
    assert!(engine.errors().is_empty());
}

#[test]
fn clear_resets_count_to_zero() {
    let mut engine = SimpleAnderson::new();
    let b = body_of(vec![1, 0], vec![Statement::Assign(place(0, 0), Rvalue::Ref(place(1, 0)))]);
    engine.analyze(7, Some(&b));
    assert_eq!(engine.num_locations(), 2);
    engine.clear();
    assert_eq!(engine.num_locations(), 0);
    assert!(constraints_of(&engine).is_empty());
}

#[test]
fn shallow_body_allocates_one_location_per_local() {
    // locals: x (pointer), y, z; no statement reaches through more than
    // one pointer level, so no intermediate location is allocated
    let b = body_of(
        vec![1, 0, 0],
        vec![
            Statement::Assign(place(0, 0), Rvalue::Ref(place(1, 0))),
            Statement::Assign(place(0, 0), Rvalue::Ref(place(2, 0))),
            Statement::StorageLive,
        ],
    );
    let mut engine = SimpleAnderson::new();
    engine.analyze(1, Some(&b));
    assert_eq!(engine.num_locations(), 3);
}

#[test]
fn addr_of_yields_exactly_one_constraint() {
    // x = &y, both direct
    let b = body_of(vec![1, 0], vec![Statement::Assign(place(0, 0), Rvalue::Ref(place(1, 0)))]);
    let mut engine = SimpleAnderson::new();
    engine.analyze(1, Some(&b));
    assert_eq!(constraints_of(&engine), vec![(0, Constraint::AddrOf(1))]);
    assert_eq!(engine.num_locations(), 2);
}

#[test]
fn store_addr_through_pointer_allocates_nothing_fresh() {
    // *x = &y: destination depth 1, source direct
    let b = body_of(vec![2, 0], vec![Statement::Assign(place(0, 1), Rvalue::Ref(place(1, 0)))]);
    let mut engine = SimpleAnderson::new();
    engine.analyze(1, Some(&b));
    assert_eq!(constraints_of(&engine), vec![(0, Constraint::StoreAddr(1))]);
    assert_eq!(engine.num_locations(), 2);
}

#[test]
fn ref_of_deref_cancels_to_copy() {
    // x = &*p is x = p: exactly one Copy, nothing fresh
    let b = body_of(vec![1, 1], vec![Statement::Assign(place(0, 0), Rvalue::Ref(place(1, 1)))]);
    let mut engine = SimpleAnderson::new();
    engine.analyze(1, Some(&b));
    assert_eq!(constraints_of(&engine), vec![(0, Constraint::Copy(1))]);
    assert_eq!(engine.num_locations(), 2);
}

#[test]
fn deep_load_chain_allocates_k_minus_one_locations() {
    // x = **q: two dereferences on the source side (chain depth 2)
    let b = body_of(
        vec![1, 3],
        vec![Statement::Assign(place(0, 0), Rvalue::Use(Operand::Copy(place(1, 2))))],
    );
    let mut engine = SimpleAnderson::new();
    engine.analyze(1, Some(&b));
    // one fresh intermediate (id 2), one chained Load, one terminal Load
    assert_eq!(engine.num_locations(), 3);
    let cs = constraints_of(&engine);
    assert_eq!(cs.len(), 2);
    assert!(cs.contains(&(2, Constraint::Load(1))));
    assert!(cs.contains(&(0, Constraint::Load(2))));
}

#[test]
fn deep_store_chain_terminates_with_store() {
    // **x = y: both sides pointers, destination depth 2 (chain depth 2)
    let b = body_of(
        vec![3, 1],
        vec![Statement::Assign(place(0, 2), Rvalue::Use(Operand::Move(place(1, 0))))],
    );
    let mut engine = SimpleAnderson::new();
    engine.analyze(1, Some(&b));
    assert_eq!(engine.num_locations(), 3);
    let cs = constraints_of(&engine);
    assert_eq!(cs.len(), 2);
    assert!(cs.contains(&(2, Constraint::Load(0))));
    assert!(cs.contains(&(2, Constraint::Store(1))));
}

#[test]
fn ref_with_deep_source_cancels_then_chains() {
    // *x = &**p cancels to *x = *p: chain depth 2, so one fresh
    // intermediate, one chained Load, one terminal Store
    let b = body_of(
        vec![2, 3],
        vec![Statement::Assign(place(0, 1), Rvalue::Ref(place(1, 2)))],
    );
    let mut engine = SimpleAnderson::new();
    engine.analyze(1, Some(&b));
    assert_eq!(engine.num_locations(), 3);
    let cs = constraints_of(&engine);
    assert_eq!(cs.len(), 2);
    assert!(cs.contains(&(2, Constraint::Load(1))));
    assert!(cs.contains(&(0, Constraint::Store(2))));
}

#[test]
fn duplicate_statements_yield_one_pair() {
    let stmt = || Statement::Assign(place(0, 0), Rvalue::Ref(place(1, 0)));
    let b = body_of(vec![1, 0], vec![stmt(), stmt(), stmt()]);
    let mut engine = SimpleAnderson::new();
    engine.analyze(1, Some(&b));
    assert_eq!(constraints_of(&engine), vec![(0, Constraint::AddrOf(1))]);
}

#[test]
fn snapshot_is_sorted_and_free_of_duplicates() {
    let b = body_of(
        vec![1, 0, 1, 1],
        vec![
            Statement::Assign(place(2, 0), Rvalue::Use(Operand::Copy(place(3, 0)))),
            Statement::Assign(place(0, 0), Rvalue::Ref(place(1, 0))),
            Statement::Assign(place(0, 0), Rvalue::Ref(place(1, 0))),
            Statement::Assign(place(2, 0), Rvalue::Use(Operand::Copy(place(0, 0)))),
        ],
    );
    let mut engine = SimpleAnderson::new();
    engine.analyze(1, Some(&b));
    let cs = constraints_of(&engine);
    for w in cs.windows(2) {
        assert!(w[0].0 <= w[1].0);
    }
    for i in 0..cs.len() {
        for j in (i + 1)..cs.len() {
            assert_ne!(cs[i], cs[j]);
        }
    }
    assert_eq!(cs.len(), 3);
}

#[test]
fn constant_pointer_source_is_reported_and_skipped() {
    // x = <constant pointer>, then y = &z: the constant contributes no
    // constraint and one report; the next statement is still processed
    let b = body_of(
        vec![1, 1, 0],
        vec![
            Statement::Assign(place(0, 0), Rvalue::Use(Operand::Constant(ty(1)))),
            Statement::Assign(place(1, 0), Rvalue::Ref(place(2, 0))),
        ],
    );
    let mut engine = SimpleAnderson::new();
    engine.analyze(1, Some(&b));
    assert_eq!(constraints_of(&engine), vec![(1, Constraint::AddrOf(2))]);
    assert_eq!(
        engine.errors().as_slice(),
        &[
            SimpleAndersonError::UnsupportedConstantPointer,
            SimpleAndersonError::ConstraintCheck,
        ],
    );
    assert_eq!(engine.num_locations(), 3);
}

#[test]
fn non_pointer_source_under_pointer_destination_is_reported() {
    let b = body_of(
        vec![1, 0],
        vec![Statement::Assign(place(0, 0), Rvalue::Use(Operand::Copy(place(1, 0))))],
    );
    let mut engine = SimpleAnderson::new();
    engine.analyze(1, Some(&b));
    assert!(constraints_of(&engine).is_empty());
    assert_eq!(
        engine.errors().as_slice(),
        &[
            SimpleAndersonError::UnsupportedConstantPointer,
            SimpleAndersonError::ConstraintCheck,
        ],
    );
}

#[test]
fn non_pointer_assignment_is_a_no_op() {
    let b = body_of(
        vec![0, 0],
        vec![Statement::Assign(place(0, 0), Rvalue::Use(Operand::Copy(place(1, 0))))],
    );
    let mut engine = SimpleAnderson::new();
    engine.analyze(1, Some(&b));
    assert!(constraints_of(&engine).is_empty());
    assert_eq!(engine.errors().as_slice(), &[SimpleAndersonError::ConstraintCheck]);
}

#[test]
fn cast_behaves_like_plain_use() {
    let b = body_of(
        vec![1, 1],
        vec![Statement::Assign(place(0, 0), Rvalue::Cast(Operand::Copy(place(1, 0))))],
    );
    let mut engine = SimpleAnderson::new();
    engine.analyze(1, Some(&b));
    assert_eq!(constraints_of(&engine), vec![(0, Constraint::Copy(1))]);
}

#[test]
fn operator_assignments_emit_nothing() {
    let b = body_of(
        vec![1, 0],
        vec![
            Statement::Assign(place(1, 0), Rvalue::BinaryOp),
            Statement::Assign(place(1, 0), Rvalue::UnaryOp),
            Statement::StorageLive,
            Statement::StorageDead,
            Statement::Nop,
        ],
    );
    let mut engine = SimpleAnderson::new();
    engine.analyze(1, Some(&b));
    assert!(constraints_of(&engine).is_empty());
    assert_eq!(engine.errors().as_slice(), &[SimpleAndersonError::ConstraintCheck]);
}

#[test]
fn unsupported_shapes_are_reported_not_fatal() {
    let b = body_of(
        vec![1, 1],
        vec![
            Statement::Other,
            Statement::Assign(place(0, 0), Rvalue::Other),
            Statement::Assign(
                place(0, 0),
                Rvalue::Use(Operand::Copy(MirPlace {
                    local: 1,
                    projection: vec![Projection::Other(ty(1))],
                })),
            ),
            Statement::Assign(place(0, 0), Rvalue::Ref(place(1, 0))),
        ],
    );
    let mut engine = SimpleAnderson::new();
    engine.analyze(1, Some(&b));
    assert_eq!(constraints_of(&engine), vec![(0, Constraint::AddrOf(1))]);
    assert_eq!(
        engine.errors().as_slice(),
        &[
            SimpleAndersonError::UnsupportedStatement,
            SimpleAndersonError::UnsupportedRvalue,
            SimpleAndersonError::UnsupportedProjection,
            SimpleAndersonError::ConstraintCheck,
        ],
    );
}

#[test]
fn missing_body_contributes_nothing() {
    let mut engine = SimpleAnderson::new();
    engine.analyze(42, None);
    assert_eq!(engine.num_locations(), 0);
    assert!(constraints_of(&engine).is_empty());
    assert_eq!(
        engine.errors().as_slice(),
        &[SimpleAndersonError::BodyNotFound, SimpleAndersonError::ConstraintCheck],
    );
}

#[test]
fn error_kinds_classify_reports() {
    assert_eq!(SimpleAndersonError::BodyNotFound.kind(), AnalysisErrorKind::OutOfScope);
    assert_eq!(SimpleAndersonError::ConstraintCheck.kind(), AnalysisErrorKind::Unimplemented);
    assert_eq!(SimpleAndersonError::UnsupportedProjection.kind(), AnalysisErrorKind::Unimplemented);
    assert_eq!(SimpleAndersonError::UnsupportedRvalue.kind(), AnalysisErrorKind::Unimplemented);
    assert_eq!(SimpleAndersonError::UnsupportedStatement.kind(), AnalysisErrorKind::Unimplemented);
    assert_eq!(
        SimpleAndersonError::UnsupportedConstantPointer.kind(),
        AnalysisErrorKind::Unimplemented,
    );
    assert_eq!(
        SimpleAndersonError::UnsupportedPointerCast.kind(),
        AnalysisErrorKind::Unimplemented,
    );
}

#[test]
fn rerun_carries_nothing_across_instances() {
    let body_a = body_of(
        vec![2, 3, 1],
        vec![
            Statement::Assign(place(0, 1), Rvalue::Ref(place(2, 0))),
            Statement::Assign(place(2, 0), Rvalue::Use(Operand::Copy(place(1, 2)))),
        ],
    );
    let body_b = body_of(vec![1, 0], vec![Statement::Assign(place(0, 0), Rvalue::Ref(place(1, 0)))]);

    let mut reused = SimpleAnderson::new();
    reused.analyze(1, Some(&body_a));
    reused.analyze(2, Some(&body_b));

    let mut fresh = SimpleAnderson::new();
    fresh.analyze(2, Some(&body_b));

    assert_eq!(reused.num_locations(), fresh.num_locations());
    assert_eq!(constraints_of(&reused), constraints_of(&fresh));
    assert_eq!(reused.errors().as_slice(), fresh.errors().as_slice());
    assert_eq!(constraints_of(&reused), vec![(0, Constraint::AddrOf(1))]);
}
