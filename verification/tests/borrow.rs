use xiyi_compiler::ast::Type;
use xiyi_compiler::borrow::BorrowChecker;
use xiyi_compiler::literal::Literal;
use xiyi_compiler::mir::{
    MirBlock, MirBody, MirFn, MirLocal, MirOperand, MirPlace, MirProgram, MirRvalue, MirStmt,
    MirTerminator, SsaLocal,
};

const X: usize = 0;
const R: usize = 1;
const Q: usize = 2;
const P: usize = 3;
const Y: usize = 4;

fn var(n: usize) -> MirPlace {
    MirPlace::Ssa(SsaLocal { base_id: n, version: 0 })
}

fn field(base: MirPlace, name: &str) -> MirPlace {
    MirPlace::Field { base: Box::new(base), field: name.to_string() }
}

fn copy(p: MirPlace) -> MirOperand {
    MirOperand::Copy(p)
}

fn assign(n: usize, value: MirRvalue) -> MirStmt {
    MirStmt::Assign { dest: var(n), value }
}

fn read(p: MirPlace) -> MirStmt {
    assign(Y, MirRvalue::Use(copy(p)))
}

fn take(p: MirPlace) -> MirStmt {
    assign(Y, MirRvalue::Use(MirOperand::Move(p)))
}

fn borrow(n: usize, mutable: bool, place: MirPlace) -> MirStmt {
    assign(n, MirRvalue::Ref { mutable, place })
}

fn one() -> MirRvalue {
    MirRvalue::Use(MirOperand::Constant(Literal::Int32(1)))
}

fn pass(n: usize) -> MirStmt {
    MirStmt::ExprStmt(MirRvalue::Call {
        func: "g".to_string(),
        args: vec![copy(var(n))],
        is_intrinsic: false,
        intrinsic_name: None,
        generic_args: vec![],
    })
}

fn local(id: usize, name: Option<&str>, ty: Type, is_param: bool) -> MirLocal {
    MirLocal {
        id,
        name: name.map(|s| s.to_string()),
        ty,
        mutable: true,
        persist: false,
        is_param,
    }
}

fn block(id: usize, stmts: Vec<MirStmt>, terminator: MirTerminator) -> MirBlock {
    MirBlock { id, stmts, terminator }
}

fn check_blocks(params: Vec<usize>, blocks: Vec<MirBlock>) -> Result<(), String> {
    let s = || Type::Struct("S".to_string());
    let locals = vec![
        local(X, Some("x"), s(), params.contains(&X)),
        local(R, Some("r"), Type::I32, params.contains(&R)),
        local(Q, Some("q"), Type::I32, params.contains(&Q)),
        local(P, Some("p"), Type::I32, params.contains(&P)),
        local(Y, None, Type::I32, params.contains(&Y)),
    ];
    let p = MirProgram {
        structs: vec![],
        enums: vec![],
        fns: vec![MirFn {
            name: "f".to_string(),
            generic_params: vec![],
            params: vec![],
            return_type: None,
            body: MirBody { locals, blocks },
        }],
        intrinsics_used: vec![],
    };
    BorrowChecker::check(&p)
}

fn check(stmts: Vec<MirStmt>) -> Result<(), String> {
    check_blocks(vec![X, P], vec![block(0, stmts, MirTerminator::Return(None))])
}

fn complaint(stmts: Vec<MirStmt>) -> String {
    check(stmts).unwrap_err()
}

#[test]
fn reading_without_a_value() {
    assert_eq!(
        complaint(vec![pass(Q)]),
        "use of possibly-uninitialized variable `q`"
    );
    assert_eq!(
        complaint(vec![pass(Y)]),
        "use of possibly-uninitialized variable `_var_4`"
    );
    assert_eq!(check(vec![assign(Q, one()), pass(Q)]), Ok(()));
    assert_eq!(check(vec![pass(X)]), Ok(()));
}

#[test]
fn moving_takes_the_value_unless_it_is_copied() {
    assert_eq!(
        complaint(vec![take(var(X)), take(var(X))]),
        "use of possibly-uninitialized variable `x`"
    );
    assert_eq!(check(vec![take(var(P)), take(var(P))]), Ok(()));
    assert_eq!(check(vec![take(var(X)), assign(X, one()), take(var(X))]), Ok(()));
}

#[test]
fn dropping_takes_the_value() {
    assert_eq!(
        complaint(vec![MirStmt::Drop { place: var(X) }, pass(X)]),
        "use of possibly-uninitialized variable `x`"
    );
}

#[test]
fn a_value_on_one_branch_only_is_not_enough() {
    let make = |both: bool| {
        let other = if both { vec![assign(Q, one())] } else { vec![] };
        vec![
            block(
                0,
                vec![],
                MirTerminator::If { cond: copy(var(P)), then_block: 1, else_block: 2 },
            ),
            block(1, vec![assign(Q, one())], MirTerminator::Goto(3)),
            block(2, other, MirTerminator::Goto(3)),
            block(3, vec![], MirTerminator::Return(Some(copy(var(Q))))),
        ]
    };
    assert_eq!(
        check_blocks(vec![X, P], make(false)),
        Err("use of possibly-uninitialized variable `q`".to_string())
    );
    assert_eq!(check_blocks(vec![X, P], make(true)), Ok(()));
}

#[test]
fn a_value_that_a_loop_takes_is_gone_in_the_next_turn() {
    let r = check_blocks(
        vec![X, P],
        vec![
            block(0, vec![], MirTerminator::Goto(1)),
            block(
                1,
                vec![take(var(X))],
                MirTerminator::If { cond: copy(var(P)), then_block: 1, else_block: 2 },
            ),
            block(2, vec![], MirTerminator::Return(None)),
        ],
    );
    assert_eq!(r, Err("use of possibly-uninitialized variable `x`".to_string()));
}

#[test]
fn a_block_waits_for_control_to_enter_it() {
    let r = check_blocks(
        vec![X, P],
        vec![
            block(0, vec![], MirTerminator::Goto(2)),
            block(1, vec![], MirTerminator::Return(Some(copy(var(P))))),
            block(2, vec![], MirTerminator::Goto(1)),
        ],
    );
    assert_eq!(r, Ok(()));
    let r = check_blocks(
        vec![],
        vec![
            block(0, vec![], MirTerminator::Goto(2)),
            block(1, vec![], MirTerminator::Return(Some(copy(var(Q))))),
            block(2, vec![], MirTerminator::Goto(1)),
        ],
    );
    assert_eq!(r, Err("use of possibly-uninitialized variable `q`".to_string()));
    let r = check_blocks(
        vec![X, P],
        vec![
            block(0, vec![], MirTerminator::Return(None)),
            block(1, vec![pass(Q)], MirTerminator::Return(None)),
        ],
    );
    assert_eq!(r, Ok(()));
}

#[test]
fn a_borrow_counts_once_it_was_made() {
    let mut stmts = vec![
        borrow(R, true, var(X)),
        read(var(P)),
        pass(R),
        borrow(R, true, var(P)),
        pass(R),
    ];
    assert_eq!(check_blocks(vec![X, P], vec![block(0, stmts, MirTerminator::Return(None))]), Ok(()));
    stmts = vec![
        borrow(R, true, var(X)),
        borrow(R, true, var(P)),
        read(var(P)),
        pass(R),
    ];
    assert_eq!(
        complaint(stmts),
        "cannot read `p` because it is mutably borrowed as `r`"
    );
    let turn = vec![read(var(P)), pass(R), borrow(R, true, var(P))];
    let r = check_blocks(
        vec![X, P],
        vec![
            block(0, vec![borrow(R, true, var(X))], MirTerminator::Goto(1)),
            block(1, turn, MirTerminator::Goto(1)),
        ],
    );
    assert_eq!(r, Err("cannot read `p` because it is mutably borrowed as `r`".to_string()));
}

#[test]
fn reading_what_is_mutably_borrowed() {
    assert_eq!(
        complaint(vec![borrow(R, true, var(X)), read(var(X)), pass(R)]),
        "cannot read `x` because it is mutably borrowed as `r`"
    );
    assert_eq!(check(vec![borrow(R, false, var(X)), read(var(X)), pass(R)]), Ok(()));
}

#[test]
fn a_borrow_ends_with_its_last_use() {
    assert_eq!(check(vec![borrow(R, true, var(X)), pass(R), read(var(X))]), Ok(()));
    assert_eq!(check(vec![borrow(R, true, var(X)), read(var(X))]), Ok(()));
}

#[test]
fn writing_what_is_borrowed() {
    assert_eq!(
        complaint(vec![borrow(R, false, var(X)), assign(X, one()), pass(R)]),
        "cannot write `x` because it is shared(immutably) borrowed as `r`"
    );
    assert_eq!(
        complaint(vec![borrow(R, true, var(X)), assign(X, one()), pass(R)]),
        "cannot write `x` because it is mutably borrowed as `r`"
    );
}

#[test]
fn moving_and_dropping_what_is_borrowed() {
    assert_eq!(
        complaint(vec![borrow(R, false, var(X)), take(var(X)), pass(R)]),
        "cannot move `x` because it is shared(immutably) borrowed as `r`"
    );
    assert_eq!(
        complaint(vec![borrow(R, false, var(X)), MirStmt::Drop { place: var(X) }, pass(R)]),
        "cannot drop `x` because it is shared(immutably) borrowed as `r`"
    );
}

#[test]
fn borrowing_what_is_borrowed() {
    assert_eq!(
        complaint(vec![borrow(R, true, var(X)), borrow(Q, true, var(X)), pass(R)]),
        "cannot mutably borrow `x` because it is already mutably borrowed as `r`"
    );
    assert_eq!(
        complaint(vec![borrow(R, false, var(X)), borrow(Q, true, var(X)), pass(R)]),
        "cannot mutably borrow `x` because it is already shared(immutably) borrowed as `r`"
    );
    assert_eq!(
        complaint(vec![borrow(R, true, var(X)), borrow(Q, false, var(X)), pass(R)]),
        "cannot shared-borrow `x` because it is mutably borrowed as `r`"
    );
    assert_eq!(
        check(vec![borrow(R, false, var(X)), borrow(Q, false, var(X)), pass(R), pass(Q)]),
        Ok(())
    );
}

#[test]
fn different_fields_do_not_overlap() {
    let a = || field(var(X), "a");
    let b = || field(var(X), "b");
    assert_eq!(check(vec![borrow(R, true, a()), read(b()), pass(R)]), Ok(()));
    assert_eq!(
        complaint(vec![borrow(R, true, a()), read(a()), pass(R)]),
        "cannot read `x.a` because it is mutably borrowed as `r`"
    );
    assert_eq!(
        complaint(vec![borrow(R, true, a()), read(var(X)), pass(R)]),
        "cannot read `x` because it is mutably borrowed as `r`"
    );
    assert_eq!(
        complaint(vec![borrow(R, true, var(X)), read(field(b(), "c")), pass(R)]),
        "cannot read `x.b.c` because it is mutably borrowed as `r`"
    );
}

#[test]
fn behind_a_reference_all_parts_count_as_one() {
    let part = |name: &str| field(MirPlace::Deref(Box::new(var(P))), name);
    assert_eq!(
        complaint(vec![borrow(R, true, part("a")), read(part("b")), pass(R)]),
        "cannot read `*p.b` because it is mutably borrowed as `r`"
    );
}

#[test]
fn an_index_reads_its_operand() {
    let elem = MirPlace::Index { base: Box::new(var(X)), index: Box::new(copy(var(P))) };
    assert_eq!(
        complaint(vec![borrow(R, true, var(P)), read(elem), pass(R)]),
        "cannot read `p` because it is mutably borrowed as `r`"
    );
}

#[test]
fn a_conflict_in_a_terminator() {
    let make = |r: MirTerminator| vec![block(0, vec![borrow(R, true, var(X))], r)];
    assert_eq!(
        check_blocks(vec![X, P], make(MirTerminator::Return(Some(copy(var(X)))))),
        Ok(())
    );
    let keep = check_blocks(
        vec![X, P],
        vec![
            block(
                0,
                vec![borrow(R, true, var(X))],
                MirTerminator::If { cond: copy(var(X)), then_block: 1, else_block: 1 },
            ),
            block(1, vec![pass(R)], MirTerminator::Return(None)),
        ],
    );
    assert_eq!(keep, Err("cannot read `x` because it is mutably borrowed as `r`".to_string()));
}

#[test]
fn a_terminator_that_was_never_set() {
    let r = check_blocks(vec![], vec![block(0, vec![], MirTerminator::Placeholder)]);
    assert!(r.unwrap_err().starts_with(
        "internal error: block terminator is still Placeholder at borrow-check time"
    ));
}

#[test]
fn a_function_without_blocks_passes() {
    assert_eq!(check_blocks(vec![], vec![]), Ok(()));
}

#[test]
fn places_meet_unless_fields_part_them() {
    let overlap = BorrowChecker::places_overlap;
    let later = MirPlace::Ssa(SsaLocal { base_id: X, version: 7 });
    let through = |p: MirPlace| MirPlace::Deref(Box::new(p));
    let (a, b) = (field(var(X), "a"), field(var(X), "b"));
    assert!(overlap(&a, &a));
    assert!(overlap(&a, &later) && overlap(&later, &a));
    assert!(!overlap(&a, &b) && !overlap(&b, &a));
    assert!(!overlap(&a, &field(var(Y), "a")));
    assert!(overlap(&field(through(var(X)), "a"), &field(through(var(X)), "b")));
    assert!(!overlap(&through(a), &through(b)));
}
