use xiyi_compiler::ast::{BinaryOp, Type, UnaryOp};
use xiyi_compiler::literal::Literal;
use xiyi_compiler::mir::{
    MirBlock, MirBody, MirFn, MirLocal, MirOperand, MirPlace, MirProgram, MirRvalue, MirStmt,
    MirTerminator, SsaLocal,
};
use xiyi_compiler::simplify::Simplify;

fn var(n: usize) -> MirPlace {
    MirPlace::Ssa(SsaLocal { base_id: n, version: 0 })
}

fn copy(n: usize) -> MirOperand {
    MirOperand::Copy(var(n))
}

fn num(v: i32) -> MirOperand {
    MirOperand::Constant(Literal::Int32(v))
}

fn boolean(v: bool) -> MirOperand {
    MirOperand::Constant(Literal::Bool(v))
}

fn assign(n: usize, value: MirRvalue) -> MirStmt {
    MirStmt::Assign { dest: var(n), value }
}

fn bin(op: BinaryOp, l: MirOperand, r: MirOperand) -> MirRvalue {
    MirRvalue::BinaryOp(op, l, r)
}

fn call(args: Vec<MirOperand>) -> MirRvalue {
    MirRvalue::Call {
        func: "g".to_string(),
        args,
        is_intrinsic: false,
        intrinsic_name: None,
        generic_args: vec![],
    }
}

fn block(id: usize, stmts: Vec<MirStmt>, terminator: MirTerminator) -> MirBlock {
    MirBlock { id, stmts, terminator }
}

fn ret(n: usize) -> MirTerminator {
    MirTerminator::Return(Some(copy(n)))
}

fn local(id: usize, ty: Type) -> MirLocal {
    MirLocal { id, name: None, ty, mutable: false, persist: false, is_param: false }
}

fn optimized_with(locals: Vec<MirLocal>, blocks: Vec<MirBlock>) -> String {
    let p = MirProgram {
        structs: vec![],
        enums: vec![],
        fns: vec![MirFn {
            name: "f".to_string(),
            generic_params: vec![],
            params: vec![],
            return_type: None,
            body: MirBody { locals, blocks },
        }],
        intrinsics_used: vec![],
    };
    let r = Simplify::run(p);
    format!("{:?}", r.fns[0].body.blocks)
}

fn optimized(blocks: Vec<MirBlock>) -> String {
    optimized_with(vec![], blocks)
}

fn shown(blocks: Vec<MirBlock>) -> String {
    format!("{:?}", blocks)
}

/// The value that a single right-hand side of local 1 is folded to.
fn folded(value: MirRvalue) -> String {
    optimized(vec![block(0, vec![assign(1, value)], ret(1))])
}

fn kept(value: MirRvalue) -> String {
    shown(vec![block(0, vec![assign(1, value)], ret(1))])
}

#[test]
fn constants_propagate_and_fold() {
    let r = optimized(vec![block(
        0,
        vec![
            assign(1, bin(BinaryOp::Add, num(2), num(3))),
            assign(2, bin(BinaryOp::Mul, copy(1), num(4))),
            assign(3, MirRvalue::UnaryOp(UnaryOp::Neg, copy(2))),
        ],
        ret(3),
    )]);
    assert_eq!(r, shown(vec![block(0, vec![assign(3, MirRvalue::Use(num(-20)))], ret(3))]));
}

#[test]
fn what_does_not_fold_stays() {
    let v = || bin(BinaryOp::Add, num(i32::MAX), num(1));
    assert_eq!(folded(v()), kept(v()));
    let v = || bin(BinaryOp::Div, num(1), num(0));
    assert_eq!(folded(v()), kept(v()));
}

#[test]
fn multiplication_identities() {
    assert_eq!(folded(bin(BinaryOp::Mul, num(0), copy(7))), kept(MirRvalue::Use(num(0))));
    assert_eq!(folded(bin(BinaryOp::Mul, copy(7), num(0))), kept(MirRvalue::Use(num(0))));
    assert_eq!(folded(bin(BinaryOp::Mul, num(1), copy(7))), kept(MirRvalue::Use(copy(7))));
    assert_eq!(folded(bin(BinaryOp::Mul, copy(7), num(1))), kept(MirRvalue::Use(copy(7))));
    let v = || bin(BinaryOp::Mul, copy(7), num(2));
    assert_eq!(folded(v()), kept(v()));
}

#[test]
fn addition_and_subtraction_identities() {
    assert_eq!(folded(bin(BinaryOp::Add, num(0), copy(7))), kept(MirRvalue::Use(copy(7))));
    assert_eq!(folded(bin(BinaryOp::Add, copy(7), num(0))), kept(MirRvalue::Use(copy(7))));
    assert_eq!(folded(bin(BinaryOp::Sub, copy(7), num(0))), kept(MirRvalue::Use(copy(7))));
    let v = || bin(BinaryOp::Sub, num(0), copy(7));
    assert_eq!(folded(v()), kept(v()));
}

#[test]
fn logical_identities() {
    assert_eq!(folded(bin(BinaryOp::And, boolean(true), copy(7))), kept(MirRvalue::Use(copy(7))));
    assert_eq!(folded(bin(BinaryOp::And, copy(7), boolean(true))), kept(MirRvalue::Use(copy(7))));
    assert_eq!(folded(bin(BinaryOp::And, copy(7), boolean(false))), kept(MirRvalue::Use(boolean(false))));
    assert_eq!(folded(bin(BinaryOp::Or, boolean(true), copy(7))), kept(MirRvalue::Use(boolean(true))));
    assert_eq!(folded(bin(BinaryOp::Or, copy(7), boolean(false))), kept(MirRvalue::Use(copy(7))));
}

#[test]
fn comparing_an_operand_with_itself() {
    assert_eq!(folded(bin(BinaryOp::Eq, copy(7), copy(7))), kept(MirRvalue::Use(boolean(true))));
    assert_eq!(folded(bin(BinaryOp::Neq, copy(7), copy(7))), kept(MirRvalue::Use(boolean(false))));
    let v = || bin(BinaryOp::Eq, copy(7), copy(8));
    assert_eq!(folded(v()), kept(v()));
    let v = || bin(BinaryOp::Eq, copy(7), MirOperand::Move(var(7)));
    assert_eq!(folded(v()), kept(v()));
}

#[test]
fn branch_on_a_constant_is_a_jump() {
    let r = optimized(vec![
        block(
            0,
            vec![assign(1, bin(BinaryOp::Lt, num(1), num(2)))],
            MirTerminator::If { cond: copy(1), then_block: 1, else_block: 2 },
        ),
        block(1, vec![assign(2, call(vec![]))], ret(2)),
        block(2, vec![assign(3, call(vec![]))], ret(3)),
    ]);
    assert_eq!(
        r,
        shown(vec![
            block(0, vec![], MirTerminator::Goto(1)),
            block(1, vec![assign(2, call(vec![]))], ret(2)),
        ])
    );
}

#[test]
fn switch_on_a_constant_takes_the_first_matching_arm() {
    let make = |v: i32| {
        vec![
            block(
                0,
                vec![assign(1, MirRvalue::Use(num(v)))],
                MirTerminator::Switch {
                    discr: copy(1),
                    discr_ty: Type::I32,
                    targets: vec![(Literal::Int32(4), 1), (Literal::Int32(4), 2)],
                    default: 2,
                },
            ),
            block(1, vec![assign(2, call(vec![]))], ret(2)),
            block(2, vec![assign(3, call(vec![]))], ret(3)),
        ]
    };
    assert_eq!(
        optimized(make(4)),
        shown(vec![
            block(0, vec![], MirTerminator::Goto(1)),
            block(1, vec![assign(2, call(vec![]))], ret(2)),
        ])
    );
    assert_eq!(
        optimized(make(5)),
        shown(vec![
            block(0, vec![], MirTerminator::Goto(1)),
            block(2, vec![assign(3, call(vec![]))], ret(3)),
        ])
    );
}

#[test]
fn calls_are_kept_though_nothing_reads_them() {
    let make = || vec![block(0, vec![assign(1, call(vec![num(1)]))], MirTerminator::Return(None))];
    assert_eq!(optimized(make()), shown(make()));
}

#[test]
fn dead_stores_go() {
    let r = optimized(vec![block(
        0,
        vec![assign(1, MirRvalue::Use(num(1))), assign(2, MirRvalue::ArrayLiteral(vec![num(2)]))],
        MirTerminator::Return(None),
    )]);
    assert_eq!(r, shown(vec![block(0, vec![], MirTerminator::Return(None))]));
}

#[test]
fn stores_through_projections_are_kept() {
    let make = || {
        vec![block(
            0,
            vec![MirStmt::Assign {
                dest: MirPlace::Field { base: Box::new(var(1)), field: "x".to_string() },
                value: MirRvalue::Use(num(1)),
            }],
            MirTerminator::Return(None),
        )]
    };
    assert_eq!(optimized(make()), shown(make()));
}

#[test]
fn copies_propagate_where_the_type_is_copied() {
    let make = || {
        vec![block(
            0,
            vec![
                assign(2, MirRvalue::Use(copy(1))),
                MirStmt::ExprStmt(call(vec![copy(2)])),
            ],
            MirTerminator::Return(None),
        )]
    };
    assert_eq!(
        optimized_with(vec![local(2, Type::I32)], make()),
        shown(vec![block(
            0,
            vec![MirStmt::ExprStmt(call(vec![copy(1)]))],
            MirTerminator::Return(None),
        )])
    );
    assert_eq!(
        optimized_with(vec![local(2, Type::Struct("S".to_string()))], make()),
        shown(make())
    );
}

#[test]
fn nothing_is_carried_from_block_to_block() {
    let make = || {
        vec![
            block(
                0,
                vec![assign(1, MirRvalue::Use(num(1)))],
                MirTerminator::If { cond: copy(9), then_block: 1, else_block: 2 },
            ),
            block(1, vec![assign(2, bin(BinaryOp::Add, copy(1), num(2)))], ret(2)),
            block(2, vec![], ret(1)),
        ]
    };
    assert_eq!(optimized(make()), shown(make()));
}

#[test]
fn blocks_that_only_jump_go() {
    let r = optimized(vec![
        block(0, vec![], MirTerminator::If { cond: copy(9), then_block: 1, else_block: 3 }),
        block(1, vec![], MirTerminator::Goto(2)),
        block(2, vec![], MirTerminator::Goto(4)),
        block(3, vec![assign(2, call(vec![]))], MirTerminator::Goto(4)),
        block(4, vec![], ret(9)),
    ]);
    assert_eq!(
        r,
        shown(vec![
            block(0, vec![], MirTerminator::If { cond: copy(9), then_block: 2, else_block: 1 }),
            block(3, vec![assign(2, call(vec![]))], MirTerminator::Goto(2)),
            block(4, vec![], ret(9)),
        ])
    );
}

#[test]
fn a_block_that_jumps_to_itself_stays() {
    let make = || {
        vec![
            block(0, vec![], MirTerminator::Goto(1)),
            block(1, vec![], MirTerminator::Goto(1)),
        ]
    };
    assert_eq!(optimized(make()), shown(make()));
}

#[test]
fn phis_of_one_value_become_uses() {
    let phi = |values: Vec<(usize, MirOperand)>| assign(5, MirRvalue::Phi { values });
    let make = |values: Vec<(usize, MirOperand)>| {
        vec![
            block(0, vec![], MirTerminator::If { cond: copy(9), then_block: 1, else_block: 2 }),
            block(1, vec![assign(1, call(vec![]))], MirTerminator::Goto(3)),
            block(2, vec![assign(2, call(vec![]))], MirTerminator::Goto(3)),
            block(3, vec![phi(values)], ret(5)),
        ]
    };
    let with = |s: MirStmt| {
        vec![
            block(0, vec![], MirTerminator::If { cond: copy(9), then_block: 1, else_block: 2 }),
            block(1, vec![assign(1, call(vec![]))], MirTerminator::Goto(3)),
            block(2, vec![assign(2, call(vec![]))], MirTerminator::Goto(3)),
            block(3, vec![s], ret(5)),
        ]
    };
    assert_eq!(
        optimized(make(vec![(1, num(6)), (2, num(6))])),
        shown(with(assign(5, MirRvalue::Use(num(6)))))
    );
    assert_eq!(
        optimized(make(vec![(1, num(6)), (7, num(8))])),
        shown(with(assign(5, MirRvalue::Use(num(6)))))
    );
    assert_eq!(
        optimized(make(vec![(1, num(6)), (2, num(8))])),
        shown(with(phi(vec![(1, num(6)), (2, num(8))])))
    );
}

#[test]
fn unreachable_blocks_go() {
    let r = optimized(vec![
        block(0, vec![], MirTerminator::Goto(2)),
        block(1, vec![assign(1, call(vec![]))], ret(1)),
        block(2, vec![assign(2, call(vec![]))], ret(2)),
    ]);
    assert_eq!(
        r,
        shown(vec![
            block(0, vec![], MirTerminator::Goto(1)),
            block(2, vec![assign(2, call(vec![]))], ret(2)),
        ])
    );
}

#[test]
fn a_value_that_is_not_a_number_counts_as_equal_to_itself() {
    let nan = MirOperand::Constant(Literal::Float64(f64::NAN.to_bits()));
    let r = optimized(vec![block(
        0,
        vec![
            assign(1, MirRvalue::ArrayLiteral(vec![nan])),
            assign(2, bin(BinaryOp::Eq, copy(1), copy(1))),
        ],
        ret(2),
    )]);
    assert_eq!(r, shown(vec![block(0, vec![assign(2, MirRvalue::Use(boolean(true)))], ret(2))]));
}

#[test]
fn a_loop_without_end_keeps_running() {
    let r = optimized(vec![
        block(0, vec![assign(1, MirRvalue::Use(boolean(true)))], MirTerminator::Goto(1)),
        block(
            1,
            vec![assign(2, MirRvalue::Use(boolean(true)))],
            MirTerminator::If { cond: copy(2), then_block: 1, else_block: 2 },
        ),
        block(2, vec![], ret(1)),
    ]);
    assert_eq!(
        r,
        shown(vec![
            block(0, vec![], MirTerminator::Goto(1)),
            block(1, vec![], MirTerminator::Goto(1)),
        ])
    );
}
