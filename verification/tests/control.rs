use xiyi_compiler::ast::{BinaryOp, Type};
use xiyi_compiler::control::Control;
use xiyi_compiler::literal::Literal;
use xiyi_compiler::mir::{
    MirBlock, MirBody, MirFn, MirOperand, MirPlace, MirProgram, MirRvalue, MirStmt, MirTerminator,
    SsaLocal,
};
use xiyi_compiler::simplify::Simplify;

fn var(n: usize) -> MirPlace {
    MirPlace::Ssa(SsaLocal { base_id: n, version: 0 })
}

fn copy(n: usize) -> MirOperand {
    MirOperand::Copy(var(n))
}

fn num(v: i32) -> MirOperand {
    MirOperand::Constant(Literal::Int32(v))
}

fn set(n: usize, v: i32) -> MirStmt {
    MirStmt::Assign { dest: var(n), value: MirRvalue::Use(num(v)) }
}

fn block(id: usize, stmts: Vec<MirStmt>, terminator: MirTerminator) -> MirBlock {
    MirBlock { id, stmts, terminator }
}

fn ret(n: usize) -> MirTerminator {
    MirTerminator::Return(Some(copy(n)))
}

fn program(blocks: Vec<MirBlock>) -> MirProgram {
    MirProgram {
        structs: vec![],
        enums: vec![],
        fns: vec![MirFn {
            name: "f".to_string(),
            generic_params: vec![],
            params: vec![],
            return_type: None,
            body: MirBody { locals: vec![], blocks },
        }],
        intrinsics_used: vec![],
    }
}

fn simplified(blocks: Vec<MirBlock>) -> String {
    let mut p = program(blocks);
    Control::simplify(&mut p);
    format!("{:?}", p.fns[0].body.blocks)
}

fn shown(blocks: Vec<MirBlock>) -> String {
    format!("{:?}", blocks)
}

#[test]
fn straight_line_blocks_become_one() {
    let r = simplified(vec![
        block(0, vec![], MirTerminator::Goto(1)),
        block(1, vec![set(1, 7)], MirTerminator::Goto(2)),
        block(2, vec![set(2, 8)], ret(1)),
    ]);
    assert_eq!(r, shown(vec![block(0, vec![set(1, 7), set(2, 8)], ret(1))]));
}

#[test]
fn switch_without_choice_becomes_a_jump() {
    let r = simplified(vec![
        block(
            0,
            vec![set(1, 1)],
            MirTerminator::Switch {
                discr: copy(1),
                discr_ty: Type::I32,
                targets: vec![(Literal::Int32(1), 1), (Literal::Int32(2), 1)],
                default: 1,
            },
        ),
        block(1, vec![], ret(1)),
    ]);
    assert_eq!(r, shown(vec![block(0, vec![set(1, 1)], ret(1))]));
}

#[test]
fn switch_without_arms_becomes_a_jump() {
    let r = simplified(vec![
        block(
            0,
            vec![],
            MirTerminator::Switch { discr: copy(1), discr_ty: Type::I32, targets: vec![], default: 1 },
        ),
        block(1, vec![set(3, 3)], MirTerminator::Goto(1)),
    ]);
    assert_eq!(
        r,
        shown(vec![
            block(0, vec![], MirTerminator::Goto(1)),
            block(1, vec![set(3, 3)], MirTerminator::Goto(1)),
        ])
    );
}

#[test]
fn switch_with_a_choice_stays() {
    let make = || {
        vec![
            block(
                0,
                vec![],
                MirTerminator::Switch {
                    discr: copy(1),
                    discr_ty: Type::I32,
                    targets: vec![(Literal::Int32(1), 1)],
                    default: 2,
                },
            ),
            block(1, vec![set(1, 1)], ret(1)),
            block(2, vec![set(1, 2)], ret(1)),
        ]
    };
    assert_eq!(simplified(make()), shown(make()));
}

#[test]
fn jumps_through_empty_blocks_are_shortened() {
    let r = simplified(vec![
        block(
            0,
            vec![],
            MirTerminator::If { cond: copy(9), then_block: 1, else_block: 4 },
        ),
        block(1, vec![set(1, 1)], MirTerminator::Goto(2)),
        block(2, vec![], MirTerminator::Goto(3)),
        block(3, vec![], MirTerminator::Goto(4)),
        block(4, vec![set(2, 2)], ret(2)),
    ]);
    assert_eq!(
        r,
        shown(vec![
            block(0, vec![], MirTerminator::If { cond: copy(9), then_block: 1, else_block: 2 }),
            block(1, vec![set(1, 1)], MirTerminator::Goto(2)),
            block(4, vec![set(2, 2)], ret(2)),
        ])
    );
}

#[test]
fn empty_endless_loop_survives() {
    let make = || {
        vec![
            block(0, vec![], MirTerminator::Goto(1)),
            block(1, vec![], MirTerminator::Goto(1)),
        ]
    };
    assert_eq!(simplified(make()), shown(make()));
}

#[test]
fn equal_blocks_are_merged() {
    let r = simplified(vec![
        block(0, vec![], MirTerminator::If { cond: copy(9), then_block: 1, else_block: 2 }),
        block(1, vec![set(1, 1)], MirTerminator::Goto(3)),
        block(2, vec![set(1, 1)], MirTerminator::Goto(3)),
        block(3, vec![], ret(1)),
    ]);
    assert_eq!(
        r,
        shown(vec![
            block(0, vec![], MirTerminator::If { cond: copy(9), then_block: 1, else_block: 1 }),
            block(1, vec![set(1, 1)], ret(1)),
        ])
    );
}

#[test]
fn no_block_is_merged_with_the_entry() {
    let branch = || MirTerminator::If { cond: copy(9), then_block: 1, else_block: 2 };
    let r = simplified(vec![
        block(0, vec![set(1, 1)], branch()),
        block(1, vec![set(1, 1)], branch()),
        block(2, vec![], ret(1)),
    ]);
    assert_eq!(
        r,
        shown(vec![
            block(0, vec![set(1, 1)], branch()),
            block(1, vec![set(1, 1)], branch()),
            block(2, vec![], ret(1)),
        ])
    );
}

#[test]
fn blocks_with_phis_are_not_merged() {
    let phi = || MirStmt::Assign {
        dest: var(5),
        value: MirRvalue::Phi { values: vec![(0, num(1)), (0, num(2))] },
    };
    let make = || {
        vec![
            block(0, vec![], MirTerminator::If { cond: copy(9), then_block: 1, else_block: 2 }),
            block(1, vec![phi()], ret(5)),
            block(2, vec![phi()], ret(5)),
        ]
    };
    assert_eq!(simplified(make()), shown(make()));
}

#[test]
fn values_from_removed_blocks_leave_phis() {
    let r = simplified(vec![
        block(0, vec![], MirTerminator::Goto(2)),
        block(1, vec![], MirTerminator::Goto(2)),
        block(
            2,
            vec![MirStmt::Assign {
                dest: var(1),
                value: MirRvalue::Phi { values: vec![(0, num(4)), (1, num(5))] },
            }],
            ret(1),
        ),
    ]);
    assert_eq!(r, shown(vec![block(0, vec![set(1, 4)], ret(1))]));
}

#[test]
fn a_phi_without_values_goes_and_others_are_renumbered() {
    let phi = |values: Vec<(usize, MirOperand)>| MirStmt::Assign {
        dest: var(1),
        value: MirRvalue::Phi { values },
    };
    let r = simplified(vec![
        block(0, vec![], MirTerminator::If { cond: copy(9), then_block: 2, else_block: 3 }),
        block(1, vec![set(8, 8)], MirTerminator::Goto(4)),
        block(2, vec![set(2, 2)], MirTerminator::Goto(4)),
        block(3, vec![set(3, 3)], MirTerminator::Goto(4)),
        block(4, vec![phi(vec![(1, num(1))]), phi(vec![(2, num(2)), (3, num(3))])], ret(1)),
    ]);
    assert_eq!(
        r,
        shown(vec![
            block(0, vec![], MirTerminator::If { cond: copy(9), then_block: 1, else_block: 2 }),
            block(2, vec![set(2, 2)], MirTerminator::Goto(3)),
            block(3, vec![set(3, 3)], MirTerminator::Goto(3)),
            block(4, vec![phi(vec![(1, num(2)), (2, num(3))])], ret(1)),
        ])
    );
}

#[test]
fn block_count_never_grows_and_all_blocks_are_reachable() {
    let mut p = program(vec![
        block(0, vec![set(1, 1)], MirTerminator::If { cond: copy(1), then_block: 3, else_block: 5 }),
        block(1, vec![], MirTerminator::Goto(2)),
        block(2, vec![], MirTerminator::Goto(1)),
        block(3, vec![], MirTerminator::Goto(4)),
        block(4, vec![], MirTerminator::Goto(5)),
        block(5, vec![set(2, 2)], ret(2)),
    ]);
    Control::simplify(&mut p);
    let blocks = &p.fns[0].body.blocks;
    assert!(blocks.len() <= 6);
    let mut seen = vec![false; blocks.len()];
    let mut work = vec![0usize];
    while let Some(b) = work.pop() {
        if seen[b] {
            continue;
        }
        seen[b] = true;
        match &blocks[b].terminator {
            MirTerminator::Goto(t) => work.push(*t),
            MirTerminator::If { then_block, else_block, .. } => {
                work.push(*then_block);
                work.push(*else_block);
            }
            _ => {}
        }
    }
    assert!(seen.iter().all(|s| *s));
}

#[test]
fn equal_zeros_are_one_block() {
    let zero = |bits: u64| MirTerminator::Return(Some(MirOperand::Constant(Literal::Float64(bits))));
    let r = simplified(vec![
        block(0, vec![], MirTerminator::If { cond: copy(9), then_block: 1, else_block: 2 }),
        block(1, vec![], zero(0.0f64.to_bits())),
        block(2, vec![], zero((-0.0f64).to_bits())),
    ]);
    assert_eq!(
        r,
        shown(vec![
            block(0, vec![], MirTerminator::If { cond: copy(9), then_block: 1, else_block: 1 }),
            block(1, vec![], zero(0)),
        ])
    );
}

#[test]
fn an_empty_body_stays_empty() {
    assert_eq!(simplified(vec![]), "[]");
}

#[test]
fn nothing_but_blocks_changes() {
    let mut p = program(vec![block(
        0,
        vec![MirStmt::ExprStmt(MirRvalue::BinaryOp(BinaryOp::Add, copy(1), num(0)))],
        MirTerminator::Return(None),
    )]);
    let before = format!("{:?}", p);
    Control::simplify(&mut p);
    assert_eq!(format!("{:?}", p), before);
}

#[test]
fn simplifying_again_changes_nothing() {
    let fork = |a: usize, b: usize| MirTerminator::If {
        cond: copy(9),
        then_block: a,
        else_block: b,
    };
    let bodies = vec![
        vec![
            block(0, vec![], fork(1, 2)),
            block(1, vec![set(1, 7)], MirTerminator::Goto(3)),
            block(2, vec![], MirTerminator::Goto(4)),
            block(3, vec![], MirTerminator::Goto(4)),
            block(4, vec![], MirTerminator::Goto(5)),
            block(5, vec![], MirTerminator::Goto(3)),
        ],
        vec![
            block(0, vec![set(1, 1)], fork(1, 2)),
            block(1, vec![], MirTerminator::Goto(3)),
            block(2, vec![set(2, 2)], MirTerminator::Goto(3)),
            block(3, vec![set(3, 3)], fork(4, 5)),
            block(4, vec![set(4, 4)], ret(1)),
            block(5, vec![set(4, 4)], ret(1)),
        ],
    ];
    for blocks in bodies {
        let mut p = program(blocks);
        Control::simplify(&mut p);
        let once = format!("{:?}", p);
        Control::simplify(&mut p);
        assert_eq!(format!("{:?}", p), once);
    }
}

#[test]
fn both_passes_remove_the_same_dead_blocks() {
    let blocks = || {
        vec![
            block(
                0,
                vec![],
                MirTerminator::If { cond: copy(9), then_block: 1, else_block: 3 },
            ),
            block(1, vec![], ret(1)),
            block(2, vec![], ret(4)),
            block(3, vec![], ret(2)),
        ]
    };
    let mut one = MirBody { locals: vec![], blocks: blocks() };
    let mut other = MirBody { locals: vec![], blocks: blocks() };
    Control::remove_dead_blocks(&mut one);
    Simplify::remove_dead_blocks(&mut other);
    assert_eq!(format!("{:?}", one), format!("{:?}", other));
    assert_eq!(one.blocks.len(), 3);
    let optimised = Simplify::run(program(blocks()));
    let r = simplified(blocks());
    assert_eq!(r, format!("{:?}", optimised.fns[0].body.blocks));
    assert_eq!(
        r,
        shown(vec![
            block(
                0,
                vec![],
                MirTerminator::If { cond: copy(9), then_block: 1, else_block: 2 },
            ),
            block(1, vec![], ret(1)),
            block(3, vec![], ret(2)),
        ])
    );
}
