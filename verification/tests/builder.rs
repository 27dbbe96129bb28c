use xiyi_compiler::ast::Type;
use xiyi_compiler::builder::MirBuilder;
use xiyi_compiler::guide::{Diverging, HirExpr, HirExprKind, SharedContext};
use xiyi_compiler::literal::Literal;
use xiyi_compiler::mir::{MirOperand, MirPlace, MirStmt, MirTerminator, SsaLocal};
use xiyi_compiler::table::Table;

fn builder() -> MirBuilder {
    let mut b = MirBuilder::new();
    let entry = b.new_block();
    b.switch_to_block(entry);
    b.push_scope();
    b
}

fn dropped(b: &MirBuilder) -> Vec<usize> {
    b.blocks[b.current_block]
        .stmts
        .iter()
        .map(|s| match s {
            MirStmt::Drop { place: MirPlace::Ssa(x) } => x.base_id,
            _ => panic!("no drop"),
        })
        .collect()
}

#[test]
fn locals_are_numbered_in_order() {
    let mut b = builder();
    let depth = b.scope_vars.len() - 1;
    let x = b.new_local(Some("x".to_string()), Type::I32, true, true);
    let hidden = b.new_local(None, Type::I32, false, false);
    let p = b.new_param_local("p".to_string(), Type::Bool);
    let kept = b.new_persist_local(Some("k".to_string()), Type::F32, false);
    let t = b.new_temp(Type::I8);
    assert_eq!((x, hidden, p, kept, t), (0, 1, 2, 3, 4));
    assert_eq!(b.scope_vars[depth], vec![0, 3, 4]);
    assert!(b.locals[0].mutable && !b.locals[0].persist && !b.locals[0].is_param);
    assert!(b.locals[2].is_param && b.locals[2].name == Some("p".to_string()));
    assert!(b.locals[3].persist);
    assert!(b.locals[4].name.is_none());
}

#[test]
fn versions_count_up() {
    let mut b = builder();
    assert_eq!(b.current_ssa(7), SsaLocal { base_id: 7, version: 0 });
    assert_eq!(b.new_version(7), 1);
    assert_eq!(b.new_version(7), 2);
    assert_eq!(b.new_version(8), 1);
    assert_eq!(b.current_ssa(7), SsaLocal { base_id: 7, version: 2 });
}

#[test]
fn leaving_a_scope_drops_its_variables_backwards() {
    let mut b = builder();
    b.push_scope();
    let x = b.new_temp(Type::I32);
    let y = b.new_temp(Type::I32);
    let z = b.new_temp(Type::I32);
    let moved = b.current_ssa(y);
    b.moved.insert(moved);
    b.pop_scope();
    assert_eq!(dropped(&b), vec![z, x]);
    let last = b.current_ssa(z);
    assert!(b.moved.contains(&last));
}

#[test]
fn nothing_is_dropped_twice() {
    let mut b = builder();
    let outer = b.scope_vars.len() - 1;
    let x = b.new_temp(Type::I32);
    b.push_scope();
    let y = b.new_temp(Type::I32);
    b.emit_drops_for_scopes(outer);
    assert_eq!(dropped(&b), vec![y, x]);
    b.pop_scope();
    b.pop_scope();
    assert_eq!(dropped(&b), vec![y, x]);
}

#[test]
fn inner_names_hide_outer_ones() {
    let mut b = builder();
    b.bind("x".to_string(), 1);
    b.push_scope();
    assert_eq!(b.lookup("x"), Some(1));
    b.bind("x".to_string(), 2);
    assert_eq!(b.lookup("x"), Some(2));
    b.pop_scope();
    assert_eq!(b.lookup("x"), Some(1));
    assert_eq!(b.lookup("y"), None);
}

#[test]
fn blocks_and_loops() {
    let mut b = builder();
    assert!(b.current_terminator_is_placeholder());
    let second = b.new_block();
    assert_eq!(b.blocks[second].id, second);
    b.set_terminator(MirTerminator::Goto(second));
    assert!(!b.current_terminator_is_placeholder());
    b.switch_to_block(second);
    b.push_stmt(MirStmt::EffectCheck { effect: "io".to_string() });
    assert_eq!(b.blocks[second].stmts.len(), 1);
    b.push_loop(second);
    assert_eq!(b.loop_stack[0].break_target, second);
    assert_eq!(b.loop_stack[0].scope_depth, b.scope_vars.len());
    b.pop_loop();
    b.pop_loop();
    assert_eq!(b.loop_stack.len(), 0);
}

#[test]
fn roots_of_places() {
    let s = SsaLocal { base_id: 3, version: 1 };
    let p = MirPlace::Deref(Box::new(MirPlace::Field {
        base: Box::new(MirPlace::Ssa(s)),
        field: "f".to_string(),
    }));
    assert_eq!(MirBuilder::place_base_ssa(&p), Some(s));
}

#[test]
fn integers_of_a_type_keep_their_low_bits() {
    let l = |v: i64, t: Type| MirBuilder::int_literal_for_type(v, &t).map(|l| format!("{:?}", l));
    assert_eq!(l(-1, Type::U8), Ok("UInt8(255)".to_string()));
    assert_eq!(l(300, Type::I8), Ok("Int8(44)".to_string()));
    assert_eq!(l(200, Type::I8), Ok("Int8(-56)".to_string()));
    assert_eq!(l(-1, Type::I128), Ok("Int128(-1)".to_string()));
    assert_eq!(l(-1, Type::U128), Ok(format!("UInt128({})", u128::MAX)));
    assert_eq!(l(-1, Type::U64), Ok(format!("UInt64({})", u64::MAX)));
    assert_eq!(l(1 << 40, Type::I32), Ok("Int32(0)".to_string()));
    assert_eq!(l(65535, Type::I16), Ok("Int16(-1)".to_string()));
    let e = l(1, Type::Bool).unwrap_err();
    assert!(e.contains("Bool"), "{}", e);
}

fn hir(kind: HirExprKind) -> HirExpr {
    HirExpr { kind, ty: Type::Unit }
}

fn name(s: &str) -> HirExpr {
    hir(HirExprKind::Ident(s.to_string()))
}

fn field(e: HirExpr, f: &str) -> HirExpr {
    hir(HirExprKind::FieldAccess { struct_expr: Box::new(e), field_name: f.to_string() })
}

fn index(e: HirExpr, i: &str) -> HirExpr {
    hir(HirExprKind::Index { expr: Box::new(e), index: Box::new(name(i)) })
}

/// An evaluation that makes a block for each value; `stop` never completes.
fn evaluate(
    mut b: MirBuilder,
    e: &HirExpr,
) -> (MirBuilder, Result<Diverging<MirOperand>, String>) {
    b.new_block();
    b.new_version(4);
    let r = match &e.kind {
        HirExprKind::Ident(n) if n == "stop" => Ok(Diverging::Diverged),
        HirExprKind::Ident(n) if n == "bad" => Err("bad".to_string()),
        _ => Ok(Diverging::Value(MirOperand::Constant(Literal::Int32(1)))),
    };
    (b, r)
}

/// The place that an expression names, and how many values were evaluated.
fn place(e: HirExpr) -> (Result<String, String>, usize) {
    let mut b = builder();
    b.bind("x".to_string(), 4);
    let blocks = b.blocks.len();
    let r = match b.build_place(&e, evaluate) {
        Ok(Diverging::Value(p)) => Ok(format!("{:?}", p)),
        Ok(Diverging::Diverged) => Ok("diverged".to_string()),
        Err(e) => Err(e),
    };
    (r, b.blocks.len() - blocks)
}

#[test]
fn places_of_expressions() {
    let x = || MirPlace::Ssa(SsaLocal { base_id: 4, version: 0 });
    assert_eq!(place(name("x")), (Ok(format!("{:?}", x())), 0));
    assert_eq!(
        place(field(name("x"), "f")).0,
        Ok(format!("{:?}", MirPlace::Field { base: Box::new(x()), field: "f".to_string() }))
    );
    let one = || MirOperand::Constant(Literal::Int32(1));
    let element = || MirPlace::Index { base: Box::new(x()), index: Box::new(one()) };
    assert_eq!(place(index(name("x"), "i")), (Ok(format!("{:?}", element())), 1));
    let twice = MirPlace::Index { base: Box::new(element()), index: Box::new(one()) };
    assert_eq!(place(index(index(name("x"), "i"), "j")), (Ok(format!("{:?}", twice)), 2));
    assert_eq!(place(index(name("x"), "stop")), (Ok("diverged".to_string()), 1));
    assert_eq!(
        place(index(field(index(name("x"), "stop"), "f"), "i")),
        (Ok("diverged".to_string()), 1)
    );
    assert_eq!(place(field(index(name("x"), "bad"), "f")), (Err("bad".to_string()), 1));
    assert_eq!(place(index(name("y"), "i")), (Err("undefined variable `y`".to_string()), 0));
    let e = place(hir(HirExprKind::Other("Literal(Unit)".to_string()))).0.unwrap_err();
    assert!(e.starts_with("internal error: Literal(Unit) is not a valid assignment target"), "{}", e);
}

#[test]
fn types_of_fields() {
    let b = builder();
    let mut fields: Table<String, Type> = Table::new();
    fields.insert("f".to_string(), Type::I8);
    let mut struct_fields: Table<String, Table<String, Type>> = Table::new();
    struct_fields.insert("S".to_string(), fields);
    let shared = SharedContext { struct_fields };
    let look = |ty: Type, f: &str| {
        let e = HirExpr { kind: HirExprKind::Ident("x".to_string()), ty };
        format!("{:?}", b.lookup_field_type(&e, f, &shared))
    };
    let s = || Type::Struct("S".to_string());
    assert_eq!(look(s(), "f"), "I8");
    assert_eq!(look(Type::Generic("S".to_string(), vec![]), "f"), "I8");
    assert_eq!(look(Type::Ref { mutable: true, inner: Box::new(s()) }, "f"), "I8");
    assert_eq!(look(s(), "g"), "Unit");
    assert_eq!(look(Type::I32, "f"), "Unit");
    let twice = Type::Ref {
        mutable: true,
        inner: Box::new(Type::Ref { mutable: true, inner: Box::new(s()) }),
    };
    assert_eq!(look(twice, "f"), "Unit");
}
