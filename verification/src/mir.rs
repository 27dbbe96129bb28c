//! The mid-level IR: a control-flow graph of basic blocks over SSA locals.

use vstd::prelude::*;

use crate::ast::{BinaryOp, Type, UnaryOp};
use crate::ast::TypeV;
use crate::intrinsic::IntrinsicFn;
use crate::literal::Literal;
use crate::literal::LiteralV;

verus! {

/// One version of a local variable.
#[derive(Clone, Copy, Debug, PartialEq, Eq, Structural, Hash)]
pub struct SsaLocal {
    pub base_id: usize,
    pub version: u32,
}

/// A location that can be read, written, borrowed or dropped.
#[derive(Debug)]
pub enum MirPlace {
    Ssa(SsaLocal),
    Field { base: Box<MirPlace>, field: String },
    Index { base: Box<MirPlace>, index: Box<MirOperand> },
    Deref(Box<MirPlace>),
    EnumPayload { base: Box<MirPlace>, enum_name: String, variant_name: String },
}

/// A value as an instruction reads it.
#[derive(Debug)]
pub enum MirOperand {
    Copy(MirPlace),
    Move(MirPlace),
    Constant(Literal),
    Sym(String),
    Static(String),
}

/// The right-hand side of an assignment.
#[derive(Debug)]
pub enum MirRvalue {
    Use(MirOperand),
    BinaryOp(BinaryOp, MirOperand, MirOperand),
    UnaryOp(UnaryOp, MirOperand),
    Cast(MirOperand, Type),
    Call {
        func: String,
        args: Vec<MirOperand>,
        is_intrinsic: bool,
        intrinsic_name: Option<IntrinsicFn>,
        generic_args: Vec<Type>,
    },
    MethodCall {
        receiver: MirOperand,
        method: String,
        args: Vec<MirOperand>,
        generic_args: Vec<Type>,
    },
    StructInit {
        struct_name: String,
        generic_args: Vec<Type>,
        fields: Vec<(String, MirOperand)>,
    },
    EnumVariantConstruction {
        enum_name: String,
        generic_args: Vec<Type>,
        variant_name: String,
        args: Vec<MirOperand>,
    },
    Ref { mutable: bool, place: MirPlace },
    ArrayLiteral(Vec<MirOperand>),
    Discriminant { value: MirOperand, enum_name: String },
    Phi { values: Vec<(usize, MirOperand)> },
}

/// A statement of a basic block.
#[derive(Debug)]
pub enum MirStmt {
    Assign { dest: MirPlace, value: MirRvalue },
    ExprStmt(MirRvalue),
    Drop { place: MirPlace },
    SetMetadata { place: MirPlace, key: String, data: String },
    EffectCheck { effect: String },
}

/// How a basic block ends.
#[derive(Debug)]
pub enum MirTerminator {
    Goto(usize),
    If { cond: MirOperand, then_block: usize, else_block: usize },
    Switch {
        discr: MirOperand,
        discr_ty: Type,
        targets: Vec<(Literal, usize)>,
        default: usize,
    },
    Return(Option<MirOperand>),
    Unreachable,
    Placeholder,
}

/// A basic block; other blocks name it by its position in the body.
#[derive(Debug)]
pub struct MirBlock {
    pub id: usize,
    pub stmts: Vec<MirStmt>,
    pub terminator: MirTerminator,
}

/// A local variable of a function.
#[derive(Debug)]
pub struct MirLocal {
    pub id: usize,
    pub name: Option<String>,
    pub ty: Type,
    pub mutable: bool,
    pub persist: bool,
    pub is_param: bool,
}

/// The locals and blocks of a function; execution starts at block 0.
#[derive(Debug)]
pub struct MirBody {
    pub locals: Vec<MirLocal>,
    pub blocks: Vec<MirBlock>,
}

/// A type parameter of a function, struct or enum.
#[derive(Debug)]
pub struct MirGenericParam {
    pub name: String,
    pub bounds: Vec<String>,
}

/// A function.
#[derive(Debug)]
pub struct MirFn {
    pub name: String,
    pub generic_params: Vec<MirGenericParam>,
    pub params: Vec<(String, Type)>,
    pub return_type: Option<Type>,
    pub body: MirBody,
}

/// A struct definition.
#[derive(Debug)]
pub struct MirStruct {
    pub name: String,
    pub generic_params: Vec<MirGenericParam>,
    pub fields: Vec<(String, Type)>,
}

/// An enum definition.
#[derive(Debug)]
pub struct MirEnum {
    pub name: String,
    pub generic_params: Vec<MirGenericParam>,
    pub variants: Vec<(String, Option<Type>)>,
}

/// A whole program.
#[derive(Debug)]
pub struct MirProgram {
    pub structs: Vec<MirStruct>,
    pub enums: Vec<MirEnum>,
    pub fns: Vec<MirFn>,
    pub intrinsics_used: Vec<String>,
}

/// Model of a `MirPlace`.
pub enum PlaceV {
    Ssa(SsaLocal),
    Field { base: Box<PlaceV>, field: Seq<char> },
    Index { base: Box<PlaceV>, index: Box<OperandV> },
    Deref(Box<PlaceV>),
    EnumPayload { base: Box<PlaceV>, enum_name: Seq<char>, variant_name: Seq<char> },
}

/// Model of a `MirOperand`.
pub enum OperandV {
    Copy(PlaceV),
    Move(PlaceV),
    Constant(LiteralV),
    Sym(Seq<char>),
    Static(Seq<char>),
}

/// Model of a `MirRvalue`.
pub enum RvalueV {
    Use(OperandV),
    BinaryOp(BinaryOp, OperandV, OperandV),
    UnaryOp(UnaryOp, OperandV),
    Cast(OperandV, TypeV),
    Call {
        func: Seq<char>,
        args: Seq<OperandV>,
        is_intrinsic: bool,
        intrinsic_name: Option<IntrinsicFn>,
        generic_args: Seq<TypeV>,
    },
    MethodCall {
        receiver: OperandV,
        method: Seq<char>,
        args: Seq<OperandV>,
        generic_args: Seq<TypeV>,
    },
    StructInit {
        struct_name: Seq<char>,
        generic_args: Seq<TypeV>,
        fields: Seq<(Seq<char>, OperandV)>,
    },
    EnumVariantConstruction {
        enum_name: Seq<char>,
        generic_args: Seq<TypeV>,
        variant_name: Seq<char>,
        args: Seq<OperandV>,
    },
    Ref { mutable: bool, place: PlaceV },
    ArrayLiteral(Seq<OperandV>),
    Discriminant { value: OperandV, enum_name: Seq<char> },
    Phi { values: Seq<(usize, OperandV)> },
}

/// Model of a `MirStmt`.
pub enum StmtV {
    Assign { dest: PlaceV, value: RvalueV },
    ExprStmt(RvalueV),
    Drop { place: PlaceV },
    SetMetadata { place: PlaceV, key: Seq<char>, data: Seq<char> },
    EffectCheck { effect: Seq<char> },
}

/// Model of a `MirTerminator`.
pub enum TermV {
    Goto(usize),
    If { cond: OperandV, then_block: usize, else_block: usize },
    Switch {
        discr: OperandV,
        discr_ty: TypeV,
        targets: Seq<(LiteralV, usize)>,
        default: usize,
    },
    Return(Option<OperandV>),
    Unreachable,
    Placeholder,
}

/// Model of a `MirBlock`.
#[verifier::ext_equal]
pub struct BlockV {
    pub id: usize,
    pub stmts: Seq<StmtV>,
    pub terminator: TermV,
}

/// Model of a `MirLocal`.
pub struct LocalV {
    pub id: usize,
    pub name: Option<Seq<char>>,
    pub ty: TypeV,
    pub mutable: bool,
    pub persist: bool,
    pub is_param: bool,
}

/// Model of a `MirBody`.
#[verifier::ext_equal]
pub struct BodyV {
    pub locals: Seq<LocalV>,
    pub blocks: Seq<BlockV>,
}

/// Model of a `MirGenericParam`.
pub struct GenericParamV {
    pub name: Seq<char>,
    pub bounds: Seq<Seq<char>>,
}

/// Model of a `MirFn`.
#[verifier::ext_equal]
pub struct FnV {
    pub name: Seq<char>,
    pub generic_params: Seq<GenericParamV>,
    pub params: Seq<(Seq<char>, TypeV)>,
    pub return_type: Option<TypeV>,
    pub body: BodyV,
}

/// Model of a `MirStruct`.
#[verifier::ext_equal]
pub struct StructV {
    pub name: Seq<char>,
    pub generic_params: Seq<GenericParamV>,
    pub fields: Seq<(Seq<char>, TypeV)>,
}

/// Model of a `MirEnum`.
#[verifier::ext_equal]
pub struct EnumV {
    pub name: Seq<char>,
    pub generic_params: Seq<GenericParamV>,
    pub variants: Seq<(Seq<char>, Option<TypeV>)>,
}

/// Model of a `MirProgram`.
#[verifier::ext_equal]
pub struct ProgramV {
    pub structs: Seq<StructV>,
    pub enums: Seq<EnumV>,
    pub fns: Seq<FnV>,
    pub intrinsics_used: Seq<Seq<char>>,
}

/// The model of a place.
pub open spec fn place_view(p: MirPlace) -> PlaceV
    decreases p,
{
    match p {
        MirPlace::Ssa(s) => PlaceV::Ssa(s),
        MirPlace::Field { base, field } => PlaceV::Field {
            base: Box::new(place_view(*base)),
            field: field@,
        },
        MirPlace::Index { base, index } => PlaceV::Index {
            base: Box::new(place_view(*base)),
            index: Box::new(operand_view(*index)),
        },
        MirPlace::Deref(base) => PlaceV::Deref(Box::new(place_view(*base))),
        MirPlace::EnumPayload { base, enum_name, variant_name } => PlaceV::EnumPayload {
            base: Box::new(place_view(*base)),
            enum_name: enum_name@,
            variant_name: variant_name@,
        },
    }
}

/// The model of an operand.
pub open spec fn operand_view(o: MirOperand) -> OperandV
    decreases o,
{
    match o {
        MirOperand::Copy(p) => OperandV::Copy(place_view(p)),
        MirOperand::Move(p) => OperandV::Move(place_view(p)),
        MirOperand::Constant(l) => OperandV::Constant(l.deep_view()),
        MirOperand::Sym(s) => OperandV::Sym(s@),
        MirOperand::Static(s) => OperandV::Static(s@),
    }
}

impl DeepView for SsaLocal {
    type V = SsaLocal;

    open spec fn deep_view(&self) -> SsaLocal {
        *self
    }
}

impl DeepView for MirPlace {
    type V = PlaceV;

    open spec fn deep_view(&self) -> PlaceV {
        place_view(*self)
    }
}

impl DeepView for MirOperand {
    type V = OperandV;

    open spec fn deep_view(&self) -> OperandV {
        operand_view(*self)
    }
}

impl DeepView for MirRvalue {
    type V = RvalueV;

    open spec fn deep_view(&self) -> RvalueV {
        match *self {
            MirRvalue::Use(o) => RvalueV::Use(o.deep_view()),
            MirRvalue::BinaryOp(op, l, r) => RvalueV::BinaryOp(op, l.deep_view(), r.deep_view()),
            MirRvalue::UnaryOp(op, o) => RvalueV::UnaryOp(op, o.deep_view()),
            MirRvalue::Cast(o, t) => RvalueV::Cast(o.deep_view(), t.deep_view()),
            MirRvalue::Call { func, args, is_intrinsic, intrinsic_name, generic_args } => {
                RvalueV::Call {
                    func: func@,
                    args: args.deep_view(),
                    is_intrinsic,
                    intrinsic_name,
                    generic_args: generic_args.deep_view(),
                }
            },
            MirRvalue::MethodCall { receiver, method, args, generic_args } => RvalueV::MethodCall {
                receiver: receiver.deep_view(),
                method: method@,
                args: args.deep_view(),
                generic_args: generic_args.deep_view(),
            },
            MirRvalue::StructInit { struct_name, generic_args, fields } => RvalueV::StructInit {
                struct_name: struct_name@,
                generic_args: generic_args.deep_view(),
                fields: fields.deep_view(),
            },
            MirRvalue::EnumVariantConstruction { enum_name, generic_args, variant_name, args } => {
                RvalueV::EnumVariantConstruction {
                    enum_name: enum_name@,
                    generic_args: generic_args.deep_view(),
                    variant_name: variant_name@,
                    args: args.deep_view(),
                }
            },
            MirRvalue::Ref { mutable, place } => RvalueV::Ref { mutable, place: place.deep_view() },
            MirRvalue::ArrayLiteral(es) => RvalueV::ArrayLiteral(es.deep_view()),
            MirRvalue::Discriminant { value, enum_name } => RvalueV::Discriminant {
                value: value.deep_view(),
                enum_name: enum_name@,
            },
            MirRvalue::Phi { values } => RvalueV::Phi { values: values.deep_view() },
        }
    }
}

impl DeepView for MirStmt {
    type V = StmtV;

    open spec fn deep_view(&self) -> StmtV {
        match *self {
            MirStmt::Assign { dest, value } => StmtV::Assign {
                dest: dest.deep_view(),
                value: value.deep_view(),
            },
            MirStmt::ExprStmt(v) => StmtV::ExprStmt(v.deep_view()),
            MirStmt::Drop { place } => StmtV::Drop { place: place.deep_view() },
            MirStmt::SetMetadata { place, key, data } => StmtV::SetMetadata {
                place: place.deep_view(),
                key: key@,
                data: data@,
            },
            MirStmt::EffectCheck { effect } => StmtV::EffectCheck { effect: effect@ },
        }
    }
}

impl DeepView for MirTerminator {
    type V = TermV;

    open spec fn deep_view(&self) -> TermV {
        match *self {
            MirTerminator::Goto(t) => TermV::Goto(t),
            MirTerminator::If { cond, then_block, else_block } => TermV::If {
                cond: cond.deep_view(),
                then_block,
                else_block,
            },
            MirTerminator::Switch { discr, discr_ty, targets, default } => TermV::Switch {
                discr: discr.deep_view(),
                discr_ty: discr_ty.deep_view(),
                targets: targets.deep_view(),
                default,
            },
            MirTerminator::Return(o) => TermV::Return(o.deep_view()),
            MirTerminator::Unreachable => TermV::Unreachable,
            MirTerminator::Placeholder => TermV::Placeholder,
        }
    }
}

impl DeepView for MirBlock {
    type V = BlockV;

    open spec fn deep_view(&self) -> BlockV {
        BlockV {
            id: self.id,
            stmts: self.stmts.deep_view(),
            terminator: self.terminator.deep_view(),
        }
    }
}

impl DeepView for MirLocal {
    type V = LocalV;

    open spec fn deep_view(&self) -> LocalV {
        LocalV {
            id: self.id,
            name: self.name.deep_view(),
            ty: self.ty.deep_view(),
            mutable: self.mutable,
            persist: self.persist,
            is_param: self.is_param,
        }
    }
}

impl DeepView for MirBody {
    type V = BodyV;

    open spec fn deep_view(&self) -> BodyV {
        BodyV { locals: self.locals.deep_view(), blocks: self.blocks.deep_view() }
    }
}

impl DeepView for MirGenericParam {
    type V = GenericParamV;

    open spec fn deep_view(&self) -> GenericParamV {
        GenericParamV { name: self.name@, bounds: self.bounds.deep_view() }
    }
}

impl DeepView for MirFn {
    type V = FnV;

    open spec fn deep_view(&self) -> FnV {
        FnV {
            name: self.name@,
            generic_params: self.generic_params.deep_view(),
            params: self.params.deep_view(),
            return_type: self.return_type.deep_view(),
            body: self.body.deep_view(),
        }
    }
}

impl DeepView for MirStruct {
    type V = StructV;

    open spec fn deep_view(&self) -> StructV {
        StructV {
            name: self.name@,
            generic_params: self.generic_params.deep_view(),
            fields: self.fields.deep_view(),
        }
    }
}

impl DeepView for MirEnum {
    type V = EnumV;

    open spec fn deep_view(&self) -> EnumV {
        EnumV {
            name: self.name@,
            generic_params: self.generic_params.deep_view(),
            variants: self.variants.deep_view(),
        }
    }
}

impl DeepView for MirProgram {
    type V = ProgramV;

    open spec fn deep_view(&self) -> ProgramV {
        ProgramV {
            structs: self.structs.deep_view(),
            enums: self.enums.deep_view(),
            fns: self.fns.deep_view(),
            intrinsics_used: self.intrinsics_used.deep_view(),
        }
    }
}

impl Clone for MirPlace {
    fn clone(&self) -> (r: Self)
        ensures
            r.deep_view() == self.deep_view(),
        decreases self,
    {
        match self {
            MirPlace::Ssa(s) => MirPlace::Ssa(*s),
            MirPlace::Field { base, field } => MirPlace::Field {
                base: Box::new((**base).clone()),
                field: field.clone(),
            },
            MirPlace::Index { base, index } => MirPlace::Index {
                base: Box::new((**base).clone()),
                index: Box::new((**index).clone()),
            },
            MirPlace::Deref(base) => MirPlace::Deref(Box::new((**base).clone())),
            MirPlace::EnumPayload { base, enum_name, variant_name } => MirPlace::EnumPayload {
                base: Box::new((**base).clone()),
                enum_name: enum_name.clone(),
                variant_name: variant_name.clone(),
            },
        }
    }
}

impl Clone for MirOperand {
    fn clone(&self) -> (r: Self)
        ensures
            r.deep_view() == self.deep_view(),
        decreases self,
    {
        match self {
            MirOperand::Copy(p) => MirOperand::Copy(p.clone()),
            MirOperand::Move(p) => MirOperand::Move(p.clone()),
            MirOperand::Constant(l) => MirOperand::Constant(l.clone()),
            MirOperand::Sym(s) => MirOperand::Sym(s.clone()),
            MirOperand::Static(s) => MirOperand::Static(s.clone()),
        }
    }
}

/// A copy of each operand, in order.
pub fn clone_operands(v: &Vec<MirOperand>) -> (r: Vec<MirOperand>)
    ensures
        r.deep_view() == v.deep_view(),
{
    let r = v.clone();
    assert(r.deep_view() =~= v.deep_view());
    r
}

/// A copy of each named operand, in order.
pub fn clone_fields(v: &Vec<(String, MirOperand)>) -> (r: Vec<(String, MirOperand)>)
    ensures
        r.deep_view() == v.deep_view(),
{
    let mut r: Vec<(String, MirOperand)> = Vec::new();
    let mut i: usize = 0;
    while i < v.len()
        invariant
            i <= v.len(),
            r.len() == i,
            forall|j: int| 0 <= j < i ==> (#[trigger] r@[j]).deep_view() == v@[j].deep_view(),
        decreases v.len() - i,
    {
        r.push((v[i].0.clone(), v[i].1.clone()));
        i = i + 1;
    }
    assert(r.deep_view() =~= v.deep_view());
    r
}

/// A copy of each incoming value, in order.
pub fn clone_phi(v: &Vec<(usize, MirOperand)>) -> (r: Vec<(usize, MirOperand)>)
    ensures
        r.deep_view() == v.deep_view(),
{
    let mut r: Vec<(usize, MirOperand)> = Vec::new();
    let mut i: usize = 0;
    while i < v.len()
        invariant
            i <= v.len(),
            r.len() == i,
            forall|j: int| 0 <= j < i ==> (#[trigger] r@[j]).deep_view() == v@[j].deep_view(),
        decreases v.len() - i,
    {
        r.push((v[i].0, v[i].1.clone()));
        i = i + 1;
    }
    assert(r.deep_view() =~= v.deep_view());
    r
}

/// A copy of each switch arm, in order.
pub fn clone_targets(v: &Vec<(Literal, usize)>) -> (r: Vec<(Literal, usize)>)
    ensures
        r.deep_view() == v.deep_view(),
{
    let mut r: Vec<(Literal, usize)> = Vec::new();
    let mut i: usize = 0;
    while i < v.len()
        invariant
            i <= v.len(),
            r.len() == i,
            forall|j: int| 0 <= j < i ==> (#[trigger] r@[j]).deep_view() == v@[j].deep_view(),
        decreases v.len() - i,
    {
        r.push((v[i].0.clone(), v[i].1));
        i = i + 1;
    }
    assert(r.deep_view() =~= v.deep_view());
    r
}

impl Clone for MirRvalue {
    fn clone(&self) -> (r: Self)
        ensures
            r.deep_view() == self.deep_view(),
    {
        match self {
            MirRvalue::Use(o) => MirRvalue::Use(o.clone()),
            MirRvalue::BinaryOp(op, a, b) => MirRvalue::BinaryOp(*op, a.clone(), b.clone()),
            MirRvalue::UnaryOp(op, o) => MirRvalue::UnaryOp(*op, o.clone()),
            MirRvalue::Cast(o, t) => MirRvalue::Cast(o.clone(), t.clone()),
            MirRvalue::Call { func, args, is_intrinsic, intrinsic_name, generic_args } => {
                MirRvalue::Call {
                    func: func.clone(),
                    args: clone_operands(args),
                    is_intrinsic: *is_intrinsic,
                    intrinsic_name: *intrinsic_name,
                    generic_args: crate::ast::clone_types(generic_args),
                }
            },
            MirRvalue::MethodCall { receiver, method, args, generic_args } => {
                MirRvalue::MethodCall {
                    receiver: receiver.clone(),
                    method: method.clone(),
                    args: clone_operands(args),
                    generic_args: crate::ast::clone_types(generic_args),
                }
            },
            MirRvalue::StructInit { struct_name, generic_args, fields } => MirRvalue::StructInit {
                struct_name: struct_name.clone(),
                generic_args: crate::ast::clone_types(generic_args),
                fields: clone_fields(fields),
            },
            MirRvalue::EnumVariantConstruction { enum_name, generic_args, variant_name, args } => {
                MirRvalue::EnumVariantConstruction {
                    enum_name: enum_name.clone(),
                    generic_args: crate::ast::clone_types(generic_args),
                    variant_name: variant_name.clone(),
                    args: clone_operands(args),
                }
            },
            MirRvalue::Ref { mutable, place } => MirRvalue::Ref {
                mutable: *mutable,
                place: place.clone(),
            },
            MirRvalue::ArrayLiteral(es) => MirRvalue::ArrayLiteral(clone_operands(es)),
            MirRvalue::Discriminant { value, enum_name } => MirRvalue::Discriminant {
                value: value.clone(),
                enum_name: enum_name.clone(),
            },
            MirRvalue::Phi { values } => MirRvalue::Phi { values: clone_phi(values) },
        }
    }
}

impl Clone for MirStmt {
    fn clone(&self) -> (r: Self)
        ensures
            r.deep_view() == self.deep_view(),
    {
        match self {
            MirStmt::Assign { dest, value } => MirStmt::Assign {
                dest: dest.clone(),
                value: value.clone(),
            },
            MirStmt::ExprStmt(v) => MirStmt::ExprStmt(v.clone()),
            MirStmt::Drop { place } => MirStmt::Drop { place: place.clone() },
            MirStmt::SetMetadata { place, key, data } => MirStmt::SetMetadata {
                place: place.clone(),
                key: key.clone(),
                data: data.clone(),
            },
            MirStmt::EffectCheck { effect } => MirStmt::EffectCheck { effect: effect.clone() },
        }
    }
}

impl Clone for MirTerminator {
    fn clone(&self) -> (r: Self)
        ensures
            r.deep_view() == self.deep_view(),
    {
        match self {
            MirTerminator::Goto(t) => MirTerminator::Goto(*t),
            MirTerminator::If { cond, then_block, else_block } => MirTerminator::If {
                cond: cond.clone(),
                then_block: *then_block,
                else_block: *else_block,
            },
            MirTerminator::Switch { discr, discr_ty, targets, default } => MirTerminator::Switch {
                discr: discr.clone(),
                discr_ty: discr_ty.clone(),
                targets: clone_targets(targets),
                default: *default,
            },
            MirTerminator::Return(o) => MirTerminator::Return(
                match o {
                    Some(v) => Some(v.clone()),
                    None => None,
                },
            ),
            MirTerminator::Unreachable => MirTerminator::Unreachable,
            MirTerminator::Placeholder => MirTerminator::Placeholder,
        }
    }
}

/// A copy of each statement, in order.
pub fn clone_stmts(v: &Vec<MirStmt>) -> (r: Vec<MirStmt>)
    ensures
        r.deep_view() == v.deep_view(),
{
    let r = v.clone();
    assert(r.deep_view() =~= v.deep_view());
    r
}

impl Clone for MirBlock {
    fn clone(&self) -> (r: Self)
        ensures
            r.deep_view() == self.deep_view(),
    {
        MirBlock {
            id: self.id,
            stmts: clone_stmts(&self.stmts),
            terminator: self.terminator.clone(),
        }
    }
}


/// A copy of each string, in order.
pub fn clone_strings(v: &Vec<String>) -> (r: Vec<String>)
    ensures
        r.deep_view() == v.deep_view(),
{
    let r = v.clone();
    assert(r.deep_view() =~= v.deep_view());
    r
}

/// A copy of an optional string.
pub fn clone_opt_string(o: &Option<String>) -> (r: Option<String>)
    ensures
        r.deep_view() == o.deep_view(),
{
    match o {
        Some(s) => Some(s.clone()),
        None => None,
    }
}

impl Clone for MirLocal {
    fn clone(&self) -> (r: Self)
        ensures
            r.deep_view() == self.deep_view(),
    {
        MirLocal {
            id: self.id,
            name: clone_opt_string(&self.name),
            ty: self.ty.clone(),
            mutable: self.mutable,
            persist: self.persist,
            is_param: self.is_param,
        }
    }
}

impl Clone for MirGenericParam {
    fn clone(&self) -> (r: Self)
        ensures
            r.deep_view() == self.deep_view(),
    {
        MirGenericParam {
            name: self.name.clone(),
            bounds: clone_strings(&self.bounds),
        }
    }
}

/// A copy of each type parameter, in order.
pub fn clone_generic_params(v: &Vec<MirGenericParam>) -> (r: Vec<MirGenericParam>)
    ensures
        r.deep_view() == v.deep_view(),
{
    let r = v.clone();
    assert(r.deep_view() =~= v.deep_view());
    r
}

} // verus!
