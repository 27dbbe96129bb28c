//! The type checker.

pub mod attr;
pub mod block;
pub mod call_laws;
pub mod check_type;
pub mod func;
pub mod given;
pub mod helpers;
pub mod label_laws;
pub mod lookup;
pub mod privacy;
pub mod program;
pub mod rational;
pub mod rational_laws;
pub mod type_laws;

use vstd::prelude::*;

use crate::ast::Type;
use crate::ast::TypeV;
use crate::expr::FnDef;
use crate::expr::FnDefV;
use crate::item::{EnumDef, StructDef};
use crate::table::{KeySet, Table};

verus! {

/// A method of an `implement` block, and the type that the block is for.
#[derive(Debug)]
pub struct MethodInfo {
    pub fn_def: FnDef,
    pub target_type: Type,
}

/// Model of a `MethodInfo`.
pub struct MethodInfoV {
    pub fn_def: FnDefV,
    pub target_type: TypeV,
}

impl DeepView for MethodInfo {
    type V = MethodInfoV;

    open spec fn deep_view(&self) -> MethodInfoV {
        MethodInfoV {
            fn_def: self.fn_def.deep_view(),
            target_type: self.target_type.deep_view(),
        }
    }
}

impl Clone for MethodInfo {
    fn clone(&self) -> (r: Self)
        ensures
            r.deep_view() == self.deep_view(),
    {
        MethodInfo { fn_def: self.fn_def.clone(), target_type: self.target_type.clone() }
    }
}

/// What the type checker knows of a program, and where in it it is.
pub struct TypeChecker {
    /// The local variables, innermost scope last.
    pub scopes: Vec<Table<String, Type>>,
    pub structs: Table<String, StructDef>,
    pub enums: Table<String, EnumDef>,
    pub consts: Table<String, Type>,
    /// The declared functions, by name.
    pub functions: Table<String, FnDef>,
    /// The methods of each type, by the type's name and then by their own.
    pub methods: Table<String, Table<String, MethodInfo>>,
    pub in_model: bool,
    /// The functions being checked, innermost last.
    pub fn_stack: Vec<String>,
    pub model_names: KeySet<String>,
    pub model_return_types: Table<String, Type>,
    /// The sensitivity of each model, as the bit pattern of a 64-bit float.
    pub model_sensitivities: Table<String, u64>,
    /// The type that `self` has here.
    pub current_self_type: Option<Type>,
    /// The declared return type of the function being checked.
    pub current_return_type: Option<Type>,
    /// The type of each expression, by its id.
    pub expr_types: Table<usize, Type>,
}

impl TypeChecker {
    /// A type checker that knows nothing, with one scope.
    pub fn new() -> (r: Self)
        ensures
            r.scopes.deep_view() == seq![Map::<Seq<char>, TypeV>::empty()],
            r.structs.deep_view() == Map::<Seq<char>, crate::item::StructDefV>::empty(),
            r.enums.deep_view() == Map::<Seq<char>, crate::item::EnumDefV>::empty(),
            r.consts.deep_view() == Map::<Seq<char>, TypeV>::empty(),
            r.functions.deep_view() == Map::<Seq<char>, FnDefV>::empty(),
            r.methods.deep_view() == Map::<Seq<char>, Map<Seq<char>, MethodInfoV>>::empty(),
            !r.in_model,
            r.fn_stack@.len() == 0,
            r.model_names.deep_view() == Set::<Seq<char>>::empty(),
            r.model_return_types.deep_view() == Map::<Seq<char>, TypeV>::empty(),
            r.model_sensitivities.deep_view() == Map::<Seq<char>, u64>::empty(),
            r.current_self_type is None,
            r.current_return_type is None,
            r.expr_types.deep_view() == Map::<usize, TypeV>::empty(),
    {
        let mut scopes: Vec<Table<String, Type>> = Vec::new();
        scopes.push(Table::new());
        assert(scopes.deep_view() =~= seq![Map::<Seq<char>, TypeV>::empty()]);
        TypeChecker {
            scopes,
            structs: Table::new(),
            enums: Table::new(),
            consts: Table::new(),
            functions: Table::new(),
            methods: Table::new(),
            in_model: false,
            fn_stack: Vec::new(),
            model_names: KeySet::new(),
            model_return_types: Table::new(),
            model_sensitivities: Table::new(),
            current_self_type: None,
            current_return_type: None,
            expr_types: Table::new(),
        }
    }
}

} // verus!
