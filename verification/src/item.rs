//! Items of a program: structs, enums, constants and the rest.

use vstd::prelude::*;

use crate::ast::Type;
use crate::ast::TypeV;
use crate::expr::{Expr, FnDef, GenericParam, ImplementDef, ModelField};
use crate::expr::TypeParamV;

verus! {

/// A field of a struct.
#[derive(Debug)]
pub struct FieldDef {
    pub name: String,
    pub ty: Type,
}

/// A struct definition.
#[derive(Debug)]
pub struct StructDef {
    pub name: String,
    pub generic_params: Vec<GenericParam>,
    pub fields: Vec<FieldDef>,
}

/// A variant of an enum, with the type of its payload if it has one.
#[derive(Debug)]
pub struct VariantDef {
    pub name: String,
    pub payload: Option<Type>,
}

/// An enum definition.
#[derive(Debug)]
pub struct EnumDef {
    pub name: String,
    pub generic_params: Vec<GenericParam>,
    pub variants: Vec<VariantDef>,
}

/// A constant definition.
#[derive(Debug)]
pub struct ConstDef {
    pub name: String,
    pub ty: Type,
    pub value: Expr,
}

/// A model definition.
#[derive(Debug)]
pub struct ModelDef {
    pub attributes: Vec<crate::expr::Attribute>,
    pub name: String,
    pub generic_params: Vec<GenericParam>,
    pub fields: Vec<ModelField>,
    pub functions: Vec<FnDef>,
}

/// An item of a program.
#[derive(Debug)]
pub enum Item {
    FnDef(FnDef),
    StructDef(StructDef),
    EnumDef(EnumDef),
    ConstDef(ConstDef),
    ModelDef(ModelDef),
    ProtoDef(String),
    Use(String),
    Implement(ImplementDef),
    Interface(String),
}

/// Model of a `FieldDef`.
pub struct FieldDefV {
    pub name: Seq<char>,
    pub ty: TypeV,
}

/// Model of a `StructDef`.
pub struct StructDefV {
    pub name: Seq<char>,
    pub generic_params: Seq<TypeParamV>,
    pub fields: Seq<FieldDefV>,
}

/// Model of a `VariantDef`.
pub struct VariantDefV {
    pub name: Seq<char>,
    pub payload: Option<TypeV>,
}

/// Model of an `EnumDef`.
pub struct EnumDefV {
    pub name: Seq<char>,
    pub generic_params: Seq<TypeParamV>,
    pub variants: Seq<VariantDefV>,
}

impl DeepView for FieldDef {
    type V = FieldDefV;

    open spec fn deep_view(&self) -> FieldDefV {
        FieldDefV { name: self.name@, ty: self.ty.deep_view() }
    }
}

impl DeepView for StructDef {
    type V = StructDefV;

    open spec fn deep_view(&self) -> StructDefV {
        StructDefV {
            name: self.name@,
            generic_params: self.generic_params.deep_view(),
            fields: self.fields.deep_view(),
        }
    }
}

impl DeepView for VariantDef {
    type V = VariantDefV;

    open spec fn deep_view(&self) -> VariantDefV {
        VariantDefV { name: self.name@, payload: self.payload.deep_view() }
    }
}

impl DeepView for EnumDef {
    type V = EnumDefV;

    open spec fn deep_view(&self) -> EnumDefV {
        EnumDefV {
            name: self.name@,
            generic_params: self.generic_params.deep_view(),
            variants: self.variants.deep_view(),
        }
    }
}

impl Clone for FieldDef {
    fn clone(&self) -> (r: Self)
        ensures
            r.deep_view() == self.deep_view(),
    {
        FieldDef { name: self.name.clone(), ty: self.ty.clone() }
    }
}

impl Clone for VariantDef {
    fn clone(&self) -> (r: Self)
        ensures
            r.deep_view() == self.deep_view(),
    {
        VariantDef {
            name: self.name.clone(),
            payload: match &self.payload {
                Some(t) => Some(t.clone()),
                None => None,
            },
        }
    }
}

impl Clone for GenericParam {
    fn clone(&self) -> (r: Self)
        ensures
            r.deep_view() == self.deep_view(),
    {
        match self {
            GenericParam::Type { name, bounds } => {
                let b = bounds.clone();
                assert(b.deep_view() =~= bounds.deep_view());
                GenericParam::Type { name: name.clone(), bounds: b }
            },
        }
    }
}

impl Clone for StructDef {
    fn clone(&self) -> (r: Self)
        ensures
            r.deep_view() == self.deep_view(),
    {
        let generic_params = self.generic_params.clone();
        assert(generic_params.deep_view() =~= self.generic_params.deep_view());
        let fields = self.fields.clone();
        assert(fields.deep_view() =~= self.fields.deep_view());
        StructDef { name: self.name.clone(), generic_params, fields }
    }
}

impl Clone for EnumDef {
    fn clone(&self) -> (r: Self)
        ensures
            r.deep_view() == self.deep_view(),
    {
        let generic_params = self.generic_params.clone();
        assert(generic_params.deep_view() =~= self.generic_params.deep_view());
        let variants = self.variants.clone();
        assert(variants.deep_view() =~= self.variants.deep_view());
        EnumDef { name: self.name.clone(), generic_params, variants }
    }
}

} // verus!
