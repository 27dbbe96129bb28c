use xiyi_compiler::ast::{PrivacyTag, ShapeDim, Type};
use xiyi_compiler::mangle::type_to_string;
use xiyi_compiler::mir::{
    MirBlock, MirBody, MirEnum, MirFn, MirGenericParam, MirLocal, MirOperand, MirPlace,
    MirProgram, MirRvalue, MirStmt, MirStruct, MirTerminator, SsaLocal,
};
use xiyi_compiler::monomorphic::Monomorphic;

fn var(n: usize) -> MirPlace {
    MirPlace::Ssa(SsaLocal { base_id: n, version: 0 })
}

fn param(name: &str) -> MirGenericParam {
    MirGenericParam { name: name.to_string(), bounds: vec![] }
}

fn t() -> Type {
    Type::TypeParam("T".to_string())
}

fn call(func: &str, generic_args: Vec<Type>) -> MirStmt {
    MirStmt::ExprStmt(MirRvalue::Call {
        func: func.to_string(),
        args: vec![],
        is_intrinsic: false,
        intrinsic_name: None,
        generic_args,
    })
}

fn build_struct(name: &str, generic_args: Vec<Type>) -> MirStmt {
    MirStmt::ExprStmt(MirRvalue::StructInit {
        struct_name: name.to_string(),
        generic_args,
        fields: vec![],
    })
}

fn build_enum(name: &str, generic_args: Vec<Type>) -> MirStmt {
    MirStmt::ExprStmt(MirRvalue::EnumVariantConstruction {
        enum_name: name.to_string(),
        generic_args,
        variant_name: "Some".to_string(),
        args: vec![],
    })
}

fn local(id: usize, ty: Type) -> MirLocal {
    MirLocal { id, name: None, ty, mutable: false, persist: false, is_param: false }
}

fn function(name: &str, generics: Vec<&str>, ty: Type, stmts: Vec<MirStmt>) -> MirFn {
    MirFn {
        name: name.to_string(),
        generic_params: generics.into_iter().map(param).collect(),
        params: vec![("x".to_string(), ty)],
        return_type: None,
        body: MirBody {
            locals: vec![],
            blocks: vec![MirBlock { id: 0, stmts, terminator: MirTerminator::Return(None) }],
        },
    }
}

fn program(fns: Vec<MirFn>) -> MirProgram {
    MirProgram {
        structs: vec![MirStruct {
            name: "Pair".to_string(),
            generic_params: vec![param("T")],
            fields: vec![("a".to_string(), t())],
        }],
        enums: vec![MirEnum {
            name: "Option".to_string(),
            generic_params: vec![param("T")],
            variants: vec![("None".to_string(), None), ("Some".to_string(), Some(t()))],
        }],
        fns,
        intrinsics_used: vec!["print".to_string()],
    }
}

fn names(p: &MirProgram) -> Vec<String> {
    p.fns.iter().map(|f| f.name.clone()).collect()
}

#[test]
fn a_generic_call_gets_its_instance() {
    let r = Monomorphic::run(program(vec![
        function("id", vec!["T"], t(), vec![]),
        function("main", vec![], Type::I32, vec![call("id", vec![Type::I32])]),
    ]));
    assert_eq!(names(&r), vec!["id_i32".to_string(), "main".to_string()]);
    assert_eq!(format!("{:?}", r.fns[0].params), "[(\"x\", I32)]");
    assert!(r.fns.iter().all(|f| f.generic_params.is_empty()));
    assert_eq!(r.intrinsics_used, vec!["print".to_string()]);
}

#[test]
fn each_instance_is_made_once() {
    let r = Monomorphic::run(program(vec![
        function("id", vec!["T"], t(), vec![]),
        function(
            "main",
            vec![],
            Type::I32,
            vec![
                call("id", vec![Type::I32]),
                call("id", vec![Type::Bool]),
                call("id", vec![Type::I32]),
            ],
        ),
    ]));
    assert_eq!(
        names(&r),
        vec!["id_i32".to_string(), "id_bool".to_string(), "main".to_string()]
    );
}

#[test]
fn calls_inside_instances_are_followed() {
    let r = Monomorphic::run(program(vec![
        function("outer", vec!["T"], t(), vec![call("inner", vec![t()])]),
        function("inner", vec!["T"], t(), vec![call("outer", vec![t()])]),
        function("main", vec![], Type::I32, vec![call("outer", vec![Type::U8])]),
    ]));
    assert_eq!(
        names(&r),
        vec![
            "inner_T".to_string(),
            "outer_T".to_string(),
            "outer_u8".to_string(),
            "inner_u8".to_string(),
            "main".to_string()
        ]
    );
}

#[test]
fn unknown_and_plain_callees_get_no_instance() {
    let r = Monomorphic::run(program(vec![
        function("plain", vec![], Type::I32, vec![]),
        function(
            "main",
            vec![],
            Type::I32,
            vec![call("plain", vec![Type::I32]), call("missing", vec![Type::I32])],
        ),
    ]));
    assert_eq!(names(&r), vec!["plain".to_string(), "main".to_string()]);
}

#[test]
fn structs_and_enums_get_their_instances() {
    let r = Monomorphic::run(program(vec![function(
        "main",
        vec![],
        Type::Generic("Pair".to_string(), vec![Type::I32]),
        vec![build_struct("Pair", vec![Type::I32]), build_enum("Option", vec![Type::Bool])],
    )]));
    assert_eq!(r.structs.len(), 1);
    assert_eq!(r.structs[0].name, "Pair_i32");
    assert!(r.structs[0].generic_params.is_empty());
    assert_eq!(format!("{:?}", r.structs[0].fields), "[(\"a\", I32)]");
    assert_eq!(r.enums.len(), 1);
    assert_eq!(r.enums[0].name, "Option_bool");
    assert_eq!(
        format!("{:?}", r.enums[0].variants),
        "[(\"None\", None), (\"Some\", Some(Bool))]"
    );
    assert_eq!(format!("{:?}", r.fns[0].params), "[(\"x\", Struct(\"Pair_i32\"))]");
    let stmts = format!("{:?}", r.fns[0].body.blocks[0].stmts);
    assert!(stmts.contains("struct_name: \"Pair_i32\", generic_args: []"));
    assert!(stmts.contains("enum_name: \"Option_bool\", generic_args: []"));
}

#[test]
fn payloads_name_the_enum_of_their_variable() {
    let mut f = function("main", vec![], Type::I32, vec![build_enum("Option", vec![Type::I32])]);
    f.body.locals.push(local(7, Type::Generic("Option".to_string(), vec![Type::I32])));
    f.body.blocks[0].stmts.push(MirStmt::ExprStmt(MirRvalue::Use(MirOperand::Copy(
        MirPlace::EnumPayload {
            base: Box::new(var(7)),
            enum_name: "Option".to_string(),
            variant_name: "Some".to_string(),
        },
    ))));
    let r = Monomorphic::run(program(vec![f]));
    let last = format!("{:?}", r.fns[0].body.blocks[0].stmts[1]);
    assert!(last.contains("enum_name: \"Option_i32\""), "{}", last);
    assert_eq!(
        format!("{:?}", r.fns[0].body.locals[0].ty),
        "Enum(\"Option_i32\")"
    );
}

#[test]
fn types_in_names() {
    assert_eq!(type_to_string(&Type::U128), "u128");
    assert_eq!(type_to_string(&Type::Unit), "unit");
    assert_eq!(
        type_to_string(&Type::Privacy(Box::new(Type::F32), PrivacyTag::Private)),
        type_to_string(&Type::F32)
    );
}

#[test]
fn types_with_parts_in_names() {
    let pair = || vec![Type::I32, Type::Bool];
    assert_eq!(type_to_string(&Type::Struct("Point".to_string())), "Point");
    assert_eq!(type_to_string(&Type::SelfType), "Self");
    assert_eq!(type_to_string(&Type::Generic("Map".to_string(), pair())), "Map_i32_bool");
    assert_eq!(type_to_string(&Type::Tuple(pair())), "tuple_i32_bool");
    assert_eq!(type_to_string(&Type::Tuple(vec![])), "tuple_");
    assert_eq!(type_to_string(&Type::Array(Box::new(Type::U8), 16)), "arr_u8_16");
    assert_eq!(
        type_to_string(&Type::Ref { mutable: true, inner: Box::new(Type::Str) }),
        "ref_mut_str"
    );
    assert_eq!(
        type_to_string(&Type::Ref { mutable: false, inner: Box::new(Type::Str) }),
        "ref_immut_str"
    );
    assert_eq!(type_to_string(&Type::Slice(Box::new(Type::Char))), "slice_char");
    assert_eq!(
        type_to_string(&Type::Tensor {
            dtype: Box::new(Type::F32),
            shape: vec![ShapeDim::Const(3), ShapeDim::Sym("n".to_string()), ShapeDim::Dyn],
        }),
        "tensor_f32_3_n_Dyn"
    );
    assert_eq!(type_to_string(&Type::ConstIntArray(vec![1, -2])), "constarr_1_-2");
}

#[test]
fn instances_for_different_types_have_different_names() {
    let types = || {
        vec![
            Type::I8, Type::I16, Type::I32, Type::I64, Type::I128, Type::U8, Type::U16, Type::U32,
            Type::U64, Type::U128, Type::F16, Type::F32, Type::F64, Type::Bool, Type::Char,
            Type::Str, Type::Unit, Type::Never, Type::SymInt,
        ]
    };
    let calls = types().into_iter().map(|a| call("id", vec![a])).collect();
    let p = program(vec![
        function("id", vec!["T"], t(), vec![]),
        function("main", vec![], Type::Unit, calls),
    ]);
    let mut made = names(&Monomorphic::run(p));
    assert_eq!(made.len(), types().len() + 1);
    made.sort();
    made.dedup();
    assert_eq!(made.len(), types().len() + 1);
}
