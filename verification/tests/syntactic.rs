use xiyi_compiler::expr::{Attribute, Block, Expr, ExprKind, GenericParam};
use xiyi_compiler::literal::Literal;
use xiyi_compiler::syntactic::{show_token, Parser, Read, Token};

/// The tokens of a text whose tokens are separated by blanks.
fn parser(text: &str) -> Parser {
    let tokens = text.split_whitespace().map(|w| (kind(w), w.to_string())).collect();
    Parser::new(tokens)
}

fn kind(w: &str) -> Token {
    match w {
        "i8" => Token::I8,
        "i16" => Token::I16,
        "i32" => Token::I32,
        "i64" => Token::I64,
        "i128" => Token::I128,
        "u8" => Token::U8,
        "u16" => Token::U16,
        "u32" => Token::U32,
        "u64" => Token::U64,
        "u128" => Token::U128,
        "f16" => Token::F16,
        "f32" => Token::F32,
        "f64" => Token::F64,
        "bool" => Token::Bool,
        "char" => Token::Char,
        "str" => Token::Str,
        "never" => Token::Never,
        "Self" => Token::SelfType,
        "self" => Token::SelfLower,
        "fn" => Token::Fn,
        "pub" => Token::Pub,
        "priv" => Token::Priv,
        "model" => Token::Model,
        "var" => Token::Var,
        "let" => Token::Let,
        "mut" => Token::Mut,
        "bytes" => Token::Bytes,
        "true" => Token::True,
        "false" => Token::False,
        "(" => Token::LParen,
        ")" => Token::RParen,
        "[" => Token::LBracket,
        "]" => Token::RBracket,
        "{" => Token::LBrace,
        "}" => Token::RBrace,
        "<" => Token::Lt,
        ">" => Token::Gt,
        "," => Token::Comma,
        ":" => Token::Colon,
        "::" => Token::PathSep,
        ";" => Token::Semicolon,
        "+" => Token::Plus,
        "/" => Token::Slash,
        "&" => Token::Amp,
        "->" => Token::Arrow,
        "=" => Token::Eq,
        _ => {
            let c = w.chars().next().unwrap();
            if c == '"' {
                Token::String
            } else if c.is_ascii_digit() {
                if w.contains('.') {
                    Token::Float
                } else {
                    Token::Integer
                }
            } else if c.is_alphabetic() || c == '_' {
                Token::Ident
            } else {
                Token::Other("Percent")
            }
        }
    }
}

fn ty(text: &str) -> Result<String, String> {
    let mut p = parser(text);
    let r = p.parse_type();
    r.map(|t| format!("{:?} to {}", t, p.pos))
}

fn ok(s: &str) -> Result<String, String> {
    Ok(s.to_string())
}

fn err(s: &str) -> Result<String, String> {
    Err(s.to_string())
}

#[test]
fn token_names() {
    assert_eq!(show_token(Token::LBrace), "LBrace");
    assert_eq!(show_token(Token::Ident), format!("{:?}", Token::Ident));
}

#[test]
fn stepping_through_tokens() {
    let mut p = parser("a :: b");
    assert_eq!(p.peek(), Some(Token::Ident));
    assert_eq!(p.peek_nth(1), Some(Token::PathSep));
    assert_eq!(p.peek_nth(3), None);
    assert_eq!(p.text(), "a");
    assert_eq!(p.parse_ident(), Ok("a".to_string()));
    assert_eq!(p.parse_ident(), Err("Expected identifier".to_string()));
    assert_eq!(p.expect(Token::Colon), Err("Expected Colon".to_string()));
    assert_eq!(p.pos, 1);
    assert_eq!(p.expect(Token::PathSep), Ok(()));
    p.next();
    p.next();
    assert_eq!(p.pos, 3);
    assert_eq!(p.peek(), None);
}

#[test]
fn simple_types() {
    assert_eq!(ty("i32"), ok("I32 to 1"));
    assert_eq!(ty("never"), ok("Never to 1"));
    assert_eq!(ty("Self"), ok("SelfType to 1"));
    assert_eq!(ty("( )"), ok("Unit to 2"));
    assert_eq!(ty("usize"), ok("U64 to 1"));
    assert_eq!(ty("isize"), ok("I64 to 1"));
    assert_eq!(ty("Point"), ok("Struct(\"Point\") to 1"));
    assert_eq!(ty("( i32 )"), err("Tuple types not supported yet"));
    assert_eq!(ty(";"), err("Expected type"));
    assert_eq!(ty(""), err("Expected type"));
}

#[test]
fn references_and_slices() {
    assert_eq!(ty("& i8"), ok("Ref { mutable: false, inner: I8 } to 2"));
    assert_eq!(ty("& mut [ u8 ]"), ok("Ref { mutable: true, inner: Slice(U8) } to 5"));
    assert_eq!(ty("& [ u8"), err("Expected RBracket"));
    assert_eq!(
        ty("& & mut i8"),
        ok("Ref { mutable: false, inner: Ref { mutable: true, inner: I8 } } to 4")
    );
}

#[test]
fn generic_types() {
    assert_eq!(
        ty("Map < i8 , Vec < u8 > >"),
        ok("Generic(\"Map\", [I8, Generic(\"Vec\", [U8])]) to 9")
    );
    assert_eq!(ty("Map < i8 , >"), ok("Generic(\"Map\", [I8]) to 5"));
    assert_eq!(ty("Map < >"), ok("Generic(\"Map\", []) to 3"));
    assert_eq!(ty("Map < i8 ;"), err("Expected ',' or '>' in generic type"));
    assert_eq!(ty("Map <"), err("Expected Gt"));
}

#[test]
fn type_parameters_in_scope() {
    let mut p = parser("T");
    p.push_generic_scope(&vec![GenericParam::Type { name: "T".to_string(), bounds: vec![] }]);
    assert!(p.is_active_generic("T"));
    assert_eq!(format!("{:?}", p.parse_type()), "Ok(TypeParam(\"T\"))");
    p.pop_generic_scope();
    assert!(!p.is_active_generic("T"));
}

#[test]
fn labelled_types() {
    assert_eq!(ty("i8 < public >"), ok("Privacy(I8, Public) to 4"));
    assert_eq!(ty("i8 < private >"), ok("Privacy(I8, Private) to 4"));
    assert_eq!(
        ty("i8 < dp ( eps : 1 / 2 , delta : 0.1 ) >"),
        ok("Privacy(I8, Differential { eps: \"1/2\", delta: Some(\"0.1\") }) to 15")
    );
    assert_eq!(
        ty("i8 < dp ( eps : 3 ) >"),
        ok("Privacy(I8, Differential { eps: \"3\", delta: None }) to 9")
    );
    assert_eq!(ty("i8 < secret >"), ok("I8 to 1"));
    assert_eq!(ty("i8 < public"), ok("I8 to 1"));
}

#[test]
fn labels_and_their_complaints() {
    let tag = |text: &str| parser(text).parse_privacy_tag().map(|t| format!("{:?}", t));
    assert_eq!(tag("< public >"), ok("Public"));
    assert_eq!(tag("public"), err("Expected Lt"));
    assert_eq!(tag("< x >"), err("Expected privacy tag"));
    assert_eq!(tag("< dp ( x"), err("Expected 'eps', got 'x'"));
    assert_eq!(tag("< dp ( 1"), err("Expected 'eps'"));
    assert_eq!(tag("< dp ( eps : 1 , x"), err("Expected 'delta', got 'x'"));
    assert_eq!(tag("< dp ( eps : 1 , 2"), err("Expected 'delta'"));
    assert_eq!(tag("< dp ( eps : ;"), err("Expected rational literal"));
    assert_eq!(tag("< dp ( eps : 1 / x"), err("Expected integer after '/'"));
    assert_eq!(tag("< dp ( eps : 1 ;"), err("Expected RParen"));
}

#[test]
fn rational_literals() {
    let r = |text: &str| parser(text).parse_rational_literal();
    assert_eq!(r("3 / 4"), ok("3/4"));
    assert_eq!(r("3 ;"), ok("3"));
    assert_eq!(r("0.25"), ok("0.25"));
    assert_eq!(r("x"), err("Expected rational literal"));
}

#[test]
fn tensor_types() {
    assert_eq!(
        ty("Tensor < f32 , [ 2 , N , Dyn , Sym < M > ] >"),
        ok("Tensor { dtype: F32, shape: [Const(2), Sym(\"N\"), Dyn, Sym(\"M\")] } to 17")
    );
    assert_eq!(ty("Tensor < f32 , [ ] >"), ok("Tensor { dtype: F32, shape: [] } to 7"));
    assert_eq!(ty("Tensor < f32 , [ 2 , ] >"), ok("Tensor { dtype: F32, shape: [Const(2)] } to 9"));
    assert_eq!(ty("Tensor f32"), err("Expected Lt"));
}

#[test]
fn shapes_and_their_complaints() {
    let s = |text: &str| parser(text).parse_shape().map(|t| format!("{:?}", t));
    assert_eq!(s("[ 1 2 ]"), err("Expected comma or closing bracket in shape"));
    assert_eq!(s("[ ; ]"), err("Expected dimension in shape"));
    assert_eq!(
        s("[ 99999999999999999999999 ]"),
        err("Invalid shape dimension literal: 99999999999999999999999")
    );
    assert_eq!(s("1"), err("Expected LBracket"));
    assert_eq!(s("["), err("Expected RBracket"));
}

#[test]
fn type_parameter_lists() {
    let g = |text: &str| {
        let mut p = parser(text);
        let r = p.parse_generic_params();
        r.map(|v| format!("{:?} to {}", v, p.pos))
    };
    assert_eq!(g("< T >"), ok("[Type { name: \"T\", bounds: [] }] to 3"));
    assert_eq!(
        g("< T : A + B < C > , U , >"),
        ok("[Type { name: \"T\", bounds: [\"A\", \"B\"] }, Type { name: \"U\", bounds: [] }] to 13")
    );
    assert_eq!(g("< >"), ok("[] to 2"));
    assert_eq!(g("T >"), err("Expected Lt"));
    assert_eq!(g("< 1 >"), err("Expected identifier"));
    assert_eq!(g("< T ;"), err("Expected Gt"));
    assert_eq!(g("< T : >"), err("Expected identifier"));
}

#[test]
fn where_clauses() {
    let w = |text: &str| {
        let mut p = parser(text);
        let r = p.parse_where_clause();
        r.map(|v| {
            let s: Vec<String> =
                v.iter().map(|c| format!("{}: {}", c.type_param, c.bounds.join("+"))).collect();
            format!("{} to {}", s.join("; "), p.pos)
        })
    };
    assert_eq!(w("T : A + B , U : C {"), ok("T: A+B; U: C to 9"));
    assert_eq!(w("{"), ok(" to 0"));
    assert_eq!(w("T {"), err("Expected Colon"));
}

#[test]
fn patterns() {
    let p = |text: &str| parser(text).parse_pattern().map(|t| format!("{:?}", t));
    assert_eq!(p("_"), ok("Wildcard"));
    assert_eq!(
        p("E :: A"),
        ok("EnumVariant { enum_name: \"E\", variant_name: \"A\" }")
    );
    assert_eq!(
        p("E :: A ( x )"),
        ok("EnumVariantWithBinding { enum_name: \"E\", variant_name: \"A\", binding: \"x\" }")
    );
    assert_eq!(p("E : A"), err("Unexpected ':' in pattern, expected '::'"));
    assert_eq!(p("E"), err("expected '::' after enum name in pattern"));
    assert_eq!(p("E :: 1"), err("Expected identifier"));
    assert_eq!(p("E :: A ( x"), err("Expected RParen"));
}

#[test]
fn parameters() {
    let p = |text: &str| {
        parser(text).parse_params().map(|v| {
            v.iter().map(|q| format!("{}: {:?}", q.name, q.ty)).collect::<Vec<String>>().join(", ")
        })
    };
    assert_eq!(p(")"), ok(""));
    assert_eq!(p("self , x : i8 )"), ok("self: SelfType, x: I8"));
    assert_eq!(p("& self )"), ok("self: Ref { mutable: false, inner: SelfType }"));
    assert_eq!(
        p("& mut self , x : bool , )"),
        ok("self: Ref { mutable: true, inner: SelfType }, x: Bool")
    );
    assert_eq!(p("& x )"), err("Expected 'self' after '&'"));
    assert_eq!(p("x i8 )"), err("Expected Colon"));
}

#[test]
fn function_signatures() {
    let f = |text: &str| {
        let mut p = parser(text);
        let r = p.parse_func_sig();
        assert_eq!(p.generic_scopes.len(), 0);
        r.map(|s| format!("{} {} {} {:?}", s.name, s.generic_params.len(), s.params.len(), s.return_type))
    };
    assert_eq!(f("pub fn f < T > ( x : T ) -> T ;"), ok("f 1 1 Some(TypeParam(\"T\"))"));
    assert_eq!(f("priv fn f ( ) ;"), ok("f 0 0 None"));
    assert_eq!(f("fn f ( )"), err("Expected Semicolon"));
    assert_eq!(f("f ( )"), err("Expected Fn"));
    assert_eq!(f("fn f < T > ( x"), err("Expected Colon"));
    assert_eq!(f("fn f ) ;"), err("Expected LParen"));
}

/// Reads `{ }`, with the type parameter `T` in scope.
fn block(mut p: Parser) -> Read<Block> {
    if !p.is_active_generic("T") {
        return (p, Err("T is not in scope".to_string()));
    }
    let r = p.expect(Token::LBrace).and_then(|_| p.expect(Token::RBrace));
    (p, r.map(|_| Block { stmts: vec![] }))
}

/// Reads one token as an expression.
fn one_token(mut p: Parser) -> Read<Expr> {
    if p.peek() == Some(Token::Integer) {
        p.next();
        (p, Ok(Expr { id: 0, kind: ExprKind::Literal(Literal::Int32(1)) }))
    } else {
        (p, Err("no value".to_string()))
    }
}

fn no_attributes(p: Parser) -> Read<Vec<Attribute>> {
    (p, Ok(vec![]))
}

#[test]
fn function_definitions() {
    let mut p = parser("fn f < T > ( x : T ) { }");
    let d = p.parse_func_def(vec![], block).ok().unwrap();
    assert_eq!(d.name, "f");
    assert_eq!(format!("{:?}", d.params[0].ty), "TypeParam(\"T\")");
    assert_eq!(p.generic_scopes.len(), 0);
    assert_eq!(p.pos, p.tokens.len());
    let f = |text: &str| {
        let mut p = parser(text);
        let r = p.parse_func_def(vec![], block).err();
        assert_eq!(p.generic_scopes.len(), 0);
        r
    };
    assert_eq!(f("fn f < T > ( ) { fn"), Some("Expected RBrace".to_string()));
    assert_eq!(f("fn f ( ) { }"), Some("T is not in scope".to_string()));
    assert_eq!(f("fn f < T > ) { }"), Some("Expected LParen".to_string()));
}

#[test]
fn models() {
    let model = |text: &str| {
        let mut p = parser(text);
        let r = p.parse_model(vec![], no_attributes, one_token, block);
        assert_eq!(p.generic_scopes.len(), 0);
        r.map(|m| {
            let fields: Vec<String> = m.fields.iter().map(|f| f.name.clone()).collect();
            let fns: Vec<String> = m.functions.iter().map(|f| f.name.clone()).collect();
            format!("{} {} {:?} {:?} {}", m.name, m.generic_params.len(), fields, fns, p.pos)
        })
    };
    assert_eq!(
        model("model M < T > { var w : f32 ; fn f < T > ( ) { } let b : i8 = 1 ; } i8"),
        ok("M 1 [\"w\", \"b\"] [\"f\"] 28")
    );
    assert_eq!(model("model M { }"), ok("M 0 [] [] 4"));
    assert_eq!(
        model("model M { i8 }"),
        err("Expected field (var/let) or function (fn) definition in model block")
    );
    assert_eq!(model("model M { var x : i8 }"), err("Expected Semicolon"));
    assert_eq!(model("model M { var x : i8 = 1 }"), err("Expected Semicolon"));
    assert_eq!(model("model M { var x : i8 = } "), err("no value"));
    assert_eq!(model("model M { fn f ( ) { } }"), err("T is not in scope"));
    assert_eq!(model("model M { var x : i8 ;"), err("Expected RBrace"));
    assert_eq!(model("M { }"), err("Expected Model"));
    let refuse = |p: Parser| -> Read<Vec<Attribute>> { (p, Err("attributes".to_string())) };
    let r = parser("model M { fn f ( ) { } }").parse_model(vec![], refuse, one_token, block);
    assert_eq!(r.err(), Some("attributes".to_string()));
}

fn literal(text: &str) -> Result<String, String> {
    let mut p = parser(text);
    match p.parse_literal() {
        None => {
            assert_eq!(p.pos, 0);
            Ok("nothing".to_string())
        }
        Some(r) => r.map(|e: Expr| format!("{:?} as {}", e.kind, e.id)),
    }
}

#[test]
fn literals() {
    assert_eq!(literal("42"), ok("Literal(Int32(42)) as 0"));
    assert_eq!(literal("2147483647"), ok("Literal(Int32(2147483647)) as 0"));
    assert_eq!(
        literal("2147483648"),
        err("Integer literal 2147483648 out of range for Int32 (-2147483648..=2147483647)")
    );
    assert_eq!(
        literal("9223372036854775808"),
        err("Integer literal too large for any integer type: 9223372036854775808")
    );
    assert_eq!(
        literal("0.1"),
        Ok(format!("Literal(Float64({})) as 0", 0.1f64.to_bits()))
    );
    assert_eq!(literal("1.2.3"), err("Invalid float literal: 1.2.3"));
    assert_eq!(literal("true"), ok("Literal(Bool(true)) as 0"));
    assert_eq!(literal("false"), ok("Literal(Bool(false)) as 0"));
    assert_eq!(literal("\"hi\""), ok("Literal(String(\"hi\")) as 0"));
    assert_eq!(literal("bytes \"a\\n\""), ok("Literal(ByteString([97, 10])) as 0"));
    assert_eq!(literal("x"), ok("nothing"));
    assert_eq!(literal(""), ok("nothing"));
}

#[test]
fn byte_strings_follow_their_keyword() {
    assert_eq!(
        literal("bytes 1\"\\"),
        Err(format!(
            "Expected string literal immediately after 'bytes', got {:?}",
            Some((Token::Integer, "1\"\\"))
        ))
    );
    assert_eq!(
        literal("bytes"),
        err("Expected string literal immediately after 'bytes', got None")
    );
    assert_eq!(
        literal("bytes %"),
        err("Expected string literal immediately after 'bytes', got Some((Percent, \"%\"))")
    );
}

#[test]
fn kinds_without_a_rule_go_by_their_names() {
    let percent = || Parser::new(vec![(Token::Other("Percent"), "%".to_string())]);
    assert_eq!(show_token(Token::Other("Percent")), "Percent");
    assert!(Token::Other("Percent") == Token::Other("Percent"));
    assert!(Token::Other("Percent") != Token::Other("While"));
    assert!(Token::Other("Ident") != Token::Ident);
    assert!(percent().expect(Token::Other("Percent")).is_ok());
    assert_eq!(
        percent().expect(Token::Other("While")),
        Err("Expected While".to_string())
    );
}

#[test]
fn expressions_get_increasing_numbers() {
    let mut p = parser("1 ( ) true");
    assert_eq!(p.parse_literal().unwrap().unwrap().id, 0);
    let unit = p.try_parse_unit_literal().unwrap();
    assert_eq!(format!("{:?} as {}", unit.kind, unit.id), "Literal(Unit) as 1");
    assert!(p.try_parse_unit_literal().is_none());
    assert_eq!(p.pos, 3);
    assert_eq!(p.parse_literal().unwrap().unwrap().id, 2);
}

#[test]
fn quotes() {
    let q = |s: &str| Parser::strip_quotes(s.to_string());
    assert_eq!(q("\"ab\""), "ab");
    assert_eq!(q("\"\""), "");
    assert_eq!(q("\""), "\"");
    assert_eq!(q("\"ab"), "\"ab");
    assert_eq!(q("ab"), "ab");
}

#[test]
fn byte_string_escapes() {
    let d = Parser::decode_byte_string;
    assert_eq!(d("a\\n\\r\\t\\\\\\\"\\0\\x41"), Ok(vec![97, 10, 13, 9, 92, 34, 0, 65]));
    assert_eq!(d(""), Ok(vec![]));
    assert_eq!(d("\\x7F"), Ok(vec![127]));
    assert_eq!(
        d("\\x80"),
        Err("error[BS001]: byte string contains non-ASCII byte 0x80".to_string())
    );
    assert_eq!(
        d("\u{e9}"),
        Err("error[BS001]: byte string contains non-ASCII byte 0xE9".to_string())
    );
    assert_eq!(d("\\xg1"), Err("invalid \\x escape in byte string: \\xg1".to_string()));
    assert_eq!(d("\\x4"), Err("incomplete \\x escape in byte string".to_string()));
    assert_eq!(d("\\x"), Err("incomplete \\x escape in byte string".to_string()));
    assert_eq!(d("\\q"), Err("unknown escape sequence in byte string: \\q".to_string()));
    assert_eq!(d("\\"), Err("incomplete escape sequence in byte string".to_string()));
}

#[test]
fn a_byte_escape_takes_two_hexadecimal_digits() {
    assert_eq!(
        Parser::decode_byte_string("\\x+5"),
        Err("invalid \\x escape in byte string: \\x+5".to_string())
    );
}
