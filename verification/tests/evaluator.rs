use minilisp::ast::AstNode;
use minilisp::builtin::Builtin;
use minilisp::error::LangError;
use minilisp::exec::exec;
use minilisp::primitive::Primitive;
use minilisp::result::Result;
use minilisp::scope::Scope;
use minilisp::userfunc::FnDef;

const FUEL: u64 = 64;

fn leaf(s: &str) -> AstNode {
    AstNode::Leaf(s.to_string())
}

#[test]
fn execs_basic_sexp() {
    assert_eq!(
        exec(
            &vec![AstNode::AST(vec![leaf("if"), leaf("#t"), leaf("1")])],
            &mut Scope::base(),
            FUEL
        )
        .unwrap()
        .unwrap(),
        Result::Primitive(Primitive::I(1))
    )
}

#[test]
fn execs_nested_sexp() {
    assert_eq!(
        exec(
            &vec![AstNode::AST(vec![
                leaf("if"),
                AstNode::AST(vec![leaf("if"), leaf("1"), leaf("#f")]),
                leaf("1"),
                leaf("2")
            ])],
            &mut Scope::base(),
            FUEL
        )
        .unwrap()
        .unwrap(),
        Result::Primitive(Primitive::I(2))
    )
}

#[test]
fn execs_multiple_sexp_and_returns_last() {
    assert_eq!(
        exec(
            &vec![
                AstNode::AST(vec![leaf("define"), leaf("x"), leaf("1")]),
                leaf("x")
            ],
            &mut Scope::base(),
            FUEL
        )
        .unwrap()
        .unwrap(),
        Result::Primitive(Primitive::I(1))
    )
}

#[test]
fn eq_on_same_id() {
    let l = Builtin { id: "id".to_string() };
    let r = Builtin { id: "id".to_string() };
    assert!(l == r);
}

#[test]
fn not_eq_based_on_id() {
    let l = Builtin { id: "id".to_string() };
    let r = Builtin { id: "id2".to_string() };
    assert!(l != r);
}

#[test]
fn fn_def_exec_with_no_params_or_args() {
    let f = FnDef::new(vec![], leaf("2"));

    assert_eq!(
        f.exec(vec![], &mut Scope::base(), FUEL).unwrap().unwrap(),
        Result::Primitive(Primitive::I(2))
    )
}

#[test]
fn fn_def_fails_with_mismatched_params_and_args() {
    let f = FnDef::new(vec!["x".to_string(), "y".to_string()], leaf("2"));

    assert_eq!(
        f.exec(vec![], &mut Scope::base(), FUEL),
        Err(LangError::ArityError)
    );
}

#[test]
fn fn_def_applies_args_to_params() {
    let f = FnDef::new(
        vec!["x".to_string(), "y".to_string()],
        AstNode::AST(vec![leaf("eq?"), leaf("x"), leaf("y")]),
    );

    assert_eq!(
        f.exec(vec![leaf("1"), leaf("1")], &mut Scope::base(), FUEL)
            .unwrap()
            .unwrap(),
        Result::Primitive(Primitive::B(true))
    )
}

#[test]
fn fn_def_args_can_evaluate_themselves() {
    let f = FnDef::new(
        vec!["x".to_string(), "y".to_string()],
        AstNode::AST(vec![leaf("eq?"), leaf("x"), leaf("y")]),
    );

    assert_eq!(
        f.exec(
            vec![
                AstNode::AST(vec![leaf("if"), leaf("#t"), leaf("1")]),
                leaf("1")
            ],
            &mut Scope::base(),
            FUEL
        )
        .unwrap()
        .unwrap(),
        Result::Primitive(Primitive::B(true))
    )
}

#[test]
fn empty_group_evaluates_to_nothing() {
    assert_eq!(
        exec(&vec![AstNode::AST(vec![])], &mut Scope::base(), FUEL).unwrap(),
        None
    );
}

#[test]
fn empty_program_evaluates_to_nothing() {
    assert_eq!(exec(&vec![], &mut Scope::base(), FUEL).unwrap(), None);
}

#[test]
fn undefined_reference_fails() {
    assert_eq!(
        exec(&vec![leaf("nosuch")], &mut Scope::base(), FUEL),
        Err(LangError::UndefinedReference)
    );
}

#[test]
fn call_on_primitive_fails() {
    assert_eq!(
        exec(
            &vec![AstNode::AST(vec![leaf("1"), leaf("2")])],
            &mut Scope::base(),
            FUEL
        ),
        Err(LangError::CallOnPrimitive)
    );
}

#[test]
fn bare_builtin_reference_is_the_builtin_itself() {
    assert_eq!(
        exec(&vec![leaf("not")], &mut Scope::base(), FUEL)
            .unwrap()
            .unwrap(),
        Result::Builtin(Builtin { id: "not".to_string() })
    );
}

#[test]
fn unbounded_recursion_runs_out_of_fuel() {
    let defs = vec![
        AstNode::AST(vec![
            leaf("define"),
            AstNode::AST(vec![leaf("f"), leaf("x")]),
            AstNode::AST(vec![leaf("f"), leaf("x")]),
        ]),
        AstNode::AST(vec![leaf("f"), leaf("1")]),
    ];
    assert_eq!(
        exec(&defs, &mut Scope::base(), 16),
        Err(LangError::StackOverflow)
    );
}

#[test]
fn integer_literal_pipeline_yields_int() {
    let exprs = minilisp::ast::new(minilisp::token::tokenize("42")).unwrap();
    assert_eq!(
        exec(&exprs, &mut Scope::base(), FUEL).unwrap().unwrap(),
        Result::Primitive(Primitive::I(42))
    );
    let negs = minilisp::ast::new(minilisp::token::tokenize("-7")).unwrap();
    assert_eq!(
        exec(&negs, &mut Scope::base(), FUEL).unwrap().unwrap(),
        Result::Primitive(Primitive::I(-7))
    );
}

#[test]
fn float_literal_pipeline_yields_float_text() {
    let exprs = minilisp::ast::new(minilisp::token::tokenize("100.25")).unwrap();
    assert_eq!(
        exec(&exprs, &mut Scope::base(), FUEL).unwrap().unwrap(),
        Result::Primitive(Primitive::F("100.25".to_string()))
    );
}

#[test]
fn oversized_integer_literal_reads_as_float() {
    let exprs = minilisp::ast::new(minilisp::token::tokenize("99999999999")).unwrap();
    assert_eq!(
        exec(&exprs, &mut Scope::base(), FUEL).unwrap().unwrap(),
        Result::Primitive(Primitive::F("99999999999".to_string()))
    );
}

#[test]
fn named_float_forms_read_as_floats() {
    for text in ["inf", "-inf", "Infinity", "NaN", "1e5", "-2.5E-3", ".5", "5."] {
        let exprs = minilisp::ast::new(minilisp::token::tokenize(text)).unwrap();
        assert_eq!(
            exec(&exprs, &mut Scope::base(), FUEL).unwrap().unwrap(),
            Result::Primitive(Primitive::F(text.to_string())),
            "expected {} to read as a float literal",
            text
        );
    }
}

#[test]
fn non_literals_are_not_floats() {
    for text in ["infx", "1.2.3", "1e", "e5", "+", ".", "nan7", "--1"] {
        assert_eq!(
            exec(&vec![leaf(text)], &mut Scope::base(), FUEL),
            Err(LangError::UndefinedReference),
            "expected {} to be no literal at all",
            text
        );
    }
}

#[test]
fn boundary_integer_literals() {
    assert_eq!(
        exec(&vec![leaf("2147483647")], &mut Scope::base(), FUEL)
            .unwrap()
            .unwrap(),
        Result::Primitive(Primitive::I(2147483647))
    );
    assert_eq!(
        exec(&vec![leaf("-2147483648")], &mut Scope::base(), FUEL)
            .unwrap()
            .unwrap(),
        Result::Primitive(Primitive::I(-2147483648))
    );
    // one past the i32 range on either side reads as a float literal
    assert_eq!(
        exec(&vec![leaf("2147483648")], &mut Scope::base(), FUEL)
            .unwrap()
            .unwrap(),
        Result::Primitive(Primitive::F("2147483648".to_string()))
    );
}
