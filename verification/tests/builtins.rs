use minilisp::ast::AstNode;
use minilisp::definition::definitiondef;
use minilisp::error::LangError;
use minilisp::exec::Program;
use minilisp::logic::{eqhuhdef, ifdef, notdef};
use minilisp::primitive::Primitive;
use minilisp::result::Result;
use minilisp::scope::Scope;

const FUEL: u64 = 64;

fn leaf(s: &str) -> AstNode {
    AstNode::Leaf(s.to_string())
}

#[test]
fn definitiondef_panics_empty_call() {
    assert_eq!(
        definitiondef(vec![], &mut Scope::base(), FUEL),
        Err(LangError::ArityError)
    );
}

#[test]
fn definitiondef_panics_missing_rhs() {
    assert_eq!(
        definitiondef(vec![leaf("x")], &mut Scope::base(), FUEL),
        Err(LangError::ArityError)
    );
}

#[test]
fn definitiondef_defines_variable() {
    let s = &mut Scope::base();
    definitiondef(
        vec![
            leaf("x"),
            AstNode::AST(vec![leaf("if"), leaf("#t"), leaf("1")]),
        ],
        s,
        FUEL,
    )
    .unwrap();

    assert_eq!(
        Program::new(leaf("x")).exec(s, FUEL).unwrap().unwrap(),
        Result::Primitive(Primitive::I(1))
    )
}

#[test]
fn definitiondef_defines_userfunc_with_no_params() {
    let s = &mut Scope::base();
    definitiondef(
        vec![
            AstNode::AST(vec![leaf("func")]),
            AstNode::AST(vec![leaf("if"), leaf("#t"), leaf("1")]),
        ],
        s,
        FUEL,
    )
    .unwrap();

    assert_eq!(
        Program::new(AstNode::AST(vec![leaf("func")]))
            .exec(s, FUEL)
            .unwrap()
            .unwrap(),
        Result::Primitive(Primitive::I(1))
    )
}

#[test]
fn definitiondef_defines_userfunc_with_params() {
    let s = &mut Scope::base();
    definitiondef(
        vec![
            AstNode::AST(vec![leaf("func"), leaf("x"), leaf("y")]),
            AstNode::AST(vec![
                leaf("if"),
                AstNode::AST(vec![leaf("eq?"), leaf("x"), leaf("y")]),
                leaf("1"),
                leaf("2"),
            ]),
        ],
        s,
        FUEL,
    )
    .unwrap();

    assert_eq!(
        Program::new(AstNode::AST(vec![leaf("func"), leaf("1"), leaf("2")]))
            .exec(s, FUEL)
            .unwrap()
            .unwrap(),
        Result::Primitive(Primitive::I(2))
    )
}

#[test]
fn definitiondef_rejects_non_leaf_parameter() {
    assert_eq!(
        definitiondef(
            vec![
                AstNode::AST(vec![leaf("f"), AstNode::AST(vec![leaf("x")])]),
                leaf("1"),
            ],
            &mut Scope::base(),
            FUEL,
        ),
        Err(LangError::InvalidParameter)
    );
}

#[test]
fn definitiondef_rejects_missing_rhs_value() {
    // the right-hand side evaluates to nothing: a define yields no value
    assert_eq!(
        definitiondef(
            vec![
                leaf("x"),
                AstNode::AST(vec![leaf("define"), leaf("y"), leaf("1")]),
            ],
            &mut Scope::base(),
            FUEL,
        ),
        Err(LangError::MissingValue)
    );
}

#[test]
fn definitiondef_rejects_empty_signature() {
    assert_eq!(
        definitiondef(
            vec![AstNode::AST(vec![]), leaf("1")],
            &mut Scope::base(),
            FUEL,
        ),
        Err(LangError::SyntaxError)
    );
}

#[test]
fn if_happy_path() {
    assert_eq!(
        ifdef(vec![leaf("#t"), leaf("1")], &mut Scope::base(), FUEL)
            .unwrap()
            .unwrap(),
        Result::Primitive(Primitive::I(1))
    )
}

#[test]
fn if_with_else() {
    assert_eq!(
        ifdef(
            vec![leaf("#t"), leaf("1"), leaf("2")],
            &mut Scope::base(),
            FUEL
        )
        .unwrap()
        .unwrap(),
        Result::Primitive(Primitive::I(1))
    )
}

#[test]
fn if_returns_else_when_strictly_false() {
    assert_eq!(
        ifdef(
            vec![leaf("#f"), leaf("1"), leaf("2")],
            &mut Scope::base(),
            FUEL
        )
        .unwrap()
        .unwrap(),
        Result::Primitive(Primitive::I(2))
    )
}

#[test]
fn if_anything_but_false_is_true() {
    assert_eq!(
        ifdef(
            vec![leaf("88"), leaf("1"), leaf("2")],
            &mut Scope::base(),
            FUEL
        )
        .unwrap()
        .unwrap(),
        Result::Primitive(Primitive::I(1))
    );
}

#[test]
fn if_false_without_else_yields_nothing() {
    assert_eq!(
        ifdef(vec![leaf("#f"), leaf("1")], &mut Scope::base(), FUEL).unwrap(),
        None
    );
}

#[test]
fn if_wrong_arity_fails() {
    assert_eq!(
        ifdef(vec![leaf("#t")], &mut Scope::base(), FUEL),
        Err(LangError::ArityError)
    );
    assert_eq!(
        ifdef(
            vec![leaf("#t"), leaf("1"), leaf("2"), leaf("3")],
            &mut Scope::base(),
            FUEL
        ),
        Err(LangError::ArityError)
    );
}

#[test]
fn eqhuh_bool_equality() {
    assert_eq!(
        eqhuhdef(vec![leaf("#t"), leaf("#t")], &mut Scope::base(), FUEL)
            .unwrap()
            .unwrap(),
        Result::Primitive(Primitive::B(true))
    );

    assert_eq!(
        eqhuhdef(vec![leaf("#f"), leaf("#f")], &mut Scope::base(), FUEL)
            .unwrap()
            .unwrap(),
        Result::Primitive(Primitive::B(true))
    );
}

#[test]
fn eqhuh_bool_inequality() {
    assert_eq!(
        eqhuhdef(vec![leaf("#f"), leaf("#t")], &mut Scope::base(), FUEL)
            .unwrap()
            .unwrap(),
        Result::Primitive(Primitive::B(false))
    );
}

#[test]
fn eqhuh_int_equlaity() {
    assert_eq!(
        eqhuhdef(vec![leaf("100"), leaf("100")], &mut Scope::base(), FUEL)
            .unwrap()
            .unwrap(),
        Result::Primitive(Primitive::B(true))
    );
}

#[test]
fn eqhuh_int_inequlaity() {
    assert_eq!(
        eqhuhdef(vec![leaf("100"), leaf("200")], &mut Scope::base(), FUEL)
            .unwrap()
            .unwrap(),
        Result::Primitive(Primitive::B(false))
    );
}

#[test]
fn eqhuh_float_equality() {
    assert_eq!(
        eqhuhdef(vec![leaf("100.1"), leaf("100.1")], &mut Scope::base(), FUEL)
            .unwrap()
            .unwrap(),
        Result::Primitive(Primitive::B(true))
    );
}

#[test]
fn eqhuh_float_inequality() {
    assert_eq!(
        eqhuhdef(vec![leaf("100.1"), leaf("200.2")], &mut Scope::base(), FUEL)
            .unwrap()
            .unwrap(),
        Result::Primitive(Primitive::B(false))
    );
}

#[test]
fn eqhuh_wrong_arity_fails() {
    assert_eq!(
        eqhuhdef(vec![leaf("1")], &mut Scope::base(), FUEL),
        Err(LangError::ArityError)
    );
}

#[test]
fn eqhuh_two_absent_outcomes_are_equal() {
    let s = &mut Scope::base();
    assert_eq!(
        eqhuhdef(
            vec![
                AstNode::AST(vec![leaf("define"), leaf("a"), leaf("1")]),
                AstNode::AST(vec![leaf("define"), leaf("b"), leaf("2")]),
            ],
            s,
            FUEL
        )
        .unwrap()
        .unwrap(),
        Result::Primitive(Primitive::B(true))
    );
}

#[test]
fn eqhuh_absent_never_equals_present() {
    let s = &mut Scope::base();
    assert_eq!(
        eqhuhdef(
            vec![
                AstNode::AST(vec![leaf("define"), leaf("a"), leaf("1")]),
                leaf("1"),
            ],
            s,
            FUEL
        )
        .unwrap()
        .unwrap(),
        Result::Primitive(Primitive::B(false))
    );
}

#[test]
fn notdef_true_for_false() {
    assert_eq!(
        notdef(vec![leaf("#f")], &mut Scope::base(), FUEL)
            .unwrap()
            .unwrap(),
        Result::Primitive(Primitive::B(true))
    )
}

#[test]
fn notdef_false_for_everything_but_explicit_false() {
    assert_eq!(
        notdef(vec![leaf("#t")], &mut Scope::base(), FUEL)
            .unwrap()
            .unwrap(),
        Result::Primitive(Primitive::B(false))
    );
    assert_eq!(
        notdef(vec![leaf("123")], &mut Scope::base(), FUEL)
            .unwrap()
            .unwrap(),
        Result::Primitive(Primitive::B(false))
    );
}

#[test]
fn notdef_twice_gives_the_boolean_back() {
    let twice = AstNode::AST(vec![leaf("not"), AstNode::AST(vec![leaf("not"), leaf("#t")])]);
    assert_eq!(
        Program::new(twice).exec(&mut Scope::base(), FUEL).unwrap().unwrap(),
        Result::Primitive(Primitive::B(true))
    );
}

#[test]
fn notdef_wrong_arity_fails() {
    assert_eq!(
        notdef(vec![], &mut Scope::base(), FUEL),
        Err(LangError::ArityError)
    );
    assert_eq!(
        notdef(vec![leaf("#t"), leaf("#f")], &mut Scope::base(), FUEL),
        Err(LangError::ArityError)
    );
}
