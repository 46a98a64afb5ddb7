use minilisp::ast::new;
use minilisp::error::LangError;
use minilisp::exec::exec;
use minilisp::primitive::Primitive;
use minilisp::result::Result;
use minilisp::scope::Scope;
use minilisp::token::tokenize;

const FUEL: u64 = 64;

fn run(scope: &mut Scope, line: &str) -> core::result::Result<Option<Result>, LangError> {
    exec(&new(tokenize(line)).unwrap(), scope, FUEL)
}

#[test]
fn define_then_reference_yields_the_value() {
    let s = &mut Scope::base();
    assert_eq!(run(s, "(define x (if #t 1))").unwrap(), None);
    assert_eq!(
        run(s, "x").unwrap().unwrap(),
        Result::Primitive(Primitive::I(1))
    );
}

#[test]
fn define_function_then_call_it() {
    let s = &mut Scope::base();
    run(s, "(define (add x y) (if (eq? x y) x y))").unwrap();
    assert_eq!(
        run(s, "(add 3 3)").unwrap().unwrap(),
        Result::Primitive(Primitive::I(3))
    );
    assert_eq!(
        run(s, "(add 3 4)").unwrap().unwrap(),
        Result::Primitive(Primitive::I(4))
    );
}

#[test]
fn zero_is_truthy() {
    assert_eq!(
        run(&mut Scope::base(), "(if 0 1 2)").unwrap().unwrap(),
        Result::Primitive(Primitive::I(1))
    );
}

#[test]
fn excess_closing_paren_is_a_syntax_error() {
    assert_eq!(
        new(tokenize("(1 2 3)) 1")),
        Err(LangError::SyntaxError)
    );
}

#[test]
fn callee_bindings_do_not_leak_to_the_caller() {
    let s = &mut Scope::base();
    run(s, "(define a 1)").unwrap();
    run(s, "(define (f q) (define a 99))").unwrap();
    run(s, "(f 0)").unwrap();
    assert_eq!(
        run(s, "a").unwrap().unwrap(),
        Result::Primitive(Primitive::I(1))
    );
}

#[test]
fn parameters_shadow_only_within_their_own_call() {
    let s = &mut Scope::base();
    run(s, "(define x 7)").unwrap();
    run(s, "(define (id x) x)").unwrap();
    assert_eq!(
        run(s, "(id 1)").unwrap().unwrap(),
        Result::Primitive(Primitive::I(1))
    );
    assert_eq!(
        run(s, "(id 2)").unwrap().unwrap(),
        Result::Primitive(Primitive::I(2))
    );
    assert_eq!(
        run(s, "x").unwrap().unwrap(),
        Result::Primitive(Primitive::I(7))
    );
}

#[test]
fn rebinding_a_name_overwrites_it() {
    let s = &mut Scope::base();
    run(s, "(define x 1)").unwrap();
    run(s, "(define x 2)").unwrap();
    assert_eq!(
        run(s, "x").unwrap().unwrap(),
        Result::Primitive(Primitive::I(2))
    );
}

#[test]
fn recursion_with_a_base_case_terminates() {
    let s = &mut Scope::base();
    run(s, "(define (walk n) (if (eq? n 0) 0 (walk (sub n))))").unwrap();
    // there is no arithmetic in the language, so step down through shadowing
    run(s, "(define (sub n) (if (eq? n 3) 2 (if (eq? n 2) 1 0)))").unwrap();
    assert_eq!(
        run(s, "(walk 3)").unwrap().unwrap(),
        Result::Primitive(Primitive::I(0))
    );
}

#[test]
fn dynamic_scope_resolves_free_names_at_call_time() {
    let s = &mut Scope::base();
    run(s, "(define (get) y)").unwrap();
    assert_eq!(run(s, "(get)"), Err(LangError::UndefinedReference));
    run(s, "(define y 5)").unwrap();
    assert_eq!(
        run(s, "(get)").unwrap().unwrap(),
        Result::Primitive(Primitive::I(5))
    );
}
