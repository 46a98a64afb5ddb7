use minilisp::ast::{find_closing_paren, new, AstNode};
use minilisp::error::LangError;
use minilisp::token::tokenize;

fn strings(v: &[&str]) -> Vec<String> {
    v.iter().map(|s| s.to_string()).collect()
}

#[test]
fn find_closing_paren_doesnt_on_mismatch_closing() {
    assert_eq!(find_closing_paren(&strings(&["(", "(", ")"])), None)
}

#[test]
fn find_closing_paren_does_on_excess_closing() {
    assert_eq!(find_closing_paren(&strings(&["(", ")", ")"])), Some(1))
}

#[test]
fn find_closing_paren_does_on_well_formed() {
    assert_eq!(
        find_closing_paren(&strings(&["(", "sym", "other", "token", ")"])),
        Some(4)
    )
}

#[test]
fn new_ast_works_on_well_formed() {
    assert_eq!(
        new(strings(&["(", "sym", ")", "(", "lambda", "(", "x", ")", "x", ")"])).unwrap(),
        vec![
            AstNode::AST(vec![AstNode::Leaf("sym".to_string())]),
            AstNode::AST(vec![
                AstNode::Leaf("lambda".to_string()),
                AstNode::AST(vec![AstNode::Leaf("x".to_string())]),
                AstNode::Leaf("x".to_string())
            ])
        ]
    )
}

#[test]
fn new_ast_works_for_single_sym() {
    assert_eq!(
        new(strings(&["sym"])).unwrap(),
        vec![AstNode::Leaf("sym".to_string())]
    )
}

#[test]
fn new_ast_fails_for_syntax_error_mismatched_parens() {
    assert_eq!(
        new(strings(&["(", "(", "(", "(", ")", ")", ")"])),
        Err(LangError::SyntaxError)
    );
}

#[test]
fn new_ast_fails_for_syntax_error_excess_closing_parens() {
    assert_eq!(
        new(strings(&["(", ")", ")", ")"])),
        Err(LangError::SyntaxError)
    );
}

#[test]
fn parse_fails_on_excess_closing_paren_line() {
    assert_eq!(new(tokenize("(1 2 3)) 1")), Err(LangError::SyntaxError));
}

#[test]
fn parse_of_empty_token_list_is_empty() {
    assert_eq!(new(Vec::new()).unwrap(), Vec::<AstNode>::new());
}
