use minilisp::token::tokenize;

#[test]
fn tokenize_single_token() {
    assert_eq!(tokenize("token"), ["token"]);
}

#[test]
fn tokenize_list_of_tokens() {
    assert_eq!(
        tokenize("(1 2 3)) 1 token"),
        ["(", "1", "2", "3", ")", ")", "1", "token"]
    )
}

#[test]
fn tokenize_strips_excess_whitespace() {
    assert_eq!(
        tokenize("( 1 2    3) ) () ) 1 token"),
        ["(", "1", "2", "3", ")", ")", "(", ")", ")", "1", "token"]
    )
}

#[test]
fn tokenize_handles_newline_and_tabs() {
    assert_eq!(
        tokenize(
            "( 1 2 3
                )"
        ),
        ["(", "1", "2", "3", ")"]
    );
}

#[test]
fn tokenize_handles_touching_sexps() {
    assert_eq!(
        tokenize("(1 2 3)(1)"),
        ["(", "1", "2", "3", ")", "(", "1", ")"]
    );
}

#[test]
fn tokenize_rejoined_tokens_is_idempotent() {
    let first = tokenize("(define  (add x y)\t(if (eq? x y) x y))");
    let rejoined = first.join(" ");
    assert_eq!(tokenize(&rejoined), first);
}

#[test]
fn tokenize_empty_line_has_no_tokens() {
    assert_eq!(tokenize(""), Vec::<String>::new());
}
