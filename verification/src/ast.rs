use vstd::prelude::*;
use crate::error::LangError;

verus! {

/// Mathematical model of a syntax tree: an atom, or the ordered sequence of
/// subtrees that stood between one `(` and its matching `)`.
#[verifier::ext_equal]
pub enum Ast {
    Leaf(Seq<char>),
    Group(Seq<Ast>),
}

/// A node of the executable syntax tree: a single atom token, or a
/// parenthesized sequence of child nodes.
#[derive(Debug, PartialEq)]
pub enum AstNode {
    Leaf(String),
    AST(Vec<AstNode>),
}

/// The abstract tree that an executable node stands for.
pub open spec fn ast_view(n: AstNode) -> Ast
    decreases n,
{
    match n {
        AstNode::Leaf(s) => Ast::Leaf(s@),
        AstNode::AST(cs) => Ast::Group(nodes_view(cs@)),
    }
}

/// The abstract trees that a sequence of executable nodes stands for.
pub open spec fn nodes_view(cs: Seq<AstNode>) -> Seq<Ast>
    decreases cs,
{
    if cs.len() == 0 {
        Seq::empty()
    } else {
        seq![ast_view(cs[0])] + nodes_view(cs.subrange(1, cs.len() as int))
    }
}

impl View for AstNode {
    type V = Ast;

    open spec fn view(&self) -> Ast {
        ast_view(*self)
    }
}

/// Height of an abstract tree: leaves have height zero, a group is one
/// taller than its tallest child.  Serves as the termination measure for
/// everything that walks a tree.
pub open spec fn ast_height(t: Ast) -> nat
    decreases t,
{
    match t {
        Ast::Leaf(_) => 0,
        Ast::Group(cs) => 1 + ast_seq_height(cs),
    }
}

/// Height of the tallest tree in a sequence.
pub open spec fn ast_seq_height(cs: Seq<Ast>) -> nat
    decreases cs,
{
    if cs.len() == 0 {
        0
    } else {
        let h0 = ast_height(cs[0]);
        let hr = ast_seq_height(cs.subrange(1, cs.len() as int));
        if h0 >= hr {
            h0
        } else {
            hr
        }
    }
}

pub broadcast proof fn lemma_ast_seq_height_index(cs: Seq<Ast>, i: int)
    requires
        0 <= i < cs.len(),
    ensures
        #[trigger] ast_height(cs[i]) <= ast_seq_height(cs),
    decreases cs.len(),
{
    if i > 0 {
        lemma_ast_seq_height_index(cs.subrange(1, cs.len() as int), i - 1);
    }
}

pub broadcast proof fn lemma_ast_seq_height_subrange(cs: Seq<Ast>, a: int, b: int)
    requires
        0 <= a <= b <= cs.len(),
    ensures
        #[trigger] ast_seq_height(cs.subrange(a, b)) <= ast_seq_height(cs),
    decreases b - a,
{
    let sub = cs.subrange(a, b);
    if sub.len() > 0 {
        lemma_ast_seq_height_index(cs, a);
        lemma_ast_seq_height_subrange(cs, a + 1, b);
        assert(sub.subrange(1, sub.len() as int) =~= cs.subrange(a + 1, b));
    }
}

pub broadcast proof fn lemma_nodes_view_len(cs: Seq<AstNode>)
    ensures
        (#[trigger] nodes_view(cs)).len() == cs.len(),
    decreases cs.len(),
{
    if cs.len() > 0 {
        lemma_nodes_view_len(cs.subrange(1, cs.len() as int));
    }
}

pub broadcast proof fn lemma_nodes_view_index(cs: Seq<AstNode>, i: int)
    requires
        0 <= i < cs.len(),
    ensures
        #[trigger] nodes_view(cs)[i] == ast_view(cs[i]),
    decreases cs.len(),
{
    lemma_nodes_view_len(cs);
    if i > 0 {
        lemma_nodes_view_index(cs.subrange(1, cs.len() as int), i - 1);
    }
}

pub proof fn lemma_nodes_view_subrange(cs: Seq<AstNode>, a: int, b: int)
    requires
        0 <= a <= b <= cs.len(),
    ensures
        nodes_view(cs.subrange(a, b)) == nodes_view(cs).subrange(a, b),
{
    broadcast use lemma_nodes_view_len, lemma_nodes_view_index;

    let sub = cs.subrange(a, b);
    assert forall|i: int| 0 <= i < sub.len() implies nodes_view(sub)[i] == nodes_view(cs).subrange(
        a,
        b,
    )[i] by {
        assert(sub[i] == cs[a + i]);
    }
    assert(nodes_view(sub) =~= nodes_view(cs).subrange(a, b));
}

/// Structural equality of two syntax trees.
pub fn ast_eq(a: &AstNode, b: &AstNode) -> (r: bool)
    ensures
        r == (a@ == b@),
    decreases ast_height(a@),
{
    match (a, b) {
        (AstNode::Leaf(x), AstNode::Leaf(y)) => *x == *y,
        (AstNode::AST(xs), AstNode::AST(ys)) => {
            proof {
                broadcast use lemma_nodes_view_len, lemma_nodes_view_index;

            }
            if xs.len() != ys.len() {
                proof {
                    assert(nodes_view(xs@).len() != nodes_view(ys@).len());
                }
                return false;
            }
            let mut i: usize = 0;
            while i < xs.len()
                invariant
                    i <= xs.len(),
                    xs@.len() == ys@.len(),
                    *a == AstNode::AST(*xs),
                    *b == AstNode::AST(*ys),
                    forall|j: int|
                        0 <= j < i ==> ast_view(#[trigger] xs@[j]) == ast_view(ys@[j]),
                decreases xs@.len() - i,
            {
                proof {
                    broadcast use lemma_nodes_view_len, lemma_nodes_view_index;

                    assert(nodes_view(xs@)[i as int] == ast_view(xs@[i as int]));
                    lemma_ast_seq_height_index(nodes_view(xs@), i as int);
                    assert(ast_height(ast_view(xs@[i as int])) < ast_height(a@));
                }
                if !ast_eq(&xs[i], &ys[i]) {
                    proof {
                        assert(nodes_view(xs@)[i as int] != nodes_view(ys@)[i as int]);
                    }
                    return false;
                }
                i += 1;
            }
            proof {
                broadcast use lemma_nodes_view_len, lemma_nodes_view_index;

                assert(nodes_view(xs@) =~= nodes_view(ys@));
            }
            true
        },
        _ => false,
    }
}

/// The token that opens a group.
pub open spec fn tok_open() -> Seq<char> {
    seq!['(']
}

/// The token that closes a group.
pub open spec fn tok_close() -> Seq<char> {
    seq![')']
}

/// How one token changes the parenthesis nesting depth.
pub open spec fn paren_delta(t: Seq<char>) -> int {
    if t == tok_open() {
        1
    } else if t == tok_close() {
        -1
    } else {
        0
    }
}

/// Starting at index `i` with the nesting depth seen so far, the first index
/// at which the running depth returns to zero, if any.
pub open spec fn find_close_from(toks: Seq<Seq<char>>, i: int, depth: int) -> Option<int>
    decreases toks.len() - i,
{
    if i < 0 || i >= toks.len() {
        None
    } else {
        let d = depth + paren_delta(toks[i]);
        if d == 0 {
            Some(i)
        } else {
            find_close_from(toks, i + 1, d)
        }
    }
}

/// The index of the token at which the running parenthesis depth of `toks`
/// first returns to zero; `None` when it never does.
pub open spec fn find_close_spec(toks: Seq<Seq<char>>) -> Option<int> {
    find_close_from(toks, 0, 0)
}

pub proof fn lemma_find_close_bounds(toks: Seq<Seq<char>>, i: int, depth: int)
    requires
        0 <= i,
    ensures
        find_close_from(toks, i, depth) matches Some(c) ==> i <= c < toks.len(),
    decreases toks.len() - i,
{
    if i < toks.len() {
        let d = depth + paren_delta(toks[i]);
        if d != 0 {
            lemma_find_close_bounds(toks, i + 1, d);
        }
    }
}

/// What parsing a token sequence must produce: the forest of sibling trees,
/// or the syntax error that the sequence deserves.
pub open spec fn parse_spec(toks: Seq<Seq<char>>) -> core::result::Result<Seq<Ast>, LangError>
    decreases toks.len(),
    via parse_spec_dec
{
    if toks.len() == 0 {
        Ok(Seq::empty())
    } else if toks[0] == tok_close() {
        Err(LangError::SyntaxError)
    } else if toks[0] == tok_open() {
        match find_close_spec(toks) {
            None => Err(LangError::SyntaxError),
            Some(c) => match parse_spec(toks.subrange(1, c)) {
                Err(e) => Err(e),
                Ok(inner) => match parse_spec(toks.subrange(c + 1, toks.len() as int)) {
                    Err(e) => Err(e),
                    Ok(rest) => Ok(seq![Ast::Group(inner)] + rest),
                },
            },
        }
    } else {
        match parse_spec(toks.subrange(1, toks.len() as int)) {
            Err(e) => Err(e),
            Ok(rest) => Ok(seq![Ast::Leaf(toks[0])] + rest),
        }
    }
}

#[via_fn]
proof fn parse_spec_dec(toks: Seq<Seq<char>>) {
    if toks.len() > 0 && toks[0] == tok_open() {
        lemma_find_close_bounds(toks, 0, 0);
        if find_close_spec(toks) matches Some(c) {
            assert(paren_delta(toks[0]) == 1);
            assert(find_close_from(toks, 0, 0) == find_close_from(toks, 1, 1));
            lemma_find_close_bounds(toks, 1, 1);
        }
    }
}

/// Copies the range `[from, to)` of a token vector.
fn sub_strings(v: &Vec<String>, from: usize, to: usize) -> (r: Vec<String>)
    requires
        from <= to <= v.len(),
    ensures
        r.deep_view() == v.deep_view().subrange(from as int, to as int),
        r@.len() == to - from,
{
    let mut r: Vec<String> = Vec::new();
    let mut i: usize = from;
    while i < to
        invariant
            from <= i <= to <= v.len(),
            r@.len() == i - from,
            forall|j: int| 0 <= j < r@.len() ==> #[trigger] r@[j]@ == v@[from + j]@,
        decreases to - i,
    {
        r.push(v[i].clone());
        i += 1;
    }
    proof {
        assert(r.deep_view() =~= v.deep_view().subrange(from as int, to as int));
    }
    r
}

impl Clone for AstNode {
    fn clone(&self) -> (res: Self)
        ensures
            res@ == self@,
        decreases ast_height(self@),
    {
        match self {
            AstNode::Leaf(s) => AstNode::Leaf(s.clone()),
            AstNode::AST(cs) => {
                let ghost model = ast_view(*self);
                let mut out: Vec<AstNode> = Vec::new();
                let mut i: usize = 0;
                while i < cs.len()
                    invariant
                        i <= cs.len(),
                        out@.len() == i as int,
                        *self == AstNode::AST(*cs),
                        model == ast_view(*self),
                        forall|j: int|
                            0 <= j < i ==> ast_view(#[trigger] out@[j]) == ast_view(cs@[j]),
                    decreases cs.len() - i,
                {
                    proof {
                        broadcast use lemma_nodes_view_index, lemma_nodes_view_len;

                        let gcs = nodes_view(cs@);
                        assert(model == Ast::Group(gcs));
                        assert(gcs[i as int] == ast_view(cs@[i as int]));
                        lemma_ast_seq_height_index(gcs, i as int);
                        assert(ast_height(ast_view(cs@[i as int])) < ast_height(model));
                    }
                    let c = cs[i].clone();
                    out.push(c);
                    i += 1;
                }
                proof {
                    broadcast use lemma_nodes_view_index, lemma_nodes_view_len;

                    assert(nodes_view(out@) =~= nodes_view(cs@));
                }
                AstNode::AST(out)
            },
        }
    }
}

/// Scans a token sequence and reports the index at which the running
/// parenthesis depth first returns to zero: for a sequence that starts with
/// `(`, the position of its matching `)`.
pub fn find_closing_paren(tokens: &Vec<String>) -> (r: Option<usize>)
    ensures
        match r {
            Some(c) => find_close_spec(tokens.deep_view()) == Some(c as int),
            None => find_close_spec(tokens.deep_view()) == None::<int>,
        },
{
    let open_s: String = "(".to_owned();
    let close_s: String = ")".to_owned();
    proof {
        reveal_strlit("(");
        reveal_strlit(")");
        assert(open_s@ =~= tok_open());
        assert(close_s@ =~= tok_close());
    }
    let ghost tv = tokens.deep_view();
    let mut i: usize = 0;
    let mut depth: i128 = 0;
    while i < tokens.len()
        invariant
            i <= tokens.len(),
            tv == tokens.deep_view(),
            open_s@ == tok_open(),
            close_s@ == tok_close(),
            -(i as int) <= depth as int <= i as int,
            find_close_from(tv, 0, 0) == find_close_from(tv, i as int, depth as int),
        decreases tokens.len() - i,
    {
        proof {
            assert(tv[i as int] == tokens@[i as int]@);
        }
        let d2: i128 = if tokens[i] == open_s {
            depth + 1
        } else if tokens[i] == close_s {
            depth - 1
        } else {
            depth
        };
        proof {
            assert(d2 as int == depth as int + paren_delta(tv[i as int]));
        }
        if d2 == 0 {
            return Some(i);
        }
        depth = d2;
        i += 1;
    }
    None
}

/// Builds the forest of syntax trees for a token sequence, matching
/// parentheses recursively; reports a syntax error for an unmatched `)` or
/// an unterminated `(`.
pub fn new(tokens: Vec<String>) -> (r: core::result::Result<Vec<AstNode>, LangError>)
    ensures
        match r {
            Ok(nodes) => parse_spec(tokens.deep_view()) == Ok::<Seq<Ast>, LangError>(
                nodes_view(nodes@),
            ),
            Err(e) => parse_spec(tokens.deep_view()) == Err::<Seq<Ast>, LangError>(e),
        },
    decreases tokens@.len(),
{
    broadcast use lemma_nodes_view_len, lemma_nodes_view_index;

    let ghost tv = tokens.deep_view();
    if tokens.len() == 0 {
        let out: Vec<AstNode> = Vec::new();
        proof {
            assert(nodes_view(out@) =~= Seq::<Ast>::empty());
        }
        return Ok(out);
    }
    let open_s: String = "(".to_owned();
    let close_s: String = ")".to_owned();
    proof {
        reveal_strlit("(");
        reveal_strlit(")");
        assert(open_s@ =~= tok_open());
        assert(close_s@ =~= tok_close());
        assert(tv[0] == tokens@[0]@);
    }
    if tokens[0] == close_s {
        return Err(LangError::SyntaxError);
    }
    if tokens[0] == open_s {
        match find_closing_paren(&tokens) {
            None => Err(LangError::SyntaxError),
            Some(c) => {
                proof {
                    assert(paren_delta(tv[0]) == 1);
                    assert(find_close_from(tv, 0, 0) == find_close_from(tv, 1, 1));
                    lemma_find_close_bounds(tv, 1, 1);
                }
                let inner_toks = sub_strings(&tokens, 1, c);
                let rest_toks = sub_strings(&tokens, c + 1, tokens.len());
                match new(inner_toks) {
                    Err(e) => Err(e),
                    Ok(inner) => match new(rest_toks) {
                        Err(e) => Err(e),
                        Ok(mut rest) => {
                            let ghost rest_v = rest@;
                            let mut out: Vec<AstNode> = Vec::new();
                            out.push(AstNode::AST(inner));
                            out.append(&mut rest);
                            proof {
                                assert(out@ =~= seq![AstNode::AST(inner)] + rest_v);
                                assert(out@.subrange(1, out@.len() as int) =~= rest_v);
                                assert(nodes_view(out@) == seq![ast_view(out@[0])] + nodes_view(
                                    rest_v,
                                ));
                            }
                            Ok(out)
                        },
                    },
                }
            },
        }
    } else {
        let head = tokens[0].clone();
        let rest_toks = sub_strings(&tokens, 1, tokens.len());
        match new(rest_toks) {
            Err(e) => Err(e),
            Ok(mut rest) => {
                let ghost rest_v = rest@;
                let mut out: Vec<AstNode> = Vec::new();
                out.push(AstNode::Leaf(head));
                out.append(&mut rest);
                proof {
                    assert(out@ =~= seq![AstNode::Leaf(head)] + rest_v);
                    assert(out@.subrange(1, out@.len() as int) =~= rest_v);
                    assert(nodes_view(out@) == seq![ast_view(out@[0])] + nodes_view(rest_v));
                }
                Ok(out)
            },
        }
    }
}

} // verus!
