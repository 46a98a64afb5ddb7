use vstd::prelude::*;

verus! {

/// Characters that separate tokens and are dropped.
pub open spec fn is_sep(c: char) -> bool {
    c == ' ' || c == '\n' || c == '\t'
}

/// The two parenthesis markers, each always a token of its own.
pub open spec fn is_paren(c: char) -> bool {
    c == '(' || c == ')'
}

/// Characters that accumulate into an atom token.
pub open spec fn is_atom_char(c: char) -> bool {
    !is_sep(c) && !is_paren(c)
}

/// The pending atom as a token list: one token when it is nonempty.
pub open spec fn flush(cur: Seq<char>) -> Seq<Seq<char>> {
    if cur.len() > 0 {
        seq![cur]
    } else {
        Seq::empty()
    }
}

/// Splits `s` into tokens, with `cur` the atom accumulated so far:
/// separators end the pending atom, parentheses become tokens of their own,
/// and every other character extends the pending atom.
pub open spec fn tok_rec(s: Seq<char>, cur: Seq<char>) -> Seq<Seq<char>>
    decreases s.len(),
{
    if s.len() == 0 {
        flush(cur)
    } else if is_sep(s[0]) {
        flush(cur) + tok_rec(s.drop_first(), Seq::empty())
    } else if is_paren(s[0]) {
        flush(cur) + seq![seq![s[0]]] + tok_rec(s.drop_first(), Seq::empty())
    } else {
        tok_rec(s.drop_first(), cur.push(s[0]))
    }
}

/// The token sequence of a line of text.
pub open spec fn tokenize_spec(s: Seq<char>) -> Seq<Seq<char>> {
    tok_rec(s, Seq::empty())
}

/// Splits a line into tokens: parentheses always stand alone, whitespace
/// (spaces, newlines, tabs) separates atoms and is dropped.
pub fn tokenize(line: &str) -> (r: Vec<String>)
    ensures
        r.deep_view() == tokenize_spec(line@),
{
    let len = line.unicode_len();
    let mut toks: Vec<String> = Vec::new();
    let mut i: usize = 0;
    let mut start: usize = 0;
    proof {
        assert(line@.subrange(0, len as int) =~= line@);
        assert(line@.subrange(0, 0) =~= Seq::<char>::empty());
        assert(toks.deep_view() =~= Seq::<Seq<char>>::empty());
        assert(toks.deep_view() + tok_rec(line@, Seq::empty()) =~= tok_rec(line@, Seq::empty()));
    }
    while i < len
        invariant
            start <= i <= len,
            len == line@.len(),
            forall|j: int| start <= j < i ==> is_atom_char(#[trigger] line@[j]),
            tokenize_spec(line@) == toks.deep_view() + tok_rec(
                line@.subrange(i as int, len as int),
                line@.subrange(start as int, i as int),
            ),
        decreases len - i,
    {
        let c = line.get_char(i);
        let ghost rem = line@.subrange(i as int, len as int);
        let ghost cur = line@.subrange(start as int, i as int);
        proof {
            assert(rem[0] == line@[i as int]);
            assert(rem.drop_first() =~= line@.subrange(i + 1, len as int));
        }
        if c == ' ' || c == '\n' || c == '\t' {
            if start < i {
                let atom = line.substring_char(start, i).to_owned();
                toks.push(atom);
                proof {
                    assert(toks.deep_view() =~= toks.deep_view().subrange(
                        0,
                        toks.deep_view().len() - 1,
                    ) + flush(cur));
                }
            }
            i += 1;
            start = i;
            proof {
                assert(line@.subrange(start as int, i as int) =~= Seq::<char>::empty());
            }
        } else if c == '(' || c == ')' {
            if start < i {
                let atom = line.substring_char(start, i).to_owned();
                toks.push(atom);
                proof {
                    assert(toks.deep_view() =~= toks.deep_view().subrange(
                        0,
                        toks.deep_view().len() - 1,
                    ) + flush(cur));
                }
            }
            let p = line.substring_char(i, i + 1).to_owned();
            toks.push(p);
            proof {
                assert(p@ =~= seq![line@[i as int]]);
                assert(toks.deep_view() =~= toks.deep_view().subrange(
                    0,
                    toks.deep_view().len() - 1,
                ) + seq![seq![rem[0]]]);
            }
            i += 1;
            start = i;
            proof {
                assert(line@.subrange(start as int, i as int) =~= Seq::<char>::empty());
            }
        } else {
            i += 1;
            proof {
                assert(line@.subrange(start as int, i as int) =~= cur.push(rem[0]));
            }
        }
    }
    proof {
        assert(line@.subrange(i as int, len as int) =~= Seq::<char>::empty());
    }
    if start < i {
        let atom = line.substring_char(start, i).to_owned();
        toks.push(atom);
        proof {
            assert(toks.deep_view() =~= toks.deep_view().subrange(0, toks.deep_view().len() - 1)
                + flush(line@.subrange(start as int, i as int)));
        }
    }
    toks
}

} // verus!
