use vstd::prelude::*;
use crate::builtin::Builtin;
use crate::primitive::{PrimV, Primitive};
use crate::result::{Result, ValueV};

verus! {

/// The model of an environment: a finite map from names to values.
pub type EnvV = Map<Seq<char>, ValueV>;

/// The map that a sequence of name/value entries denotes; a later entry for
/// a name shadows every earlier one.
pub open spec fn map_of(entries: Seq<(Seq<char>, ValueV)>) -> EnvV
    decreases entries.len(),
{
    if entries.len() == 0 {
        Map::empty()
    } else {
        map_of(entries.drop_last()).insert(entries.last().0, entries.last().1)
    }
}

/// The environment that every evaluation session starts from: the two
/// boolean literals and the four builtin special forms.
pub open spec fn base_env() -> EnvV {
    Map::empty().insert(seq!['#', 't'], ValueV::Primitive(PrimV::B(true))).insert(
        seq!['#', 'f'],
        ValueV::Primitive(PrimV::B(false)),
    ).insert(
        seq!['d', 'e', 'f', 'i', 'n', 'e'],
        ValueV::Builtin(seq!['d', 'e', 'f', 'i', 'n', 'e']),
    ).insert(seq!['i', 'f'], ValueV::Builtin(seq!['i', 'f'])).insert(
        seq!['e', 'q', '?'],
        ValueV::Builtin(seq!['e', 'q', '?']),
    ).insert(seq!['n', 'o', 't'], ValueV::Builtin(seq!['n', 'o', 't']))
}

/// A flat name-to-value environment.  Binding a name shadows any earlier
/// binding of the same name in this environment instance.
#[derive(Debug)]
pub struct Scope {
    entries: Vec<(String, Result)>,
}

impl View for Scope {
    type V = EnvV;

    closed spec fn view(&self) -> EnvV {
        map_of(self.entries.deep_view())
    }
}

impl Clone for Scope {
    fn clone(&self) -> (res: Self)
        ensures
            res@ == self@,
    {
        let mut es: Vec<(String, Result)> = Vec::new();
        let mut i: usize = 0;
        while i < self.entries.len()
            invariant
                i <= self.entries.len(),
                es@.len() == i as int,
                forall|j: int|
                    0 <= j < i ==> (#[trigger] es@[j]).0@ == self.entries@[j].0@ && es@[j].1@
                        == self.entries@[j].1@,
            decreases self.entries.len() - i,
        {
            let name = self.entries[i].0.clone();
            let val = self.entries[i].1.clone();
            es.push((name, val));
            proof {
                assert(es@[i as int].0@ == self.entries@[i as int].0@);
                assert(es@[i as int].1@ == self.entries@[i as int].1@);
                assert(es.deep_view()[i as int] == (es@[i as int].0@, es@[i as int].1@));
                assert(self.entries.deep_view()[i as int] == (
                    self.entries@[i as int].0@,
                    self.entries@[i as int].1@,
                ));
            }
            i += 1;
        }
        proof {
            assert forall|j: int| 0 <= j < es@.len() implies es.deep_view()[j]
                == self.entries.deep_view()[j] by {
                assert(es.deep_view()[j] == (es@[j].0@, es@[j].1@));
                assert(self.entries.deep_view()[j] == (
                    self.entries@[j].0@,
                    self.entries@[j].1@,
                ));
            }
            assert(es.deep_view() =~= self.entries.deep_view());
        }
        Scope { entries: es }
    }
}

impl Scope {
    /// The empty environment.
    pub fn empty() -> (r: Scope)
        ensures
            r@ == Map::<Seq<char>, ValueV>::empty(),
    {
        let r = Scope { entries: Vec::new() };
        proof {
            assert(r.entries.deep_view() =~= Seq::<(Seq<char>, ValueV)>::empty());
        }
        r
    }

    /// Binds `name` to `val`, shadowing any earlier binding of that name.
    pub fn insert(&mut self, name: String, val: Result)
        ensures
            final(self)@ == old(self)@.insert(name@, val@),
    {
        self.entries.push((name, val));
        proof {
            let e2 = self.entries.deep_view();
            let e1 = old(self).entries.deep_view();
            assert(e2.drop_last() =~= e1);
        }
    }

    /// Looks a name up, yielding a copy of the value it is bound to.
    pub fn get(&self, name: &String) -> (r: Option<Result>)
        ensures
            match r {
                Some(v) => self@.dom().contains(name@) && v@ == self@[name@],
                None => !self@.dom().contains(name@),
            },
    {
        let ghost ev = self.entries.deep_view();
        let mut i: usize = self.entries.len();
        proof {
            assert(ev.subrange(0, i as int) =~= ev);
        }
        while i > 0
            invariant
                i <= self.entries.len(),
                ev == self.entries.deep_view(),
                self@ == map_of(ev),
                self@.dom().contains(name@) == map_of(ev.subrange(0, i as int)).dom().contains(
                    name@,
                ),
                self@.dom().contains(name@) ==> self@[name@] == map_of(
                    ev.subrange(0, i as int),
                )[name@],
            decreases i,
        {
            i -= 1;
            let ghost pre1 = ev.subrange(0, i + 1);
            let ghost pre = ev.subrange(0, i as int);
            proof {
                assert(pre1.drop_last() =~= pre);
                assert(pre1.last() == (self.entries@[i as int].0@, self.entries@[i as int].1@));
            }
            if self.entries[i].0 == *name {
                proof {
                    assert(map_of(pre1).dom().contains(name@));
                    assert(map_of(pre1)[name@] == self.entries@[i as int].1@);
                }
                return Some(self.entries[i].1.clone());
            }
        }
        proof {
            assert(ev.subrange(0, 0) =~= Seq::<(Seq<char>, ValueV)>::empty());
            assert(!map_of(ev.subrange(0, 0)).dom().contains(name@));
        }
        None
    }

    /// The environment that a fresh session starts from, holding `#t`, `#f`
    /// and the four builtin special forms.
    pub fn base() -> (r: Scope)
        ensures
            r@ == base_env(),
    {
        let mut r = Scope::empty();
        proof {
            reveal_strlit("#t");
            reveal_strlit("#f");
            reveal_strlit("define");
            reveal_strlit("if");
            reveal_strlit("eq?");
            reveal_strlit("not");
            assert("#t"@ =~= seq!['#', 't']);
            assert("#f"@ =~= seq!['#', 'f']);
            assert("define"@ =~= seq!['d', 'e', 'f', 'i', 'n', 'e']);
            assert("if"@ =~= seq!['i', 'f']);
            assert("eq?"@ =~= seq!['e', 'q', '?']);
            assert("not"@ =~= seq!['n', 'o', 't']);
        }
        r.insert("#t".to_owned(), Result::Primitive(Primitive::B(true)));
        r.insert("#f".to_owned(), Result::Primitive(Primitive::B(false)));
        r.insert("define".to_owned(), Result::Builtin(Builtin { id: "define".to_owned() }));
        r.insert("if".to_owned(), Result::Builtin(Builtin { id: "if".to_owned() }));
        r.insert("eq?".to_owned(), Result::Builtin(Builtin { id: "eq?".to_owned() }));
        r.insert("not".to_owned(), Result::Builtin(Builtin { id: "not".to_owned() }));
        r
    }
}

} // verus!
