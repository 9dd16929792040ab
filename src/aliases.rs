//! The table of type aliases and the resolution of a type name.
use vstd::prelude::*;
use crate::types::{AbsType, ErrorKind, abs_type_of, absolute_type, chars_of, same_chars};

verus! {

/// Bindings of alias names to type names. A later binding of a name hides the
/// earlier ones.
pub struct AliasTable {
    entries: Vec<(Vec<char>, Vec<char>)>,
}

/// The type name that an alias is bound to: its last binding.
pub open spec fn lookup(t: Seq<(Seq<char>, Seq<char>)>, k: Seq<char>) -> Option<Seq<char>>
    decreases t.len(),
{
    if t.len() == 0 {
        None
    } else if t.last().0 == k {
        Some(t.last().1)
    } else {
        lookup(t.drop_last(), k)
    }
}

/// The aliases that every unit starts with.
pub open spec fn builtin_aliases() -> Seq<(Seq<char>, Seq<char>)> {
    seq![
        ("b"@, "u8"@),
        ("s"@, "i16"@),
        ("i"@, "i32"@),
        ("l"@, "i64"@),
        ("u"@, "u32"@),
        ("f"@, "f32"@),
        ("d"@, "f64"@),
    ]
}

/// Follows aliases from `name` for at most `fuel` substitutions.
pub open spec fn resolve_walk(t: Seq<(Seq<char>, Seq<char>)>, name: Seq<char>, fuel: nat) -> Result<
    AbsType,
    ErrorKind,
>
    decreases fuel,
{
    match abs_type_of(name) {
        Some(a) => Ok(a),
        None => match lookup(t, name) {
            None => Err(ErrorKind::UnknownType),
            Some(next) => if fuel == 0 {
                Err(ErrorKind::AliasCycle)
            } else {
                resolve_walk(t, next, (fuel - 1) as nat)
            },
        },
    }
}

/// The absolute type that a name stands for. A walk longer than the table
/// has gone round a cycle.
pub open spec fn resolve(t: Seq<(Seq<char>, Seq<char>)>, name: Seq<char>) -> Result<
    AbsType,
    ErrorKind,
> {
    resolve_walk(t, name, t.len())
}

impl AliasTable {
    pub closed spec fn view(&self) -> Seq<(Seq<char>, Seq<char>)> {
        Seq::new(self.entries@.len(), |i: int| (self.entries@[i].0@, self.entries@[i].1@))
    }

    /// The table with the builtin single-letter aliases.
    pub fn new() -> (r: AliasTable)
        ensures
            r.view() == builtin_aliases(),
    {
        let mut t = AliasTable { entries: Vec::new() };
        t.define(chars_of("b"), chars_of("u8"));
        t.define(chars_of("s"), chars_of("i16"));
        t.define(chars_of("i"), chars_of("i32"));
        t.define(chars_of("l"), chars_of("i64"));
        t.define(chars_of("u"), chars_of("u32"));
        t.define(chars_of("f"), chars_of("f32"));
        t.define(chars_of("d"), chars_of("f64"));
        assert(t.view() =~= builtin_aliases());
        t
    }

    /// Binds `name` to `target`.
    pub fn define(&mut self, name: Vec<char>, target: Vec<char>)
        ensures
            final(self).view() == old(self).view().push((name@, target@)),
    {
        self.entries.push((name, target));
        assert(self.view() =~= old(self).view().push((name@, target@)));
    }

    /// The type name that `name` is bound to.
    pub fn lookup(&self, name: &Vec<char>) -> (r: Option<&Vec<char>>)
        ensures
            r matches Some(v) ==> lookup(self.view(), name@) == Some(v@),
            r is None ==> lookup(self.view(), name@) is None,
    {
        let ghost t = self.view();
        let mut j: usize = self.entries.len();
        assert(t.subrange(0, j as int) =~= t);
        while j > 0
            invariant
                j <= t.len(),
                t == self.view(),
                lookup(t, name@) == lookup(t.subrange(0, j as int), name@),
            decreases j,
        {
            let e = &self.entries[j - 1];
            assert(t.subrange(0, j as int).last() == (e.0@, e.1@));
            if same_chars(&e.0, name) {
                return Some(&e.1);
            }
            assert(t.subrange(0, j as int).drop_last() =~= t.subrange(0, j - 1));
            j = j - 1;
        }
        None
    }

    /// The absolute type that `name` stands for.
    pub fn resolve(&self, name: &Vec<char>) -> (r: Result<AbsType, ErrorKind>)
        ensures
            r == resolve(self.view(), name@),
    {
        let mut cur: &Vec<char> = name;
        let mut fuel: usize = self.entries.len();
        loop
            invariant
                fuel <= self.view().len(),
                resolve(self.view(), name@) == resolve_walk(self.view(), cur@, fuel as nat),
            decreases fuel,
        {
            match absolute_type(cur) {
                Some(a) => {
                    return Ok(a);
                },
                None => {},
            }
            match self.lookup(cur) {
                None => {
                    return Err(ErrorKind::UnknownType);
                },
                Some(next) => {
                    if fuel == 0 {
                        return Err(ErrorKind::AliasCycle);
                    }
                    cur = next;
                    fuel = fuel - 1;
                },
            }
        }
    }
}

/// A chain of aliases `c[0] -> c[1] -> ... -> c[k]` that ends at an absolute
/// type, with no more links than the table has bindings, resolves from any of
/// its names to that type.
pub proof fn lemma_chain_resolves(
    t: Seq<(Seq<char>, Seq<char>)>,
    chain: Seq<Seq<char>>,
    a: AbsType,
    k: int,
    fuel: nat,
)
    requires
        chain.len() >= 1,
        0 <= k < chain.len(),
        fuel >= chain.len() - 1 - k,
        forall|i: int|
            0 <= i < chain.len() - 1 ==> abs_type_of(#[trigger] chain[i]) is None && lookup(
                t,
                chain[i],
            ) == Some(chain[i + 1]),
        abs_type_of(chain.last()) == Some(a),
    ensures
        resolve_walk(t, chain[k], fuel) == Ok::<AbsType, ErrorKind>(a),
    decreases chain.len() - k,
{
    if k < chain.len() - 1 {
        lemma_chain_resolves(t, chain, a, k + 1, (fuel - 1) as nat);
    }
}

/// Resolution ends at the absolute type that a chain of aliases leads to,
/// whenever the chain has no more links than the table has bindings.
pub proof fn lemma_alias_chain(t: Seq<(Seq<char>, Seq<char>)>, chain: Seq<Seq<char>>, a: AbsType)
    requires
        chain.len() >= 1,
        chain.len() - 1 <= t.len(),
        forall|i: int|
            0 <= i < chain.len() - 1 ==> abs_type_of(#[trigger] chain[i]) is None && lookup(
                t,
                chain[i],
            ) == Some(chain[i + 1]),
        abs_type_of(chain.last()) == Some(a),
    ensures
        resolve(t, chain[0]) == Ok::<AbsType, ErrorKind>(a),
{
    lemma_chain_resolves(t, chain, a, 0, t.len());
}

proof fn lemma_self_walk(t: Seq<(Seq<char>, Seq<char>)>, x: Seq<char>, fuel: nat)
    requires
        abs_type_of(x) is None,
        lookup(t, x) == Some(x),
    ensures
        resolve_walk(t, x, fuel) == Err::<AbsType, ErrorKind>(ErrorKind::AliasCycle),
    decreases fuel,
{
    if fuel > 0 {
        lemma_self_walk(t, x, (fuel - 1) as nat);
    }
}

/// An alias bound to itself is rejected as a cycle.
pub proof fn lemma_self_alias_rejected(t: Seq<(Seq<char>, Seq<char>)>, x: Seq<char>)
    requires
        abs_type_of(x) is None,
        lookup(t, x) == Some(x),
    ensures
        resolve(t, x) == Err::<AbsType, ErrorKind>(ErrorKind::AliasCycle),
{
    lemma_self_walk(t, x, t.len());
}

} // verus!
