//! The variable store: name → value, populated during parsing.
//! Later definitions shadow earlier ones; a value of the form `$(x)`
//! is resolved against the store at declaration time, and `expand`
//! rewrites every embedded `$(x)` reference in a line.

use vstd::prelude::*;
use crate::error::{Info, RakeError};
use crate::text::{find_char_from, lemma_find_char, split_ws, split_ws_exec};

verus! {

pub struct VarEntry {
    pub name: Vec<char>,
    pub value: Vec<char>,
}

/// Name → value mapping; the last entry for a name wins.
pub struct VarStore {
    pub entries: Vec<VarEntry>,
}

/// The mapping that a list of definitions denotes.
pub open spec fn map_of(entries: Seq<VarEntry>) -> Map<Seq<char>, Seq<char>>
    decreases entries.len(),
{
    if entries.len() == 0 {
        Map::empty()
    } else {
        map_of(entries.drop_last()).insert(entries.last().name@, entries.last().value@)
    }
}

/// The value is a whole-value variable reference `$(x)`.
pub open spec fn is_var_ref(v: Seq<char>) -> bool {
    v.len() >= 3 && v[0] == '$' && v[1] == '(' && v[v.len() - 1] == ')'
}

/// The referenced name inside `$(x)`.
pub open spec fn ref_name(v: Seq<char>) -> Seq<char> {
    v.subrange(2, v.len() - 1)
}

/// What a declared value denotes: a reference is resolved against the
/// current store, anything else stands for itself.
pub open spec fn resolve(m: Map<Seq<char>, Seq<char>>, v: Seq<char>) -> Seq<char> {
    if is_var_ref(v) && m.contains_key(ref_name(v)) {
        m[ref_name(v)]
    } else {
        v
    }
}

/// A definition is accepted: the name is exactly one word, and a
/// referenced variable exists.
pub open spec fn define_ok(m: Map<Seq<char>, Seq<char>>, name: Seq<char>, value: Seq<char>) -> bool {
    &&& split_ws(name).len() == 1
    &&& (is_var_ref(value) ==> m.contains_key(ref_name(value)))
}

/// The store after an accepted definition.
pub open spec fn define_sets(
    m: Map<Seq<char>, Seq<char>>,
    name: Seq<char>,
    value: Seq<char>,
) -> Map<Seq<char>, Seq<char>> {
    m.insert(name, resolve(m, value))
}

/// Defining the same variable with the same value twice leaves exactly
/// the store that one definition leaves.
pub proof fn lemma_define_idempotent(
    m: Map<Seq<char>, Seq<char>>,
    name: Seq<char>,
    value: Seq<char>,
)
    requires
        define_ok(m, name, value),
    ensures
        define_ok(define_sets(m, name, value), name, value),
        define_sets(define_sets(m, name, value), name, value) == define_sets(m, name, value),
{
    let m1 = define_sets(m, name, value);
    assert(define_sets(m1, name, value) =~= m1);
}

/// A variable reference opens at position `i`: `$(` with a closing
/// parenthesis somewhere after it.
pub open spec fn ref_opens_at(s: Seq<char>, i: int) -> bool {
    &&& 0 <= i && i + 1 < s.len()
    &&& s[i] == '$'
    &&& s[i + 1] == '('
    &&& find_char_from(s, ')', i + 2) is Some
}

/// Expansion of every `$(x)` reference in the suffix of `s` from `i` on.
/// The first reference to an undefined variable fails the whole
/// expansion with that name.
pub open spec fn expand_vars_from(
    s: Seq<char>,
    m: Map<Seq<char>, Seq<char>>,
    i: int,
) -> Result<Seq<char>, Seq<char>>
    decreases s.len() - i,
    via expand_vars_from_dec
{
    if !(0 <= i < s.len()) {
        Ok(Seq::empty())
    } else if ref_opens_at(s, i) {
        let j = find_char_from(s, ')', i + 2)->Some_0;
        let name = s.subrange(i + 2, j);
        if m.contains_key(name) {
            match expand_vars_from(s, m, j + 1) {
                Ok(rest) => Ok(m[name] + rest),
                Err(e) => Err(e),
            }
        } else {
            Err(name)
        }
    } else {
        match expand_vars_from(s, m, i + 1) {
            Ok(rest) => Ok(seq![s[i]] + rest),
            Err(e) => Err(e),
        }
    }
}

#[via_fn]
proof fn expand_vars_from_dec(s: Seq<char>, m: Map<Seq<char>, Seq<char>>, i: int) {
    if 0 <= i < s.len() && ref_opens_at(s, i) {
        lemma_find_char(s, ')', i + 2);
    }
}

/// Expansion of a whole line against a store.
pub open spec fn expand_vars(s: Seq<char>, m: Map<Seq<char>, Seq<char>>) -> Result<
    Seq<char>,
    Seq<char>,
> {
    expand_vars_from(s, m, 0)
}

impl VarStore {
    pub open spec fn view(&self) -> Map<Seq<char>, Seq<char>> {
        map_of(self.entries@)
    }

    pub fn new() -> (s: VarStore)
        ensures
            s@ == Map::<Seq<char>, Seq<char>>::empty(),
    {
        VarStore { entries: Vec::new() }
    }

    fn get_from(&self, name: &Vec<char>, k: usize) -> (r: Option<&Vec<char>>)
        requires
            k <= self.entries@.len(),
        ensures
            match r {
                Some(v) => map_of(self.entries@.subrange(0, k as int)).contains_key(name@)
                    && v@ == map_of(self.entries@.subrange(0, k as int))[name@],
                None => !map_of(self.entries@.subrange(0, k as int)).contains_key(name@),
            },
        decreases k,
    {
        if k == 0 {
            assert(self.entries@.subrange(0, 0).len() == 0);
            return None;
        }
        proof {
            assert(self.entries@.subrange(0, k as int).drop_last() =~= self.entries@.subrange(
                0,
                k - 1,
            ));
            assert(self.entries@.subrange(0, k as int).last() == self.entries@[k - 1]);
        }
        if crate::text::chars_eq(&self.entries[k - 1].name, name) {
            Some(&self.entries[k - 1].value)
        } else {
            self.get_from(name, k - 1)
        }
    }

    /// Look a variable up; the most recent definition wins.
    pub fn get(&self, name: &Vec<char>) -> (r: Option<&Vec<char>>)
        ensures
            match r {
                Some(v) => self@.contains_key(name@) && v@ == self@[name@],
                None => !self@.contains_key(name@),
            },
    {
        proof {
            assert(self.entries@.subrange(0, self.entries@.len() as int) =~= self.entries@);
        }
        self.get_from(name, self.entries.len())
    }

    /// Declare a variable. The name must be exactly one word, else
    /// `MultipleNames`; a whole-value reference `$(x)` is resolved now,
    /// and an undefined `x` is `InvalidValue`.
    pub fn define(&mut self, name: Vec<char>, value: Vec<char>, info: Info) -> (r: Result<
        (),
        RakeError,
    >)
        ensures
            r is Ok <==> define_ok(old(self)@, name@, value@),
            r is Ok ==> final(self)@ == define_sets(old(self)@, name@, value@),
            r is Err ==> final(self)@ == old(self)@ && final(self).entries@ == old(
                self,
            ).entries@,
            match r {
                Ok(_) => true,
                Err(e) => if split_ws(name@).len() != 1 {
                    e matches RakeError::MultipleNames(i) && i.0@ == info.0@ && i.1 == info.1
                } else {
                    e matches RakeError::InvalidValue(i, v) && i.0@ == info.0@ && i.1 == info.1
                        && v@ == value@
                },
            },
    {
        let words = split_ws_exec(&name);
        if words.len() != 1 {
            return Err(RakeError::MultipleNames(info));
        }
        let is_ref = value.len() >= 3 && value[0] == '$' && value[1] == '(' && value[value.len()
            - 1] == ')';
        let stored: Vec<char> = if is_ref {
            let rn = crate::text::copy_range(&value, 2, value.len() - 1);
            match self.get(&rn) {
                Some(v) => crate::text::dup_chars(v),
                None => {
                    return Err(RakeError::InvalidValue(info, value));
                },
            }
        } else {
            crate::text::dup_chars(&value)
        };
        let ghost old_entries = self.entries@;
        self.entries.push(VarEntry { name, value: stored });
        proof {
            assert(self.entries@.drop_last() =~= old_entries);
        }
        Ok(())
    }

    fn expand_from(&self, s: &Vec<char>, i: usize) -> (r: Result<Vec<char>, Vec<char>>)
        requires
            i <= s@.len(),
        ensures
            match r {
                Ok(v) => expand_vars_from(s@, self@, i as int) == Result::<Seq<char>, Seq<char>>::Ok(v@),
                Err(n) => expand_vars_from(s@, self@, i as int) == Result::<Seq<char>, Seq<char>>::Err(n@),
            },
        decreases s@.len() - i, 2int,
    {
        if i >= s.len() {
            let out: Vec<char> = Vec::new();
            assert(out@ =~= Seq::<char>::empty());
            return Ok(out);
        }
        if s[i] == '$' && i + 1 < s.len() && s[i + 1] == '(' {
            match crate::text::find_char_from_exec(s, ')', i + 2) {
                Some(j) => {
                    proof {
                        lemma_find_char(s@, ')', i + 2);
                    }
                    let name = crate::text::copy_range(s, i + 2, j);
                    match self.get(&name) {
                        Some(v) => {
                            let mut out = crate::text::dup_chars(v);
                            match self.expand_from(s, j + 1) {
                                Ok(mut rest) => {
                                    out.append(&mut rest);
                                    assert(out@ =~= self@[name@] + (
                                    expand_vars_from(s@, self@, j + 1)->Ok_0));
                                    Ok(out)
                                },
                                Err(e) => Err(e),
                            }
                        },
                        None => Err(name),
                    }
                },
                None => self.expand_step(s, i),
            }
        } else {
            self.expand_step(s, i)
        }
    }

    fn expand_step(&self, s: &Vec<char>, i: usize) -> (r: Result<Vec<char>, Vec<char>>)
        requires
            i < s@.len(),
            !ref_opens_at(s@, i as int),
        ensures
            match r {
                Ok(v) => expand_vars_from(s@, self@, i as int) == Result::<Seq<char>, Seq<char>>::Ok(v@),
                Err(n) => expand_vars_from(s@, self@, i as int) == Result::<Seq<char>, Seq<char>>::Err(n@),
            },
        decreases s@.len() - i, 1int,
    {
        let n = s.len();
        assert(i < n);
        let mut out: Vec<char> = Vec::new();
        out.push(s[i]);
        match self.expand_from(s, i + 1) {
            Ok(mut rest) => {
                out.append(&mut rest);
                assert(out@ =~= seq![s@[i as int]] + (expand_vars_from(s@, self@, i + 1)->Ok_0));
                Ok(out)
            },
            Err(e) => Err(e),
        }
    }

    /// Replace every `$(x)` in `s` by the value of `x`; a reference to an
    /// undefined variable fails the whole expansion with `InvalidValue`.
    pub fn expand(&self, s: &Vec<char>, info: &Info) -> (r: Result<Vec<char>, RakeError>)
        ensures
            match r {
                Ok(v) => expand_vars(s@, self@) == Result::<Seq<char>, Seq<char>>::Ok(v@),
                Err(e) => {
                    &&& e matches RakeError::InvalidValue(i, n) && i.0@ == info.0@ && i.1 == info.1
                        && expand_vars(s@, self@) == Result::<Seq<char>, Seq<char>>::Err(n@)
                },
            },
    {
        match self.expand_from(s, 0) {
            Ok(v) => Ok(v),
            Err(n) => Err(RakeError::InvalidValue(info.duplicate(), n)),
        }
    }
}

} // verus!
