//! Substitution-symbol expansion for recipe lines: indexed dependencies
//! `$d[N]` first, then the current target, the joined dependencies, and
//! the first dependency, in that order.

use vstd::prelude::*;
use crate::ss::SSymbol;
use crate::text::{
    contains_tok, contains_tok_exec, copy_range, dup_chars, find_char_from, find_char_from_exec,
    join_ws, join_ws_exec, lemma_find_char, parse_index, parse_index_exec, replace_all,
    replace_all_exec, views,
};

verus! {

/// Why a substitution failed.
pub enum SubstErr {
    /// An indexed-dependency token names an index at or past the number
    /// of dependencies.
    IndexOut,
    /// A first-dependency token in a line of a job without dependencies.
    NoDeps,
}

/// An indexed-dependency token opens at `i`: `$d[` with a closing
/// bracket somewhere after it.
pub open spec fn didx_opens_at(s: Seq<char>, i: int) -> bool {
    &&& 0 <= i && i + 2 < s.len()
    &&& s[i] == '$'
    &&& s[i + 1] == 'd'
    &&& s[i + 2] == '['
    &&& find_char_from(s, ']', i + 3) is Some
}

/// Expansion of every `$d[N]` token in the suffix of `s` from `i` on;
/// a bracket content is read as a number (zero if malformed), and any
/// index at or past `deps.len()` fails the whole line.
pub open spec fn expand_didx_from(s: Seq<char>, deps: Seq<Seq<char>>, i: int) -> Result<
    Seq<char>,
    (),
>
    decreases s.len() - i,
    via expand_didx_from_dec
{
    if !(0 <= i < s.len()) {
        Ok(Seq::empty())
    } else if didx_opens_at(s, i) {
        let j = find_char_from(s, ']', i + 3)->Some_0;
        let n = parse_index(s.subrange(i + 3, j));
        if n < deps.len() {
            match expand_didx_from(s, deps, j + 1) {
                Ok(rest) => Ok(deps[n] + rest),
                Err(e) => Err(e),
            }
        } else {
            Err(())
        }
    } else {
        match expand_didx_from(s, deps, i + 1) {
            Ok(rest) => Ok(seq![s[i]] + rest),
            Err(e) => Err(e),
        }
    }
}

#[via_fn]
proof fn expand_didx_from_dec(s: Seq<char>, deps: Seq<Seq<char>>, i: int) {
    if 0 <= i < s.len() && didx_opens_at(s, i) {
        lemma_find_char(s, ']', i + 3);
    }
}

/// Expansion of every `$d[N]` token in a line.
pub open spec fn expand_didx(s: Seq<char>, deps: Seq<Seq<char>>) -> Result<Seq<char>, ()> {
    expand_didx_from(s, deps, 0)
}

fn expand_didx_from_exec(s: &Vec<char>, deps: &Vec<Vec<char>>, i: usize) -> (r: Result<
    Vec<char>,
    (),
>)
    requires
        i <= s@.len(),
    ensures
        match r {
            Ok(v) => expand_didx_from(s@, views(deps@), i as int) == Result::<Seq<char>, ()>::Ok(
                v@,
            ),
            Err(_) => expand_didx_from(s@, views(deps@), i as int) is Err,
        },
    decreases s@.len() - i, 2int,
{
    if i >= s.len() {
        let out: Vec<char> = Vec::new();
        assert(out@ =~= Seq::<char>::empty());
        return Ok(out);
    }
    if s[i] == '$' && s.len() - i > 2 && s[i + 1] == 'd' && s[i + 2] == '[' {
        match find_char_from_exec(s, ']', i + 3) {
            Some(j) => {
                proof {
                    lemma_find_char(s@, ']', i + 3);
                }
                let content = copy_range(s, i + 3, j);
                let n = parse_index_exec(&content);
                if n < deps.len() {
                    let mut out = dup_chars(&deps[n]);
                    match expand_didx_from_exec(s, deps, j + 1) {
                        Ok(mut rest) => {
                            out.append(&mut rest);
                            assert(out@ =~= views(deps@)[n as int] + (expand_didx_from(
                                s@,
                                views(deps@),
                                j + 1,
                            )->Ok_0));
                            Ok(out)
                        },
                        Err(e) => Err(e),
                    }
                } else {
                    Err(())
                }
            },
            None => expand_didx_step(s, deps, i),
        }
    } else {
        expand_didx_step(s, deps, i)
    }
}

fn expand_didx_step(s: &Vec<char>, deps: &Vec<Vec<char>>, i: usize) -> (r: Result<Vec<char>, ()>)
    requires
        i < s@.len(),
        !didx_opens_at(s@, i as int),
    ensures
        match r {
            Ok(v) => expand_didx_from(s@, views(deps@), i as int) == Result::<Seq<char>, ()>::Ok(
                v@,
            ),
            Err(_) => expand_didx_from(s@, views(deps@), i as int) is Err,
        },
    decreases s@.len() - i, 1int,
{
    let n = s.len();
    assert(i < n);
    let mut out: Vec<char> = Vec::new();
    out.push(s[i]);
    match expand_didx_from_exec(s, deps, i + 1) {
        Ok(mut rest) => {
            out.append(&mut rest);
            assert(out@ =~= seq![s@[i as int]] + (expand_didx_from(s@, views(deps@), i + 1)->Ok_0));
            Ok(out)
        },
        Err(e) => Err(e),
    }
}

/// The full substitution of one recipe line, in the fixed pass order:
/// indexed dependencies, then `$@` and `$t` to the target, then `$ds`
/// and `$^` to the space-joined dependencies, and, when a line still
/// holds `$d` or `$<`, those to the first dependency — which a job
/// without dependencies cannot supply.
pub open spec fn subst_line(line: Seq<char>, target: Seq<char>, deps: Seq<Seq<char>>) -> Result<
    Seq<char>,
    SubstErr,
> {
    match expand_didx(line, deps) {
        Err(_) => Err(SubstErr::IndexOut),
        Ok(l1) => {
            let l2 = replace_all(l1, SSymbol::MakeTarget.text(), target);
            let l3 = replace_all(l2, SSymbol::RakeTarget.text(), target);
            let l4 = replace_all(l3, SSymbol::MakeDeps.text(), join_ws(deps));
            let l5 = replace_all(l4, SSymbol::RakeDeps.text(), join_ws(deps));
            if contains_tok(l5, SSymbol::MakeDep.text()) || contains_tok(
                l5,
                SSymbol::RakeDep.text(),
            ) {
                if deps.len() == 0 {
                    Err(SubstErr::NoDeps)
                } else {
                    Ok(
                        replace_all(
                            replace_all(l5, SSymbol::MakeDep.text(), deps[0]),
                            SSymbol::RakeDep.text(),
                            deps[0],
                        ),
                    )
                }
            } else {
                Ok(l5)
            }
        },
    }
}

/// Apply the full substitution of one recipe line.
pub fn subst_line_exec(line: &Vec<char>, target: &Vec<char>, deps: &Vec<Vec<char>>) -> (r: Result<
    Vec<char>,
    SubstErr,
>)
    ensures
        match r {
            Ok(v) => subst_line(line@, target@, views(deps@)) == Result::<Seq<char>, SubstErr>::Ok(
                v@,
            ),
            Err(SubstErr::IndexOut) => subst_line(line@, target@, views(deps@)) == Result::<
                Seq<char>,
                SubstErr,
            >::Err(SubstErr::IndexOut),
            Err(SubstErr::NoDeps) => subst_line(line@, target@, views(deps@)) == Result::<
                Seq<char>,
                SubstErr,
            >::Err(SubstErr::NoDeps),
        },
{
    let l1 = match expand_didx_from_exec(line, deps, 0) {
        Ok(v) => v,
        Err(_) => {
            return Err(SubstErr::IndexOut);
        },
    };
    let tok_at = SSymbol::MakeTarget.to_string();
    let tok_t = SSymbol::RakeTarget.to_string();
    let tok_ds = SSymbol::MakeDeps.to_string();
    let tok_hat = SSymbol::RakeDeps.to_string();
    let tok_d = SSymbol::MakeDep.to_string();
    let tok_lt = SSymbol::RakeDep.to_string();
    let joined = join_ws_exec(deps);
    let l2 = replace_all_exec(&l1, &tok_at, target);
    let l3 = replace_all_exec(&l2, &tok_t, target);
    let l4 = replace_all_exec(&l3, &tok_ds, &joined);
    let l5 = replace_all_exec(&l4, &tok_hat, &joined);
    if contains_tok_exec(&l5, &tok_d) || contains_tok_exec(&l5, &tok_lt) {
        if deps.len() == 0 {
            Err(SubstErr::NoDeps)
        } else {
            let l6 = replace_all_exec(&l5, &tok_d, &deps[0]);
            let l7 = replace_all_exec(&l6, &tok_lt, &deps[0]);
            Ok(l7)
        }
    } else {
        Ok(l5)
    }
}

} // verus!
