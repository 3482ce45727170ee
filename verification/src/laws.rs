//! Laws of substitution: on a line built from the substitution symbols,
//! expansion produces exactly the per-symbol textual substitution, the
//! result retains no symbol token, and the pass order between the
//! target symbols and the joined-dependencies symbols does not matter.

use vstd::prelude::*;
use crate::ss::SSymbol;
use crate::subst::{didx_opens_at, expand_didx_from, subst_line, SubstErr};
use crate::text::{contains_tok, join_ws, match_at, replace_all, replace_from};
use crate::vars::{expand_vars_from, ref_opens_at};

verus! {

/// The six substitution symbols (not the marker targets).
pub open spec fn is_subst(y: SSymbol) -> bool {
    match y {
        SSymbol::MakeTarget | SSymbol::RakeTarget | SSymbol::MakeDep | SSymbol::RakeDep
            | SSymbol::MakeDeps | SSymbol::RakeDeps => true,
        _ => false,
    }
}

/// One piece of a line: a literal stretch or a substitution symbol.
pub ghost enum Piece {
    Lit(Seq<char>),
    Tok(SSymbol),
}

/// No dollar sign anywhere.
pub open spec fn no_dollar(s: Seq<char>) -> bool {
    forall|k: int| 0 <= k < s.len() ==> s[k] != '$'
}

/// The text a piece stands in the line as.
pub open spec fn piece_text(p: Piece) -> Seq<char> {
    match p {
        Piece::Lit(s) => s,
        Piece::Tok(y) => y.text(),
    }
}

/// The line the pieces from `k` on spell.
pub open spec fn flatten(ps: Seq<Piece>, k: int) -> Seq<char>
    decreases ps.len() - k,
{
    if !(0 <= k < ps.len()) {
        Seq::empty()
    } else {
        piece_text(ps[k]) + flatten(ps, k + 1)
    }
}

/// A line built from the symbols: literal stretches are non-empty and
/// hold no `$`, tokens are substitution symbols, and a token is followed
/// (if by anything) by a literal that opens with a character that cannot
/// extend the token — not `s`, which would turn `$d` into `$ds`, and not
/// `[`, which would open an indexed-dependency token.
pub open spec fn wf_pieces(ps: Seq<Piece>) -> bool {
    &&& forall|i: int| 0 <= i < ps.len() ==> (#[trigger] ps[i] matches Piece::Lit(s) ==> s.len()
        > 0 && no_dollar(s))
    &&& forall|i: int| 0 <= i < ps.len() ==> (#[trigger] ps[i] matches Piece::Tok(y) ==> is_subst(
        y,
    ))
    &&& forall|i: int| 0 <= i < ps.len() - 1 && (#[trigger] ps[i]) is Tok ==> (ps[i
        + 1] matches Piece::Lit(s) && s.len() > 0 && s[0] != 's' && s[0] != '[')
}

/// What a symbol stands for, per the substitution rules.
pub open spec fn subst_text(y: SSymbol, target: Seq<char>, deps: Seq<Seq<char>>) -> Seq<char> {
    match y {
        SSymbol::MakeTarget | SSymbol::RakeTarget => target,
        SSymbol::MakeDeps | SSymbol::RakeDeps => join_ws(deps),
        _ => deps[0],
    }
}

/// The textual substitution of a whole line, symbol by symbol.
pub open spec fn expected(ps: Seq<Piece>, k: int, target: Seq<char>, deps: Seq<Seq<char>>) -> Seq<
    char,
>
    decreases ps.len() - k,
{
    if !(0 <= k < ps.len()) {
        Seq::empty()
    } else {
        (match ps[k] {
            Piece::Lit(s) => s,
            Piece::Tok(y) => subst_text(y, target, deps),
        }) + expected(ps, k + 1, target, deps)
    }
}

/// A token is among the pieces from `k` on.
pub open spec fn has_tok(ps: Seq<Piece>, k: int, y: SSymbol) -> bool {
    exists|i: int| k <= i < ps.len() && ps[i] == Piece::Tok(y)
}

/// One pass: the pieces with every occurrence of the symbol replaced by
/// a literal spelling of its substitution.
pub open spec fn pass_map(ps: Seq<Piece>, y: SSymbol, rep: Seq<char>) -> Seq<Piece> {
    ps.map_values(
        |p: Piece|
            if p == Piece::Tok(y) {
                Piece::Lit(rep)
            } else {
                p
            },
    )
}

/// After some passes: literals may be empty and hold any text free of
/// `$`; remaining tokens draw from the still-unreplaced symbols and are
/// still followed by their original guarding literals.
pub open spec fn stage_wf(ps: Seq<Piece>, allowed: Set<SSymbol>) -> bool {
    &&& forall|i: int| 0 <= i < ps.len() ==> (#[trigger] ps[i] matches Piece::Lit(s) ==> no_dollar(
        s,
    ))
    &&& forall|i: int| 0 <= i < ps.len() ==> (#[trigger] ps[i] matches Piece::Tok(y) ==> is_subst(
        y,
    ) && allowed.contains(y))
    &&& forall|i: int| 0 <= i < ps.len() - 1 && (#[trigger] ps[i]) is Tok ==> (ps[i
        + 1] matches Piece::Lit(s) && s.len() > 0 && s[0] != 's' && s[0] != '[')
}

/// Replacement walks unchanged over a stretch with no occurrence.
pub proof fn lemma_replace_steps(s: Seq<char>, p: Seq<char>, r: Seq<char>, i: int, m: int)
    requires
        0 <= i <= m <= s.len(),
        p.len() > 0,
        forall|t: int| i <= t < m ==> !match_at(s, p, t),
    ensures
        replace_from(s, p, r, i) == s.subrange(i, m) + replace_from(s, p, r, m),
    decreases m - i,
{
    if i == m {
        assert(s.subrange(i, m) + replace_from(s, p, r, m) =~= replace_from(s, p, r, m));
    } else {
        lemma_replace_steps(s, p, r, i + 1, m);
        assert(replace_from(s, p, r, i) == seq![s[i]] + replace_from(s, p, r, i + 1));
        assert(seq![s[i]] + (s.subrange(i + 1, m) + replace_from(s, p, r, m)) =~= s.subrange(i, m)
            + replace_from(s, p, r, m));
    }
}

/// Replacement over a suffix is replacement over the shifted string.
pub proof fn lemma_replace_shift(s: Seq<char>, p: Seq<char>, r: Seq<char>, j: int, i: int)
    requires
        0 <= j <= i <= s.len(),
        p.len() > 0,
    ensures
        replace_from(s, p, r, i) == replace_from(s.skip(j), p, r, i - j),
    decreases s.len() - i,
{
    let s2 = s.skip(j);
    assert(s2.len() == s.len() - j);
    if i >= s.len() {
        assert(replace_from(s, p, r, i) =~= Seq::<char>::empty());
        assert(replace_from(s2, p, r, i - j) =~= Seq::<char>::empty());
    } else {
        assert(match_at(s, p, i) == match_at(s2, p, i - j)) by {
            if 0 <= i && i + p.len() <= s.len() {
                assert(s.subrange(i, i + p.len()) =~= s2.subrange(i - j, i - j + p.len()));
            }
        }
        if match_at(s, p, i) {
            lemma_replace_shift(s, p, r, j, i + p.len());
        } else {
            lemma_replace_shift(s, p, r, j, i + 1);
            assert(s[i] == s2[i - j]);
        }
    }
}

/// A match inside the tail is a match inside the whole.
pub proof fn lemma_match_lift(t: Seq<char>, tail: Seq<char>, p: Seq<char>, i: int)
    requires
        match_at(tail, p, i),
    ensures
        match_at(t + tail, p, t.len() + i),
{
    assert((t + tail).subrange(t.len() + i, t.len() + i + p.len()) =~= tail.subrange(
        i,
        i + p.len(),
    ));
}

/// A `$`-free text contains no symbol token.
pub proof fn lemma_nodollar_no_tok(s: Seq<char>, p: Seq<char>)
    requires
        no_dollar(s),
        p.len() > 0,
        p[0] == '$',
    ensures
        !contains_tok(s, p),
{
    assert forall|i: int| !match_at(s, p, i) by {
        if 0 <= i && i + p.len() <= s.len() {
            assert(s.subrange(i, i + p.len())[0] == s[i]);
        }
    }
}

/// The texts of the substitution symbols: at least two characters, a
/// dollar sign only in front.
pub proof fn lemma_tok_text(y: SSymbol)
    requires
        is_subst(y),
    ensures
        y.text().len() >= 2,
        y.text()[0] == '$',
        forall|t: int| 1 <= t < y.text().len() ==> y.text()[t] != '$',
{
}

/// One replacement pass over a staged line substitutes exactly the
/// occurrences that stand as whole tokens. While `$ds` may still occur,
/// the `$d` pass must not yet run, since `$d` opens `$ds`.
pub proof fn lemma_pass(
    ps: Seq<Piece>,
    k: int,
    y: SSymbol,
    rep: Seq<char>,
    allowed: Set<SSymbol>,
)
    requires
        stage_wf(ps, allowed),
        is_subst(y),
        no_dollar(rep),
        0 <= k <= ps.len(),
        y == SSymbol::MakeDep ==> !allowed.contains(SSymbol::MakeDeps),
    ensures
        replace_from(flatten(ps, k), y.text(), rep, 0) == flatten(pass_map(ps, y, rep), k),
    decreases ps.len() - k,
{
    let p = y.text();
    let s = flatten(ps, k);
    let pm = pass_map(ps, y, rep);
    lemma_tok_text(y);
    if k == ps.len() {
        assert(replace_from(s, p, rep, 0) =~= Seq::<char>::empty());
        assert(flatten(pm, k) =~= Seq::<char>::empty());
    } else {
        let t = piece_text(ps[k]);
        let tail = flatten(ps, k + 1);
        assert(s == t + tail);
        lemma_pass(ps, k + 1, y, rep, allowed);
        match ps[k] {
            Piece::Lit(l) => {
                assert forall|pos: int| 0 <= pos < l.len() implies !match_at(s, p, pos) by {
                    if match_at(s, p, pos) {
                        assert(s.subrange(pos, pos + p.len())[0] == s[pos]);
                        assert(s[pos] == l[pos]);
                    }
                }
                lemma_replace_steps(s, p, rep, 0, l.len() as int);
                lemma_replace_shift(s, p, rep, l.len() as int, l.len() as int);
                assert(s.skip(l.len() as int) =~= tail);
                assert(s.subrange(0, l.len() as int) =~= l);
                assert(pm[k] == Piece::Lit(l));
                assert(replace_from(s, p, rep, 0) == l + flatten(pm, k + 1));
            },
            Piece::Tok(z) => {
                lemma_tok_text(z);
                if z == y {
                    assert(match_at(s, p, 0)) by {
                        assert(s.subrange(0, p.len() as int) =~= p);
                    }
                    lemma_replace_shift(s, p, rep, p.len() as int, p.len() as int);
                    assert(s.skip(p.len() as int) =~= tail);
                    assert(pm[k] == Piece::Lit(rep));
                    assert(replace_from(s, p, rep, 0) == rep + flatten(pm, k + 1));
                } else {
                    assert(!match_at(s, p, 0)) by {
                        if match_at(s, p, 0) {
                            assert(s.subrange(0, p.len() as int) == p);
                            assert(p[0] == s[0] && p[1] == s[1]);
                            assert(s[1] == t[1]);
                            if y == SSymbol::MakeDeps && z == SSymbol::MakeDep {
                                assert(p[2] == s[2]);
                                assert(s[2] == tail[0]);
                                assert(k + 1 < ps.len());
                                assert(ps[k + 1] matches Piece::Lit(g) && g.len() > 0 && g[0]
                                    != 's');
                                assert(tail[0] == piece_text(ps[k + 1])[0]);
                            } else {
                                assert(p[1] != t[1]);
                            }
                        }
                    }
                    assert forall|pos: int| 1 <= pos < t.len() implies !match_at(s, p, pos) by {
                        if match_at(s, p, pos) {
                            assert(s.subrange(pos, pos + p.len())[0] == s[pos]);
                            assert(s[pos] == t[pos]);
                        }
                    }
                    lemma_replace_steps(s, p, rep, 0, t.len() as int);
                    lemma_replace_shift(s, p, rep, t.len() as int, t.len() as int);
                    assert(s.skip(t.len() as int) =~= tail);
                    assert(s.subrange(0, t.len() as int) =~= t);
                    assert(pm[k] == ps[k]);
                    assert(replace_from(s, p, rep, 0) == t + flatten(pm, k + 1));
                }
            },
        }
    }
}

/// One pass keeps the stage well-formed, with the symbol retired.
pub proof fn lemma_pass_map_wf(ps: Seq<Piece>, y: SSymbol, rep: Seq<char>, allowed: Set<SSymbol>)
    requires
        stage_wf(ps, allowed),
        no_dollar(rep),
    ensures
        stage_wf(pass_map(ps, y, rep), allowed.remove(y)),
{
    let pm = pass_map(ps, y, rep);
    assert forall|i: int| 0 <= i < pm.len() implies (#[trigger] pm[i] matches Piece::Lit(s)
        ==> no_dollar(s)) by {
        assert(pm[i] == if ps[i] == Piece::Tok(y) {
            Piece::Lit(rep)
        } else {
            ps[i]
        });
    }
    assert forall|i: int| 0 <= i < pm.len() implies (#[trigger] pm[i] matches Piece::Tok(z)
        ==> is_subst(z) && allowed.remove(y).contains(z)) by {
        assert(pm[i] == if ps[i] == Piece::Tok(y) {
            Piece::Lit(rep)
        } else {
            ps[i]
        });
    }
    assert forall|i: int| 0 <= i < pm.len() - 1 && (#[trigger] pm[i]) is Tok implies (pm[i
        + 1] matches Piece::Lit(s) && s.len() > 0 && s[0] != 's' && s[0] != '[') by {
        assert(pm[i] == if ps[i] == Piece::Tok(y) {
            Piece::Lit(rep)
        } else {
            ps[i]
        });
        assert(pm[i + 1] == if ps[i + 1] == Piece::Tok(y) {
            Piece::Lit(rep)
        } else {
            ps[i + 1]
        });
    }
}

/// A well-formed line is a well-formed stage over all six symbols.
pub open spec fn all_symbols() -> Set<SSymbol> {
    Set::new(|y: SSymbol| is_subst(y))
}

pub proof fn lemma_wf_stage(ps: Seq<Piece>)
    requires
        wf_pieces(ps),
    ensures
        stage_wf(ps, all_symbols()),
{
}

/// No indexed-dependency token can open anywhere in a staged line.
pub proof fn lemma_flatten_no_didx(ps: Seq<Piece>, k: int, allowed: Set<SSymbol>)
    requires
        stage_wf(ps, allowed),
        0 <= k <= ps.len(),
    ensures
        forall|j: int|
            0 <= j && j + 2 < flatten(ps, k).len() ==> !((#[trigger] flatten(ps, k)[j]) == '$'
                && flatten(ps, k)[j + 1] == 'd' && flatten(ps, k)[j + 2] == '['),
    decreases ps.len() - k,
{
    let s = flatten(ps, k);
    if k < ps.len() {
        let t = piece_text(ps[k]);
        let tail = flatten(ps, k + 1);
        assert(s == t + tail);
        lemma_flatten_no_didx(ps, k + 1, allowed);
        assert forall|j: int|
            0 <= j && j + 2 < s.len() implies !((#[trigger] s[j]) == '$' && s[j + 1] == 'd' && s[j
            + 2] == '[') by {
            if j >= t.len() {
                assert(s[j] == tail[j - t.len()]);
                assert(s[j + 1] == tail[j + 1 - t.len()]);
                assert(s[j + 2] == tail[j + 2 - t.len()]);
            } else {
                match ps[k] {
                    Piece::Lit(l) => {
                        assert(s[j] == l[j]);
                    },
                    Piece::Tok(z) => {
                        lemma_tok_text(z);
                        if j > 0 {
                            assert(s[j] == t[j]);
                        } else {
                            if z == SSymbol::MakeDep {
                                assert(t.len() == 2);
                                assert(s[2] == tail[0]);
                                assert(k + 1 < ps.len());
                                assert(ps[k + 1] matches Piece::Lit(g) && g.len() > 0 && g[0]
                                    != '[');
                                assert(tail[0] == piece_text(ps[k + 1])[0]);
                            } else if z == SSymbol::MakeDeps {
                                assert(s[2] == t[2]);
                            } else {
                                assert(s[1] == t[1]);
                            }
                        }
                    },
                }
            }
        }
    }
}

/// With no indexed-dependency opening, that expansion is the identity.
pub proof fn lemma_didx_none(s: Seq<char>, deps: Seq<Seq<char>>, i: int)
    requires
        0 <= i <= s.len(),
        forall|j: int|
            0 <= j && j + 2 < s.len() ==> !((#[trigger] s[j]) == '$' && s[j + 1] == 'd' && s[j + 2]
                == '['),
    ensures
        expand_didx_from(s, deps, i) == Result::<Seq<char>, ()>::Ok(s.subrange(i, s.len() as int)),
    decreases s.len() - i,
{
    if i == s.len() {
        assert(s.subrange(i, s.len() as int) =~= Seq::<char>::empty());
    } else {
        assert(!didx_opens_at(s, i));
        lemma_didx_none(s, deps, i + 1);
        assert(seq![s[i]] + s.subrange(i + 1, s.len() as int) =~= s.subrange(i, s.len() as int));
    }
}

/// A `$`-free line passes through variable expansion unchanged.
pub proof fn lemma_vars_none(s: Seq<char>, m: Map<Seq<char>, Seq<char>>, i: int)
    requires
        0 <= i <= s.len(),
        no_dollar(s),
    ensures
        expand_vars_from(s, m, i) == Result::<Seq<char>, Seq<char>>::Ok(
            s.subrange(i, s.len() as int),
        ),
    decreases s.len() - i,
{
    if i == s.len() {
        assert(s.subrange(i, s.len() as int) =~= Seq::<char>::empty());
    } else {
        assert(!ref_opens_at(s, i));
        lemma_vars_none(s, m, i + 1);
        assert(seq![s[i]] + s.subrange(i + 1, s.len() as int) =~= s.subrange(i, s.len() as int));
    }
}

/// Joining `$`-free texts yields a `$`-free text.
pub proof fn lemma_join_nodollar(ds: Seq<Seq<char>>, i: int)
    requires
        forall|t: int| 0 <= t < ds.len() ==> no_dollar(#[trigger] ds[t]),
        0 <= i,
    ensures
        no_dollar(crate::text::join_from(ds, i)),
    decreases ds.len() - i,
{
    if 0 <= i < ds.len() {
        if i < ds.len() - 1 {
            lemma_join_nodollar(ds, i + 1);
            let j = crate::text::join_from(ds, i);
            assert forall|t: int| 0 <= t < j.len() implies j[t] != '$' by {
                if t < ds[i].len() {
                    assert(j[t] == ds[i][t]);
                } else if t == ds[i].len() {
                    assert(j[t] == ' ');
                } else {
                    assert(j[t] == crate::text::join_from(ds, i + 1)[t - ds[i].len() - 1]);
                }
            }
        }
    }
}

/// A token among the pieces puts its text in the line.
pub proof fn lemma_contains_flatten_tok(ps: Seq<Piece>, k: int, y: SSymbol)
    requires
        0 <= k <= ps.len(),
        has_tok(ps, k, y),
    ensures
        contains_tok(flatten(ps, k), y.text()),
    decreases ps.len() - k,
{
    let s = flatten(ps, k);
    let t = piece_text(ps[k]);
    let tail = flatten(ps, k + 1);
    if ps[k] == Piece::Tok(y) {
        assert(match_at(s, y.text(), 0)) by {
            assert(s == t + tail);
            assert(s.subrange(0, y.text().len() as int) =~= y.text());
        }
    } else {
        assert(has_tok(ps, k + 1, y)) by {
            let i = choose|i: int| k <= i < ps.len() && ps[i] == Piece::Tok(y);
            assert(k + 1 <= i < ps.len() && ps[i] == Piece::Tok(y));
        }
        lemma_contains_flatten_tok(ps, k + 1, y);
        let i = choose|i: int| match_at(tail, y.text(), i);
        lemma_match_lift(t, tail, y.text(), i);
        assert(s == t + tail);
    }
}

/// A staged line whose tokens are all replaced is `$`-free.
pub proof fn lemma_flatten_nodollar(ps: Seq<Piece>, k: int)
    requires
        0 <= k <= ps.len(),
        forall|i: int| 0 <= i < ps.len() ==> (#[trigger] ps[i] matches Piece::Lit(s) && no_dollar(
            s,
        )),
    ensures
        no_dollar(flatten(ps, k)),
    decreases ps.len() - k,
{
    if k < ps.len() {
        lemma_flatten_nodollar(ps, k + 1);
        let s = flatten(ps, k);
        let t = piece_text(ps[k]);
        let tail = flatten(ps, k + 1);
        assert(s == t + tail);
        assert forall|j: int| 0 <= j < s.len() implies s[j] != '$' by {
            if j < t.len() {
                assert(ps[k] matches Piece::Lit(l) && s[j] == l[j]);
            } else {
                assert(s[j] == tail[j - t.len()]);
            }
        }
    }
}

/// The composed effect of all six passes on the pieces.
pub open spec fn final_map(ps: Seq<Piece>, target: Seq<char>, deps: Seq<Seq<char>>) -> Seq<Piece> {
    ps.map_values(
        |p: Piece|
            match p {
                Piece::Lit(l) => Piece::Lit(l),
                Piece::Tok(y) => Piece::Lit(subst_text(y, target, deps)),
            },
    )
}

/// The fully replaced pieces spell the expected substitution.
pub proof fn lemma_final_flatten(ps: Seq<Piece>, k: int, target: Seq<char>, deps: Seq<Seq<char>>)
    requires
        0 <= k <= ps.len(),
    ensures
        flatten(final_map(ps, target, deps), k) == expected(ps, k, target, deps),
    decreases ps.len() - k,
{
    if k < ps.len() {
        lemma_final_flatten(ps, k + 1, target, deps);
        assert(final_map(ps, target, deps)[k] == match ps[k] {
            Piece::Lit(l) => Piece::Lit(l),
            Piece::Tok(y) => Piece::Lit(subst_text(y, target, deps)),
        });
    }
}

/// A pass neither adds nor removes the other symbols' tokens.
pub proof fn lemma_pass_has_tok(ps: Seq<Piece>, y: SSymbol, rep: Seq<char>, z: SSymbol)
    requires
        z != y,
    ensures
        has_tok(pass_map(ps, y, rep), 0, z) == has_tok(ps, 0, z),
{
    let pm = pass_map(ps, y, rep);
    if has_tok(pm, 0, z) {
        let i = choose|i: int| 0 <= i < pm.len() && pm[i] == Piece::Tok(z);
        assert(pm[i] == if ps[i] == Piece::Tok(y) {
            Piece::Lit(rep)
        } else {
            ps[i]
        });
        assert(ps[i] == Piece::Tok(z));
    }
    if has_tok(ps, 0, z) {
        let i = choose|i: int| 0 <= i < ps.len() && ps[i] == Piece::Tok(z);
        assert(pm[i] == if ps[i] == Piece::Tok(y) {
            Piece::Lit(rep)
        } else {
            ps[i]
        });
        assert(pm[i] == Piece::Tok(z));
    }
}

/// The expected substitution holds no dollar sign.
pub proof fn lemma_expected_nodollar(ps: Seq<Piece>, k: int, target: Seq<char>, deps: Seq<
    Seq<char>,
>)
    requires
        wf_pieces(ps),
        no_dollar(target),
        forall|t: int| 0 <= t < deps.len() ==> no_dollar(#[trigger] deps[t]),
        (has_tok(ps, 0, SSymbol::MakeDep) || has_tok(ps, 0, SSymbol::RakeDep)) ==> deps.len() > 0,
        0 <= k <= ps.len(),
    ensures
        no_dollar(expected(ps, k, target, deps)),
    decreases ps.len() - k,
{
    if k < ps.len() {
        lemma_expected_nodollar(ps, k + 1, target, deps);
        let e = expected(ps, k, target, deps);
        let h = match ps[k] {
            Piece::Lit(s) => s,
            Piece::Tok(y) => subst_text(y, target, deps),
        };
        assert(no_dollar(h)) by {
            match ps[k] {
                Piece::Lit(s) => {},
                Piece::Tok(y) => {
                    lemma_join_nodollar(deps, 0);
                    if y == SSymbol::MakeDep || y == SSymbol::RakeDep {
                        assert(has_tok(ps, 0, y));
                        assert(deps.len() > 0);
                        assert(no_dollar(deps[0]));
                    }
                },
            }
        }
        assert forall|j: int| 0 <= j < e.len() implies e[j] != '$' by {
            if j < h.len() {
                assert(e[j] == h[j]);
            } else {
                assert(e[j] == expected(ps, k + 1, target, deps)[j - h.len()]);
            }
        }
    }
}

/// On a line built from the symbols, with a target and dependencies that
/// hold no `$`, the substitution yields exactly the per-symbol textual
/// substitution — and a line that holds no `$` at all, so no symbol
/// token, no indexed-dependency token and no variable reference remains,
/// and variable expansion leaves it untouched.
pub proof fn theorem_subst_exact(ps: Seq<Piece>, target: Seq<char>, deps: Seq<Seq<char>>)
    requires
        wf_pieces(ps),
        no_dollar(target),
        forall|t: int| 0 <= t < deps.len() ==> no_dollar(#[trigger] deps[t]),
        (has_tok(ps, 0, SSymbol::MakeDep) || has_tok(ps, 0, SSymbol::RakeDep)) ==> deps.len() > 0,
    ensures
        subst_line(flatten(ps, 0), target, deps) == Result::<Seq<char>, SubstErr>::Ok(
            expected(ps, 0, target, deps),
        ),
        no_dollar(expected(ps, 0, target, deps)),
{
    let l0 = flatten(ps, 0);
    let j = join_ws(deps);
    lemma_wf_stage(ps);
    lemma_join_nodollar(deps, 0);
    lemma_expected_nodollar(ps, 0, target, deps);
    let a0 = all_symbols();
    lemma_flatten_no_didx(ps, 0, a0);
    lemma_didx_none(l0, deps, 0);
    assert(l0.subrange(0, l0.len() as int) =~= l0);

    lemma_pass(ps, 0, SSymbol::MakeTarget, target, a0);
    lemma_pass_map_wf(ps, SSymbol::MakeTarget, target, a0);
    let ps1 = pass_map(ps, SSymbol::MakeTarget, target);
    let a1 = a0.remove(SSymbol::MakeTarget);

    lemma_pass(ps1, 0, SSymbol::RakeTarget, target, a1);
    lemma_pass_map_wf(ps1, SSymbol::RakeTarget, target, a1);
    let ps2 = pass_map(ps1, SSymbol::RakeTarget, target);
    let a2 = a1.remove(SSymbol::RakeTarget);

    lemma_pass(ps2, 0, SSymbol::MakeDeps, j, a2);
    lemma_pass_map_wf(ps2, SSymbol::MakeDeps, j, a2);
    let ps3 = pass_map(ps2, SSymbol::MakeDeps, j);
    let a3 = a2.remove(SSymbol::MakeDeps);

    lemma_pass(ps3, 0, SSymbol::RakeDeps, j, a3);
    lemma_pass_map_wf(ps3, SSymbol::RakeDeps, j, a3);
    let ps4 = pass_map(ps3, SSymbol::RakeDeps, j);
    let a4 = a3.remove(SSymbol::RakeDeps);

    let l5 = flatten(ps4, 0);
    lemma_pass_has_tok(ps, SSymbol::MakeTarget, target, SSymbol::MakeDep);
    lemma_pass_has_tok(ps1, SSymbol::RakeTarget, target, SSymbol::MakeDep);
    lemma_pass_has_tok(ps2, SSymbol::MakeDeps, j, SSymbol::MakeDep);
    lemma_pass_has_tok(ps3, SSymbol::RakeDeps, j, SSymbol::MakeDep);
    lemma_pass_has_tok(ps, SSymbol::MakeTarget, target, SSymbol::RakeDep);
    lemma_pass_has_tok(ps1, SSymbol::RakeTarget, target, SSymbol::RakeDep);
    lemma_pass_has_tok(ps2, SSymbol::MakeDeps, j, SSymbol::RakeDep);
    lemma_pass_has_tok(ps3, SSymbol::RakeDeps, j, SSymbol::RakeDep);
    assert(has_tok(ps4, 0, SSymbol::MakeDep) == has_tok(ps, 0, SSymbol::MakeDep));
    assert(has_tok(ps4, 0, SSymbol::RakeDep) == has_tok(ps, 0, SSymbol::RakeDep));

    if has_tok(ps, 0, SSymbol::MakeDep) || has_tok(ps, 0, SSymbol::RakeDep) {
        if has_tok(ps4, 0, SSymbol::MakeDep) {
            lemma_contains_flatten_tok(ps4, 0, SSymbol::MakeDep);
        } else {
            lemma_contains_flatten_tok(ps4, 0, SSymbol::RakeDep);
        }
        assert(!a4.contains(SSymbol::MakeDeps));
        lemma_pass(ps4, 0, SSymbol::MakeDep, deps[0], a4);
        lemma_pass_map_wf(ps4, SSymbol::MakeDep, deps[0], a4);
        let ps5 = pass_map(ps4, SSymbol::MakeDep, deps[0]);
        let a5 = a4.remove(SSymbol::MakeDep);
        lemma_pass(ps5, 0, SSymbol::RakeDep, deps[0], a5);
        let ps6 = pass_map(ps5, SSymbol::RakeDep, deps[0]);
        assert forall|i: int| 0 <= i < ps.len() implies ps6[i] == final_map(
            ps,
            target,
            deps,
        )[i] by {
            assert(ps1[i] == if ps[i] == Piece::Tok(SSymbol::MakeTarget) {
                Piece::Lit(target)
            } else {
                ps[i]
            });
            assert(ps2[i] == if ps1[i] == Piece::Tok(SSymbol::RakeTarget) {
                Piece::Lit(target)
            } else {
                ps1[i]
            });
            assert(ps3[i] == if ps2[i] == Piece::Tok(SSymbol::MakeDeps) {
                Piece::Lit(j)
            } else {
                ps2[i]
            });
            assert(ps4[i] == if ps3[i] == Piece::Tok(SSymbol::RakeDeps) {
                Piece::Lit(j)
            } else {
                ps3[i]
            });
            assert(ps5[i] == if ps4[i] == Piece::Tok(SSymbol::MakeDep) {
                Piece::Lit(deps[0])
            } else {
                ps4[i]
            });
            assert(ps6[i] == if ps5[i] == Piece::Tok(SSymbol::RakeDep) {
                Piece::Lit(deps[0])
            } else {
                ps5[i]
            });
        }
        assert(ps6 =~= final_map(ps, target, deps));
        lemma_final_flatten(ps, 0, target, deps);
    } else {
        assert forall|i: int| 0 <= i < ps4.len() implies (#[trigger] ps4[i]) matches Piece::Lit(s)
            && no_dollar(s) by {
            match ps4[i] {
                Piece::Lit(s) => {},
                Piece::Tok(z) => {
                    assert(is_subst(z) && a4.contains(z));
                    assert(z == SSymbol::MakeDep || z == SSymbol::RakeDep);
                    assert(has_tok(ps4, 0, z));
                },
            }
        }
        lemma_flatten_nodollar(ps4, 0);
        lemma_tok_text(SSymbol::MakeDep);
        lemma_tok_text(SSymbol::RakeDep);
        lemma_nodollar_no_tok(l5, SSymbol::MakeDep.text());
        lemma_nodollar_no_tok(l5, SSymbol::RakeDep.text());
        assert forall|i: int| 0 <= i < ps.len() implies ps4[i] == final_map(
            ps,
            target,
            deps,
        )[i] by {
            assert(ps1[i] == if ps[i] == Piece::Tok(SSymbol::MakeTarget) {
                Piece::Lit(target)
            } else {
                ps[i]
            });
            assert(ps2[i] == if ps1[i] == Piece::Tok(SSymbol::RakeTarget) {
                Piece::Lit(target)
            } else {
                ps1[i]
            });
            assert(ps3[i] == if ps2[i] == Piece::Tok(SSymbol::MakeDeps) {
                Piece::Lit(j)
            } else {
                ps2[i]
            });
            assert(ps4[i] == if ps3[i] == Piece::Tok(SSymbol::RakeDeps) {
                Piece::Lit(j)
            } else {
                ps3[i]
            });
            match ps[i] {
                Piece::Lit(s) => {},
                Piece::Tok(z) => {
                    if z == SSymbol::MakeDep || z == SSymbol::RakeDep {
                        assert(has_tok(ps, 0, z));
                        assert(false);
                    }
                },
            }
        }
        assert(ps4 =~= final_map(ps, target, deps));
        lemma_final_flatten(ps, 0, target, deps);
    }
}

/// No substitution token survives parsing: on a line built from the
/// symbols, after substitution the line holds no `$` at all, so none of
/// the six symbols, no indexed-dependency token and no variable
/// reference remains literally, and variable expansion returns the line
/// unchanged. Trimming, which stores the recipe line, keeps this.
pub proof fn theorem_no_tokens_remain(
    ps: Seq<Piece>,
    target: Seq<char>,
    deps: Seq<Seq<char>>,
    m: Map<Seq<char>, Seq<char>>,
)
    requires
        wf_pieces(ps),
        no_dollar(target),
        forall|t: int| 0 <= t < deps.len() ==> no_dollar(#[trigger] deps[t]),
        (has_tok(ps, 0, SSymbol::MakeDep) || has_tok(ps, 0, SSymbol::RakeDep)) ==> deps.len() > 0,
    ensures
        ({
            let c = expected(ps, 0, target, deps);
            &&& subst_line(flatten(ps, 0), target, deps) == Result::<Seq<char>, SubstErr>::Ok(c)
            &&& crate::vars::expand_vars(c, m) == Result::<Seq<char>, Seq<char>>::Ok(c)
            &&& forall|y: SSymbol| is_subst(y) ==> !contains_tok(c, y.text())
            &&& forall|i: int| !didx_opens_at(c, i)
            &&& forall|i: int| !ref_opens_at(c, i)
            &&& no_dollar(crate::text::trim_spec(c))
        }),
{
    theorem_subst_exact(ps, target, deps);
    let c = expected(ps, 0, target, deps);
    lemma_vars_none(c, m, 0);
    assert(c.subrange(0, c.len() as int) =~= c);
    assert forall|y: SSymbol| is_subst(y) implies !contains_tok(c, y.text()) by {
        lemma_tok_text(y);
        lemma_nodollar_no_tok(c, y.text());
    }
    assert forall|i: int| !didx_opens_at(c, i) by {
        if 0 <= i < c.len() {
            assert(c[i] != '$');
        }
    }
    assert forall|i: int| !ref_opens_at(c, i) by {
        if 0 <= i < c.len() {
            assert(c[i] != '$');
        }
    }
    let tr = crate::text::trim_spec(c);
    assert forall|k: int| 0 <= k < tr.len() implies tr[k] != '$' by {
        crate::text::lemma_scan_ws(c, 0);
        crate::text::lemma_scan_ws_back(c, c.len() as int);
    }
}

/// The pass order across distinct symbol kinds does not matter: running
/// the joined-dependencies passes before the target passes produces the
/// same line as the fixed order. (The first-dependency passes cannot be
/// moved before the joined-dependencies passes: on the line `$ds` the
/// early `$d` pass would consume the first two characters.)
pub proof fn theorem_subst_order(ps: Seq<Piece>, target: Seq<char>, deps: Seq<Seq<char>>)
    requires
        wf_pieces(ps),
        no_dollar(target),
        forall|t: int| 0 <= t < deps.len() ==> no_dollar(#[trigger] deps[t]),
    ensures
        ({
            let l0 = flatten(ps, 0);
            let j = join_ws(deps);
            replace_all(
                replace_all(
                    replace_all(
                        replace_all(l0, SSymbol::MakeTarget.text(), target),
                        SSymbol::RakeTarget.text(),
                        target,
                    ),
                    SSymbol::MakeDeps.text(),
                    j,
                ),
                SSymbol::RakeDeps.text(),
                j,
            ) == replace_all(
                replace_all(
                    replace_all(
                        replace_all(l0, SSymbol::MakeDeps.text(), j),
                        SSymbol::RakeDeps.text(),
                        j,
                    ),
                    SSymbol::MakeTarget.text(),
                    target,
                ),
                SSymbol::RakeTarget.text(),
                target,
            )
        }),
{
    let l0 = flatten(ps, 0);
    let j = join_ws(deps);
    lemma_wf_stage(ps);
    lemma_join_nodollar(deps, 0);
    let a0 = all_symbols();

    lemma_pass(ps, 0, SSymbol::MakeTarget, target, a0);
    lemma_pass_map_wf(ps, SSymbol::MakeTarget, target, a0);
    let ps1 = pass_map(ps, SSymbol::MakeTarget, target);
    let a1 = a0.remove(SSymbol::MakeTarget);
    lemma_pass(ps1, 0, SSymbol::RakeTarget, target, a1);
    lemma_pass_map_wf(ps1, SSymbol::RakeTarget, target, a1);
    let ps2 = pass_map(ps1, SSymbol::RakeTarget, target);
    let a2 = a1.remove(SSymbol::RakeTarget);
    lemma_pass(ps2, 0, SSymbol::MakeDeps, j, a2);
    lemma_pass_map_wf(ps2, SSymbol::MakeDeps, j, a2);
    let ps3 = pass_map(ps2, SSymbol::MakeDeps, j);
    let a3 = a2.remove(SSymbol::MakeDeps);
    lemma_pass(ps3, 0, SSymbol::RakeDeps, j, a3);
    let ps4 = pass_map(ps3, SSymbol::RakeDeps, j);

    lemma_pass(ps, 0, SSymbol::MakeDeps, j, a0);
    lemma_pass_map_wf(ps, SSymbol::MakeDeps, j, a0);
    let qs1 = pass_map(ps, SSymbol::MakeDeps, j);
    let b1 = a0.remove(SSymbol::MakeDeps);
    lemma_pass(qs1, 0, SSymbol::RakeDeps, j, b1);
    lemma_pass_map_wf(qs1, SSymbol::RakeDeps, j, b1);
    let qs2 = pass_map(qs1, SSymbol::RakeDeps, j);
    let b2 = b1.remove(SSymbol::RakeDeps);
    lemma_pass(qs2, 0, SSymbol::MakeTarget, target, b2);
    lemma_pass_map_wf(qs2, SSymbol::MakeTarget, target, b2);
    let qs3 = pass_map(qs2, SSymbol::MakeTarget, target);
    let b3 = b2.remove(SSymbol::MakeTarget);
    lemma_pass(qs3, 0, SSymbol::RakeTarget, target, b3);
    let qs4 = pass_map(qs3, SSymbol::RakeTarget, target);

    assert forall|i: int| 0 <= i < ps.len() implies ps4[i] == qs4[i] by {
        assert(ps1[i] == if ps[i] == Piece::Tok(SSymbol::MakeTarget) {
            Piece::Lit(target)
        } else {
            ps[i]
        });
        assert(ps2[i] == if ps1[i] == Piece::Tok(SSymbol::RakeTarget) {
            Piece::Lit(target)
        } else {
            ps1[i]
        });
        assert(ps3[i] == if ps2[i] == Piece::Tok(SSymbol::MakeDeps) {
            Piece::Lit(j)
        } else {
            ps2[i]
        });
        assert(ps4[i] == if ps3[i] == Piece::Tok(SSymbol::RakeDeps) {
            Piece::Lit(j)
        } else {
            ps3[i]
        });
        assert(qs1[i] == if ps[i] == Piece::Tok(SSymbol::MakeDeps) {
            Piece::Lit(j)
        } else {
            ps[i]
        });
        assert(qs2[i] == if qs1[i] == Piece::Tok(SSymbol::RakeDeps) {
            Piece::Lit(j)
        } else {
            qs1[i]
        });
        assert(qs3[i] == if qs2[i] == Piece::Tok(SSymbol::MakeTarget) {
            Piece::Lit(target)
        } else {
            qs2[i]
        });
        assert(qs4[i] == if qs3[i] == Piece::Tok(SSymbol::RakeTarget) {
            Piece::Lit(target)
        } else {
            qs3[i]
        });
    }
    assert(ps4 =~= qs4);
}

} // verus!
