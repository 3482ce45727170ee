//! Substitution symbols, in both their Make-style and alternate spellings,
//! plus the marker targets that set job flags.

use vstd::prelude::*;

verus! {

/// The closed set of substitution symbols and marker targets.
#[derive(Clone, Copy, PartialEq, Eq, Structural)]
pub enum SSymbol {
    MakeTarget,
    RakeTarget,
    MakeDep,
    RakeDep,
    MakeDeps,
    RakeDeps,
    MakePhony,
    RakePhony,
    MakeSilent,
}

impl SSymbol {
    /// The textual form of each symbol.
    pub open spec fn text(self) -> Seq<char> {
        match self {
            SSymbol::MakeTarget => seq!['$', '@'],
            SSymbol::RakeTarget => seq!['$', 't'],
            SSymbol::MakeDep => seq!['$', 'd'],
            SSymbol::RakeDep => seq!['$', '<'],
            SSymbol::MakeDeps => seq!['$', 'd', 's'],
            SSymbol::RakeDeps => seq!['$', '^'],
            SSymbol::MakePhony => seq!['.', 'P', 'H', 'O', 'N', 'Y'],
            SSymbol::RakePhony => seq!['.', 'A', 'L', 'W', 'A', 'Y', 'S'],
            SSymbol::MakeSilent => seq!['.', 'S', 'I', 'L', 'E', 'N', 'T'],
        }
    }

    /// Some text is a symbol's form.
    pub open spec fn is_symbol_text(s: Seq<char>) -> bool {
        exists|y: SSymbol| s == y.text()
    }

    /// The textual form, as characters.
    pub fn to_string(&self) -> (out: Vec<char>)
        ensures
            out@ == self.text(),
    {
        let mut out: Vec<char> = Vec::new();
        match self {
            SSymbol::MakeTarget => {
                out.push('$');
                out.push('@');
            },
            SSymbol::RakeTarget => {
                out.push('$');
                out.push('t');
            },
            SSymbol::MakeDep => {
                out.push('$');
                out.push('d');
            },
            SSymbol::RakeDep => {
                out.push('$');
                out.push('<');
            },
            SSymbol::MakeDeps => {
                out.push('$');
                out.push('d');
                out.push('s');
            },
            SSymbol::RakeDeps => {
                out.push('$');
                out.push('^');
            },
            SSymbol::MakePhony => {
                out.push('.');
                out.push('P');
                out.push('H');
                out.push('O');
                out.push('N');
                out.push('Y');
            },
            SSymbol::RakePhony => {
                out.push('.');
                out.push('A');
                out.push('L');
                out.push('W');
                out.push('A');
                out.push('Y');
                out.push('S');
            },
            SSymbol::MakeSilent => {
                out.push('.');
                out.push('S');
                out.push('I');
                out.push('L');
                out.push('E');
                out.push('N');
                out.push('T');
            },
        }
        assert(out@ =~= self.text());
        out
    }

    /// Recognize a symbol's textual form; anything else is refused.
    pub fn try_from(val: &Vec<char>) -> (r: Result<SSymbol, ()>)
        ensures
            match r {
                Ok(y) => val@ == y.text(),
                Err(_) => forall|y: SSymbol| val@ != y.text(),
            },
    {
        let all: [SSymbol; 9] = [
            SSymbol::MakeTarget,
            SSymbol::RakeTarget,
            SSymbol::MakeDep,
            SSymbol::RakeDep,
            SSymbol::MakeDeps,
            SSymbol::RakeDeps,
            SSymbol::MakePhony,
            SSymbol::RakePhony,
            SSymbol::MakeSilent,
        ];
        let mut k: usize = 0;
        while k < 9
            invariant
                k <= 9,
                all@ =~= seq![
                    SSymbol::MakeTarget,
                    SSymbol::RakeTarget,
                    SSymbol::MakeDep,
                    SSymbol::RakeDep,
                    SSymbol::MakeDeps,
                    SSymbol::RakeDeps,
                    SSymbol::MakePhony,
                    SSymbol::RakePhony,
                    SSymbol::MakeSilent,
                ],
                forall|t: int| 0 <= t < k ==> val@ != all@[t].text(),
            decreases 9 - k,
        {
            let y = all[k];
            let form = y.to_string();
            if crate::text::chars_eq(val, &form) {
                return Ok(y);
            }
            k += 1;
        }
        proof {
            assert forall|y: SSymbol| val@ != y.text() by {
                match y {
                    SSymbol::MakeTarget => assert(val@ != all@[0].text()),
                    SSymbol::RakeTarget => assert(val@ != all@[1].text()),
                    SSymbol::MakeDep => assert(val@ != all@[2].text()),
                    SSymbol::RakeDep => assert(val@ != all@[3].text()),
                    SSymbol::MakeDeps => assert(val@ != all@[4].text()),
                    SSymbol::RakeDeps => assert(val@ != all@[5].text()),
                    SSymbol::MakePhony => assert(val@ != all@[6].text()),
                    SSymbol::RakePhony => assert(val@ != all@[7].text()),
                    SSymbol::MakeSilent => assert(val@ != all@[8].text()),
                }
            }
        }
        Err(())
    }
}

} // verus!
