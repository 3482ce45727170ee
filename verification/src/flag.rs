//! Invocation flags and their recognition.

use vstd::prelude::*;
use crate::error::RakeError;

verus! {

/// A recognized invocation flag.
pub enum Flag {
    /// `-k`: a nonzero recipe exit is logged, not fatal.
    Keepgoing,
    /// `-s`: recipe lines are not printed before execution.
    Silent,
    /// `-C <dir>`: change directory before locating the build file.
    Cd(String),
}

/// The spelling of `-k`.
pub open spec fn flag_k() -> Seq<char> {
    seq!['-', 'k']
}

/// The spelling of `-s`.
pub open spec fn flag_s() -> Seq<char> {
    seq!['-', 's']
}

/// The spelling of `-C`.
pub open spec fn flag_c() -> Seq<char> {
    seq!['-', 'C']
}

impl Flag {
    /// The flag as the tool prints it.
    pub open spec fn text(&self) -> Seq<char> {
        match self {
            Flag::Keepgoing => seq!['-', 'k'],
            Flag::Silent => seq!['-', 's'],
            Flag::Cd(arg) => seq!['-', 'C', ' '] + arg@,
        }
    }

    /// Render the flag.
    pub fn to_string(&self) -> (out: Vec<char>)
        ensures
            out@ == self.text(),
    {
        let mut out: Vec<char> = Vec::new();
        out.push('-');
        match self {
            Flag::Keepgoing => {
                out.push('k');
                assert(out@ =~= self.text());
                out
            },
            Flag::Silent => {
                out.push('s');
                assert(out@ =~= self.text());
                out
            },
            Flag::Cd(arg) => {
                out.push('C');
                out.push(' ');
                let mut a = crate::text::chars_of(arg.as_str());
                out.append(&mut a);
                assert(out@ =~= self.text());
                out
            },
        }
    }

    /// Recognize a flag word with its consumed argument. `-C` demands a
    /// non-empty value that does not begin with `-`; an unrecognized
    /// word is refused so the caller can treat it as a potential target.
    pub fn try_from(farg: (String, Option<String>)) -> (r: Result<Flag, RakeError>)
        ensures
            match r {
                Ok(fl) => match fl {
                    Flag::Keepgoing => farg.0@ == flag_k(),
                    Flag::Silent => farg.0@ == flag_s(),
                    Flag::Cd(a) => farg.0@ == flag_c() && (farg.1 matches Some(v) && v@ == a@)
                        && a@.len() > 0 && a@[0] != '-',
                },
                Err(e) => if farg.0@ == flag_c() {
                    &&& e matches RakeError::InvalidUseOfFlag(fl, args) && fl@ == flag_c()
                        && args@.len() == 1
                    &&& match farg.1 {
                        None => e matches RakeError::InvalidUseOfFlag(fl2, args2) && args2@[0]@
                            == Seq::<char>::empty(),
                        Some(v) => {
                            &&& (v@.len() == 0 || v@[0] == '-')
                            &&& e matches RakeError::InvalidUseOfFlag(fl2, args2) && args2@[0]@
                                == v@
                        },
                    }
                } else {
                    farg.0@ != flag_k() && farg.0@ != flag_s() && e is InvalidScheisse
                },
            },
    {
        let (f, arg) = farg;
        let fchars = crate::text::chars_of(f.as_str());
        let mut tk: Vec<char> = Vec::new();
        tk.push('-');
        tk.push('k');
        let mut ts: Vec<char> = Vec::new();
        ts.push('-');
        ts.push('s');
        let mut tc: Vec<char> = Vec::new();
        tc.push('-');
        tc.push('C');
        proof {
            assert(tk@ =~= flag_k());
            assert(ts@ =~= flag_s());
            assert(tc@ =~= flag_c());
        }
        if crate::text::chars_eq(&fchars, &tk) {
            Ok(Flag::Keepgoing)
        } else if crate::text::chars_eq(&fchars, &ts) {
            Ok(Flag::Silent)
        } else if crate::text::chars_eq(&fchars, &tc) {
            match arg {
                Some(a) => {
                    let achars = crate::text::chars_of(a.as_str());
                    if achars.len() == 0 || achars[0] == '-' {
                        let mut args: Vec<String> = Vec::new();
                        args.push(a);
                        Err(RakeError::InvalidUseOfFlag(f, args))
                    } else {
                        Ok(Flag::Cd(a))
                    }
                },
                None => {
                    let mut args: Vec<String> = Vec::new();
                    args.push(String::new());
                    Err(RakeError::InvalidUseOfFlag(f, args))
                },
            }
        } else {
            Err(RakeError::InvalidScheisse)
        }
    }
}

} // verus!
