//! The invocation model: parsed flags and the positional potential
//! targets, pending resolution against the job store.

use vstd::prelude::*;
use crate::cfg::RConfig;
use crate::error::RakeError;
use crate::flag::{flag_c, flag_k, flag_s, Flag};
use crate::text::views;

verus! {

/// Execution switches.
pub struct Config {
    pub keepgoing: bool,
    pub echo: bool,
}

impl Config {
    pub fn new() -> (c: Config)
        ensures
            !c.keepgoing,
            c.echo,
    {
        Config { keepgoing: false, echo: true }
    }

    pub fn keepgoing(&mut self, v: bool)
        ensures
            final(self).keepgoing == v,
            final(self).echo == old(self).echo,
    {
        self.keepgoing = v;
    }

    pub fn echo(&mut self, v: bool)
        ensures
            final(self).echo == v,
            final(self).keepgoing == old(self).keepgoing,
    {
        self.echo = v;
    }
}

/// The spec-level content of a parsed invocation.
#[verifier::ext_equal]
pub ghost struct OptView {
    pub keepgoing: bool,
    pub echo: bool,
    pub cds: Seq<Seq<char>>,
    pub pots: Seq<Seq<char>>,
}

impl OptView {
    pub open spec fn init() -> OptView {
        OptView { keepgoing: false, echo: true, cds: Seq::empty(), pots: Seq::empty() }
    }
}

/// A flag misuse: the flag and the offending (possibly absent) value.
pub ghost struct OptErr {
    pub flag: Seq<char>,
    pub arg: Seq<char>,
}

/// The meaning of an argument list, from position `i` on: `-k` and `-s`
/// set their switches, `-C` consumes the next argument as a directory
/// (missing, empty or `-`-leading values are misuses), and anything else
/// is a potential target, kept in order without duplicates.
pub open spec fn args_spec(args: Seq<Seq<char>>, i: int, st: OptView) -> Result<OptView, OptErr>
    decreases args.len() - i,
{
    if !(0 <= i < args.len()) {
        Ok(st)
    } else {
        let a = args[i];
        if a == flag_k() {
            args_spec(args, i + 1, OptView { keepgoing: true, ..st })
        } else if a == flag_s() {
            args_spec(args, i + 1, OptView { echo: false, ..st })
        } else if a == flag_c() {
            if i + 1 < args.len() {
                let v = args[i + 1];
                if v.len() == 0 || v[0] == '-' {
                    Err(OptErr { flag: a, arg: v })
                } else {
                    args_spec(args, i + 2, OptView { cds: st.cds.push(v), ..st })
                }
            } else {
                Err(OptErr { flag: a, arg: Seq::empty() })
            }
        } else {
            args_spec(
                args,
                i + 1,
                OptView {
                    pots: if st.pots.contains(a) {
                        st.pots
                    } else {
                        st.pots.push(a)
                    },
                    ..st
                },
            )
        }
    }
}

/// The views of a list of strings.
pub open spec fn str_views(vs: Seq<String>) -> Seq<Seq<char>> {
    vs.map_values(|v: String| v@)
}

/// What an invocation provides: switches, recorded flags, and the
/// potential targets.
pub struct Comptime {
    pub cfg: Config,
    pub rcfg: RConfig,
    pub potential_jobs: Vec<Vec<char>>,
}

impl Comptime {
    /// The spec-level content of this invocation.
    pub open spec fn st(&self) -> OptView {
        OptView {
            keepgoing: self.cfg.keepgoing,
            echo: self.cfg.echo,
            cds: crate::cfg::cd_views(self.rcfg.flags@),
            pots: views(self.potential_jobs@),
        }
    }

    /// Parse an argument list (without the program name).
    pub fn new(args: &Vec<String>) -> (r: Result<Comptime, RakeError>)
        ensures
            match r {
                Ok(ct) => args_spec(str_views(args@), 0, OptView::init()) == Result::<
                    OptView,
                    OptErr,
                >::Ok(ct.st()),
                Err(e) => ({
                    let res = args_spec(str_views(args@), 0, OptView::init());
                    &&& res is Err
                    &&& e matches RakeError::InvalidUseOfFlag(fl, vals) && fl@ == res->Err_0.flag
                        && vals@.len() == 1 && vals@[0]@ == res->Err_0.arg
                }),
            },
    {
        let mut ct = Comptime {
            cfg: Config::new(),
            rcfg: RConfig::new(),
            potential_jobs: Vec::new(),
        };
        proof {
            assert(ct.st() =~= OptView::init());
            assert(views(ct.potential_jobs@) =~= Seq::<Seq<char>>::empty());
            assert(crate::cfg::cd_views(ct.rcfg.flags@) =~= Seq::<Seq<char>>::empty());
        }
        let mut i: usize = 0;
        let n = args.len();
        while i < n
            invariant
                i <= n,
                n == args@.len(),
                args_spec(str_views(args@), i as int, ct.st()) == args_spec(
                    str_views(args@),
                    0,
                    OptView::init(),
                ),
            decreases n - i,
        {
            let ghost pre = ct.st();
            let f = args[i].clone();
            let arg: Option<String> = if i + 1 < n {
                Some(args[i + 1].clone())
            } else {
                None
            };
            match Flag::try_from((f, arg)) {
                Ok(Flag::Keepgoing) => {
                    ct.cfg.keepgoing(true);
                    proof {
                        assert(ct.st() =~= (OptView { keepgoing: true, ..pre }));
                    }
                    i += 1;
                },
                Ok(Flag::Silent) => {
                    ct.cfg.echo(false);
                    proof {
                        assert(ct.st() =~= (OptView { echo: false, ..pre }));
                    }
                    i += 1;
                },
                Ok(Flag::Cd(a)) => {
                    let ghost av = a@;
                    let ghost pre_flags = ct.rcfg.flags@;
                    ct.rcfg.cd(a);
                    proof {
                        crate::cfg::lemma_cd_views_push_cd(pre_flags, ct.rcfg.flags@.last());
                        assert(ct.st() =~= (OptView { cds: pre.cds.push(av), ..pre }));
                    }
                    i += 2;
                },
                Err(e) => {
                    match e {
                        RakeError::InvalidUseOfFlag(fl, vals) => {
                            return Err(RakeError::InvalidUseOfFlag(fl, vals));
                        },
                        _ => {
                            let pj = crate::text::chars_of(args[i].as_str());
                            let ghost pjv = pj@;
                            let ghost pre_pots = ct.potential_jobs@;
                            if !crate::text::has_text_exec(&ct.potential_jobs, &pj) {
                                ct.potential_jobs.push(pj);
                                proof {
                                    crate::text::lemma_views_push(pre_pots, pj);
                                    assert(ct.st() =~= (OptView {
                                        pots: pre.pots.push(pjv),
                                        ..pre
                                    }));
                                }
                            } else {
                                proof {
                                    assert(ct.st() =~= pre);
                                }
                            }
                            i += 1;
                        },
                    }
                },
            }
        }
        Ok(ct)
    }
}

} // verus!
