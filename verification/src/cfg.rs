//! The flag list a run was invoked with.

use vstd::prelude::*;
use crate::flag::Flag;

verus! {

/// The recorded flags, in the order they were parsed.
pub struct RConfig {
    pub flags: Vec<Flag>,
}

/// The directory of the first `-C` flag, if any.
pub open spec fn first_cd(flags: Seq<Flag>, i: int) -> Option<Seq<char>>
    decreases flags.len() - i,
{
    if !(0 <= i < flags.len()) {
        None
    } else {
        match flags[i] {
            Flag::Cd(arg) => Some(arg@),
            _ => first_cd(flags, i + 1),
        }
    }
}

/// The directories of the recorded `-C` flags, in order.
pub open spec fn cd_views(flags: Seq<Flag>) -> Seq<Seq<char>>
    decreases flags.len(),
{
    if flags.len() == 0 {
        Seq::empty()
    } else {
        match flags.last() {
            Flag::Cd(a) => cd_views(flags.drop_last()).push(a@),
            _ => cd_views(flags.drop_last()),
        }
    }
}

pub proof fn lemma_cd_views_push_cd(flags: Seq<Flag>, f: Flag)
    requires
        f is Cd,
    ensures
        cd_views(flags.push(f)) == cd_views(flags).push(f->Cd_0@),
{
    assert(flags.push(f).drop_last() =~= flags);
    assert(flags.push(f).last() == f);
}

impl RConfig {
    pub fn new() -> (c: RConfig)
        ensures
            c.flags@.len() == 0,
    {
        RConfig { flags: Vec::new() }
    }

    /// Record a `-C` directory.
    pub fn cd(&mut self, path: String)
        ensures
            final(self).flags@ == old(self).flags@.push(Flag::Cd(path)),
    {
        self.flags.push(Flag::Cd(path));
    }

    /// The directory to enter, when one was given.
    pub fn if_cd(&self) -> (r: Option<String>)
        ensures
            match r {
                Some(s) => first_cd(self.flags@, 0) == Some(s@),
                None => first_cd(self.flags@, 0) is None,
            },
    {
        let mut k: usize = 0;
        while k < self.flags.len()
            invariant
                k <= self.flags@.len(),
                first_cd(self.flags@, 0) == first_cd(self.flags@, k as int),
            decreases self.flags@.len() - k,
        {
            match &self.flags[k] {
                Flag::Cd(arg) => {
                    return Some(arg.clone());
                },
                _ => {},
            }
            k += 1;
        }
        None
    }
}

} // verus!
