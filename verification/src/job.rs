//! Jobs and the job store: an ordered collection keyed by target, where a
//! redeclared target replaces the earlier job and emits a warning.

use vstd::prelude::*;
use crate::error::Info;

verus! {

/// One build rule: a target, its dependencies, and the expanded recipe.
pub struct Job {
    pub target: Vec<char>,
    pub deps: Vec<Vec<char>>,
    pub recipe: Vec<Vec<char>>,
    /// A same-named file never satisfies a dependency on this job.
    pub phony: bool,
    /// Recipe lines are printed before execution.
    pub echo: bool,
    pub loc: Info,
}

/// The mathematical content of a job.
#[verifier::ext_equal]
pub ghost struct JobView {
    pub target: Seq<char>,
    pub deps: Seq<Seq<char>>,
    pub recipe: Seq<Seq<char>>,
    pub phony: bool,
    pub echo: bool,
    pub path: Seq<char>,
    pub row: int,
}

impl View for Job {
    type V = JobView;

    open spec fn view(&self) -> JobView {
        JobView {
            target: self.target@,
            deps: crate::text::views(self.deps@),
            recipe: crate::text::views(self.recipe@),
            phony: self.phony,
            echo: self.echo,
            path: self.loc.0@,
            row: self.loc.1 as int,
        }
    }
}

/// An override notice: the same target was declared twice.
pub struct Warning {
    pub target: Vec<char>,
    pub new_loc: Info,
    pub old_loc: Info,
}

/// No two jobs share a target.
pub open spec fn unique_targets(s: Seq<JobView>) -> bool {
    forall|i: int, j: int| 0 <= i < j < s.len() ==> s[i].target != s[j].target
}

/// Index of the first job with the given target, from `i` on.
pub open spec fn find_target_from(s: Seq<JobView>, t: Seq<char>, i: int) -> Option<int>
    decreases s.len() - i,
{
    if !(0 <= i < s.len()) {
        None
    } else if s[i].target == t {
        Some(i)
    } else {
        find_target_from(s, t, i + 1)
    }
}

/// Index of the job with the given target, if any.
pub open spec fn find_target(s: Seq<JobView>, t: Seq<char>) -> Option<int> {
    find_target_from(s, t, 0)
}

pub proof fn lemma_find_target(s: Seq<JobView>, t: Seq<char>, i: int)
    requires
        0 <= i <= s.len(),
    ensures
        match find_target_from(s, t, i) {
            Some(j) => i <= j < s.len() && s[j].target == t && forall|k: int|
                i <= k < j ==> s[k].target != t,
            None => forall|k: int| i <= k < s.len() ==> s[k].target != t,
        },
    decreases s.len() - i,
{
    if i < s.len() && s[i].target != t {
        lemma_find_target(s, t, i + 1);
    }
}

/// The target → index map that the ordered store denotes.
pub open spec fn index_map(s: Seq<JobView>) -> Map<Seq<char>, int> {
    Map::new(|t: Seq<char>| find_target(s, t) is Some, |t: Seq<char>| find_target(s, t)->Some_0)
}

/// With unique targets, the target → index map is consistent with the
/// ordered contents: every mapped index holds the job with that target,
/// and every job in the store is found at exactly its own index.
pub proof fn lemma_index_map_consistent(s: Seq<JobView>)
    requires
        unique_targets(s),
    ensures
        forall|t: Seq<char>| #[trigger] index_map(s).contains_key(t) ==> 0 <= index_map(s)[t]
            < s.len() && s[index_map(s)[t]].target == t,
        forall|i: int| 0 <= i < s.len() ==> index_map(s).contains_key(#[trigger] s[i].target)
            && index_map(s)[s[i].target] == i,
{
    assert forall|t: Seq<char>| #[trigger] index_map(s).contains_key(t) implies 0 <= index_map(s)[t]
        < s.len() && s[index_map(s)[t]].target == t by {
        lemma_find_target(s, t, 0);
    }
    assert forall|i: int| 0 <= i < s.len() implies index_map(s).contains_key(
        #[trigger] s[i].target,
    ) && index_map(s)[s[i].target] == i by {
        lemma_find_target(s, s[i].target, 0);
        match find_target(s, s[i].target) {
            Some(j) => {
                if j < i {
                    assert(s[j].target == s[i].target);
                } else if j > i {
                    assert(s[i].target != s[i].target);
                }
            },
            None => {
                assert(s[i].target != s[i].target);
            },
        }
    }
}

/// The ordered job store.
pub struct JobStore {
    pub jobs: Vec<Job>,
}

impl JobStore {
    pub open spec fn view(&self) -> Seq<JobView> {
        self.jobs@.map_values(|j: Job| j@)
    }

    /// Well-formed: targets are unique after override processing.
    pub open spec fn wf(&self) -> bool {
        unique_targets(self@)
    }

    pub fn new() -> (s: JobStore)
        ensures
            s@ == Seq::<JobView>::empty(),
            s.wf(),
    {
        let s = JobStore { jobs: Vec::new() };
        proof {
            assert(s@ =~= Seq::<JobView>::empty());
        }
        s
    }

    pub fn len(&self) -> (n: usize)
        ensures
            n == self@.len(),
    {
        self.jobs.len()
    }

    /// Index of the job with this target, if one is stored.
    pub fn find_job_by_target(&self, t: &Vec<char>) -> (r: Option<usize>)
        ensures
            match r {
                Some(i) => find_target(self@, t@) == Some(i as int),
                None => find_target(self@, t@) is None,
            },
    {
        let mut k: usize = 0;
        while k < self.jobs.len()
            invariant
                k <= self@.len(),
                find_target(self@, t@) == find_target_from(self@, t@, k as int),
            decreases self@.len() - k,
        {
            if crate::text::chars_eq(&self.jobs[k].target, t) {
                return Some(k);
            }
            k += 1;
        }
        None
    }

    /// Append a job. A stored job with the same target is removed first
    /// and an override warning naming both declaration sites is returned.
    pub fn append_job(&mut self, job: Job) -> (w: Option<Warning>)
        requires
            old(self).wf(),
        ensures
            final(self).wf(),
            match find_target(old(self)@, job@.target) {
                None => w is None && final(self)@ == old(self)@.push(job@),
                Some(i) => {
                    &&& w matches Some(wn) && wn.target@ == job@.target && wn.new_loc.0@
                        == job@.path && wn.new_loc.1 as int == job@.row && wn.old_loc.0@ == old(
                        self,
                    )@[i].path && wn.old_loc.1 as int == old(self)@[i].row
                    &&& final(self)@ == old(self)@.remove(i).push(job@)
                },
            },
    {
        let ghost pre = self@;
        let ghost t = job@.target;
        proof {
            lemma_find_target(pre, t, 0);
        }
        match self.find_job_by_target(&job.target) {
            Some(i) => {
                let ghost ii = i as int;
                let old_loc = self.jobs[i].loc.duplicate();
                let new_loc = job.loc.duplicate();
                let target = crate::text::dup_chars(&job.target);
                self.jobs.remove(i);
                proof {
                    assert(self@ =~= pre.remove(ii));
                }
                let ghost mid = self@;
                self.jobs.push(job);
                proof {
                    assert(self@ =~= pre.remove(ii).push(job@));
                    assert forall|a: int, b: int| 0 <= a < b < self@.len() implies self@[a].target
                        != self@[b].target by {
                        if b < self@.len() - 1 {
                            assert(self@[a] == pre.remove(ii)[a]);
                            assert(self@[b] == pre.remove(ii)[b]);
                        } else {
                            assert(self@[b] == job@);
                            let orig_a = if a < ii {
                                a
                            } else {
                                a + 1
                            };
                            assert(self@[a] == pre[orig_a]);
                            if pre[orig_a].target == t {
                                if orig_a < ii {
                                    assert(pre[orig_a].target != t);
                                } else {
                                    assert(pre[ii].target == t);
                                    assert(pre[orig_a].target != pre[ii].target);
                                }
                            }
                        }
                    }
                }
                Some(Warning { target, new_loc, old_loc })
            },
            None => {
                self.jobs.push(job);
                proof {
                    assert(self@ =~= pre.push(job@));
                    assert forall|a: int, b: int| 0 <= a < b < self@.len() implies self@[a].target
                        != self@[b].target by {
                        if b == self@.len() - 1 {
                            assert(self@[a] == pre[a]);
                            assert(pre[a].target != t);
                        }
                    }
                }
                None
            },
        }
    }
}

/// Override last-writer: after a second declaration of a target is
/// appended, lookup by that target finds the new job, whose recipe is
/// therefore the one the executor runs.
pub proof fn lemma_override_last_writer(pre: Seq<JobView>, i: int, job: JobView)
    requires
        unique_targets(pre),
        find_target(pre, job.target) == Some(i),
    ensures
        ({
            let post = pre.remove(i).push(job);
            &&& find_target(post, job.target) == Some(post.len() - 1)
            &&& post[find_target(post, job.target)->Some_0] == job
        }),
{
    lemma_find_target(pre, job.target, 0);
    let post = pre.remove(i).push(job);
    lemma_find_target(post, job.target, 0);
    match find_target(post, job.target) {
        Some(j) => {
            if j < post.len() - 1 {
                let orig = if j < i {
                    j
                } else {
                    j + 1
                };
                assert(post[j] == pre[orig]);
                if orig < i {
                    assert(pre[orig].target != job.target);
                } else {
                    assert(pre[i].target == job.target);
                    assert(pre[orig].target != pre[i].target);
                }
            }
            assert(post[post.len() - 1] == job);
        },
        None => {
            assert(post[post.len() - 1].target == job.target);
        },
    }
}

} // verus!
