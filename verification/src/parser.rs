//! The build-file parser: line classification, variable declarations,
//! job signatures with their indented bodies, and the deferred marker
//! pass that promotes `phony` and `silent` flags.
//!
//! The spec functions in this module state, line by line, what a parse
//! means; the executable parser is proved to produce exactly that.

use vstd::prelude::*;
use crate::error::{Info, RakeError};
use crate::job::{find_target, Job, JobStore, JobView, Warning};
use crate::ss::SSymbol;
use crate::subst::{subst_line, SubstErr};
use crate::text::{
    find_char_from, lemma_find_char, scan_ws, split_ws, trim_spec, views,
};
use crate::vars::{define_sets, expand_vars, is_var_ref, ref_name, VarStore};

verus! {

/// The spec-level content of an override warning.
#[verifier::ext_equal]
pub ghost struct WarnView {
    pub target: Seq<char>,
    pub new_row: int,
    pub old_row: int,
}

/// The spec-level parser state: variables, jobs, warnings, and the
/// accumulated dependencies of marker directives.
#[verifier::ext_equal]
pub ghost struct PState {
    pub vars: Map<Seq<char>, Seq<char>>,
    pub jobs: Seq<JobView>,
    pub warns: Seq<WarnView>,
    pub pmarks: Seq<Seq<char>>,
    pub smarks: Seq<Seq<char>>,
}

impl PState {
    pub open spec fn empty() -> PState {
        PState {
            vars: Map::empty(),
            jobs: Seq::empty(),
            warns: Seq::empty(),
            pmarks: Seq::empty(),
            smarks: Seq::empty(),
        }
    }
}

/// The spec-level rendering of each parse error, with its 1-based row.
pub ghost enum ParseErr {
    InvalidIndentation { row: int, width: int },
    NoTarget { row: int },
    MultipleNames { row: int },
    InvalidValue { row: int, text: Seq<char> },
    DepsIndexOutOfBounds { row: int, len: int },
    DepsSSwithoutDeps { row: int },
    Unclassified { row: int },
}

/// The executable error that a spec-level parse error denotes.
pub open spec fn err_matches(e: &RakeError, pe: ParseErr, path: Seq<char>) -> bool {
    match pe {
        ParseErr::InvalidIndentation { row, width } => e matches RakeError::InvalidIndentation(
            i,
            w,
        ) && i.0@ == path && i.1 as int == row && *w as int == width,
        ParseErr::NoTarget { row } => e matches RakeError::NoTarget(i) && i.0@ == path && i.1 as int
            == row,
        ParseErr::MultipleNames { row } => e matches RakeError::MultipleNames(i) && i.0@ == path
            && i.1 as int == row,
        ParseErr::InvalidValue { row, text } => e matches RakeError::InvalidValue(i, t) && i.0@
            == path && i.1 as int == row && t@ == text,
        ParseErr::DepsIndexOutOfBounds { row, len } => e matches RakeError::DepsIndexOutOfBounds(
            i,
            l,
        ) && i.0@ == path && i.1 as int == row && *l as int == len,
        ParseErr::DepsSSwithoutDeps { row } => e matches RakeError::DepsSSwithoutDeps(i) && i.0@
            == path && i.1 as int == row,
        ParseErr::Unclassified { row } => e is InvalidScheisse,
    }
}

/// A line with its trailing carriage return removed.
pub open spec fn strip_cr(l: Seq<char>) -> Seq<char> {
    if l.len() > 0 && l.last() == '\r' {
        l.drop_last()
    } else {
        l
    }
}

/// The lines of a text, split at line feeds, from position `i` on.
pub open spec fn split_lines_from(s: Seq<char>, i: int) -> Seq<Seq<char>>
    decreases s.len() - i,
    via split_lines_from_dec
{
    if !(0 <= i < s.len()) {
        Seq::empty()
    } else {
        match find_char_from(s, '\n', i) {
            Some(j) => seq![strip_cr(s.subrange(i, j))] + split_lines_from(s, j + 1),
            None => seq![strip_cr(s.subrange(i, s.len() as int))],
        }
    }
}

#[via_fn]
proof fn split_lines_from_dec(s: Seq<char>, i: int) {
    if 0 <= i < s.len() {
        lemma_find_char(s, '\n', i);
    }
}

/// The lines of a text.
pub open spec fn split_lines(s: Seq<char>) -> Seq<Seq<char>> {
    split_lines_from(s, 0)
}

/// Collection of a job body from line `i` on: comment lines are skipped,
/// each candidate is substituted and variable-expanded, a leading tab or
/// exactly four leading whitespace characters accept the trimmed line,
/// any other nonzero count is an indentation error, and a blank line is
/// skipped; the first other line ends the body and is not consumed.
/// Returns the recipe lines and the index of the first unconsumed line.
pub open spec fn body_from(
    lines: Seq<Seq<char>>,
    i: int,
    target: Seq<char>,
    deps: Seq<Seq<char>>,
    vars: Map<Seq<char>, Seq<char>>,
) -> Result<(Seq<Seq<char>>, int), ParseErr>
    decreases lines.len() - i,
{
    if !(0 <= i < lines.len()) {
        Ok((Seq::empty(), i))
    } else {
        let line = lines[i];
        if line.len() > 0 && line[0] == '#' {
            body_from(lines, i + 1, target, deps, vars)
        } else {
            match subst_line(line, target, deps) {
                Err(SubstErr::IndexOut) => Err(
                    ParseErr::DepsIndexOutOfBounds { row: i + 1, len: deps.len() as int },
                ),
                Err(SubstErr::NoDeps) => Err(ParseErr::DepsSSwithoutDeps { row: i + 1 }),
                Ok(cand) => match expand_vars(cand, vars) {
                    Err(name) => Err(ParseErr::InvalidValue { row: i + 1, text: name }),
                    Ok(expanded) => {
                        let trimmed = trim_spec(expanded);
                        if expanded.len() > 0 && expanded[0] == '\t' {
                            match body_from(lines, i + 1, target, deps, vars) {
                                Ok((rest, nx)) => Ok((seq![trimmed] + rest, nx)),
                                Err(e) => Err(e),
                            }
                        } else {
                            let wc = scan_ws(expanded, 0);
                            if wc == 4 {
                                match body_from(lines, i + 1, target, deps, vars) {
                                    Ok((rest, nx)) => Ok((seq![trimmed] + rest, nx)),
                                    Err(e) => Err(e),
                                }
                            } else if wc >= 1 {
                                Err(ParseErr::InvalidIndentation { row: i + 1, width: wc })
                            } else if trimmed.len() == 0 {
                                body_from(lines, i + 1, target, deps, vars)
                            } else {
                                Ok((Seq::empty(), i))
                            }
                        }
                    },
                },
            }
        }
    }
}

pub proof fn lemma_body_from_range(
    lines: Seq<Seq<char>>,
    i: int,
    target: Seq<char>,
    deps: Seq<Seq<char>>,
    vars: Map<Seq<char>, Seq<char>>,
)
    requires
        0 <= i,
    ensures
        match body_from(lines, i, target, deps, vars) {
            Ok((b, nx)) => i <= nx <= lines.len() || (i >= lines.len() && nx == i),
            Err(_) => true,
        },
    decreases lines.len() - i,
{
    if 0 <= i < lines.len() {
        lemma_body_from_range(lines, i + 1, target, deps, vars);
    }
}

/// What ends a parsed job: a marker target records its dependencies for
/// the post-parse pass, anything else becomes a job, replacing (with a
/// warning) a stored job with the same target.
pub open spec fn finish_job(
    st: PState,
    path: Seq<char>,
    sig_row: int,
    target: Seq<char>,
    deps: Seq<Seq<char>>,
    body: Seq<Seq<char>>,
) -> PState {
    if target == SSymbol::MakePhony.text() || target == SSymbol::RakePhony.text() {
        PState { pmarks: st.pmarks + deps, ..st }
    } else if target == SSymbol::MakeSilent.text() {
        PState { smarks: st.smarks + deps, ..st }
    } else {
        let job = JobView {
            target: target,
            deps: deps,
            recipe: body,
            phony: false,
            echo: true,
            path: path,
            row: sig_row,
        };
        match find_target(st.jobs, target) {
            None => PState { jobs: st.jobs.push(job), ..st },
            Some(k) => PState {
                jobs: st.jobs.remove(k).push(job),
                warns: st.warns.push(
                    WarnView { target: target, new_row: sig_row, old_row: st.jobs[k].row },
                ),
                ..st
            },
        }
    }
}

/// Parse of a job signature at line `i` and its body: the signature is
/// variable-expanded, split at the first colon into a trimmed target
/// (which must be non-empty) and whitespace-split dependencies.
pub open spec fn parse_job_spec(
    lines: Seq<Seq<char>>,
    i: int,
    st: PState,
    path: Seq<char>,
) -> Result<(PState, int), ParseErr> {
    match expand_vars(lines[i], st.vars) {
        Err(name) => Err(ParseErr::InvalidValue { row: i + 1, text: name }),
        Ok(line) => match find_char_from(line, ':', 0) {
            None => Err(ParseErr::Unclassified { row: i + 1 }),
            Some(c) => {
                let target = trim_spec(line.subrange(0, c));
                if target.len() == 0 {
                    Err(ParseErr::NoTarget { row: i + 1 })
                } else {
                    let deps = split_ws(line.subrange(c + 1, line.len() as int));
                    match body_from(lines, i + 1, target, deps, st.vars) {
                        Err(e) => Err(e),
                        Ok((body, nx)) => Ok(
                            (finish_job(st, path, i + 1, target, deps, body), nx),
                        ),
                    }
                }
            },
        },
    }
}

/// Parse of a variable declaration: split at the first `=`, the trimmed
/// left side is the name (exactly one word), the right side loses the
/// `=` and one more character and is trimmed; a whole-value reference
/// `$(x)` is resolved now.
pub open spec fn parse_var_spec(line: Seq<char>, i: int, st: PState) -> Result<PState, ParseErr> {
    let e = find_char_from(line, '=', 0)->Some_0;
    let name = trim_spec(line.subrange(0, e));
    let value_raw = if line.len() >= e + 2 {
        line.subrange(e + 2, line.len() as int)
    } else {
        Seq::empty()
    };
    let value = trim_spec(value_raw);
    if split_ws(name).len() != 1 {
        Err(ParseErr::MultipleNames { row: i + 1 })
    } else if is_var_ref(value) && !st.vars.contains_key(ref_name(value)) {
        Err(ParseErr::InvalidValue { row: i + 1, text: value })
    } else {
        Ok(PState { vars: define_sets(st.vars, name, value), ..st })
    }
}

/// Classification of line `i`, in priority order: blank or comment,
/// job signature (holds a colon), variable declaration (holds an
/// equals sign), otherwise unclassifiable.
pub open spec fn parse_line_spec(
    lines: Seq<Seq<char>>,
    i: int,
    st: PState,
    path: Seq<char>,
) -> Result<(PState, int), ParseErr> {
    let line = lines[i];
    if trim_spec(line).len() == 0 || (line.len() > 0 && line[0] == '#') {
        Ok((st, i + 1))
    } else if find_char_from(line, ':', 0) is Some {
        parse_job_spec(lines, i, st, path)
    } else if find_char_from(line, '=', 0) is Some {
        match parse_var_spec(line, i, st) {
            Ok(st2) => Ok((st2, i + 1)),
            Err(e) => Err(e),
        }
    } else {
        Err(ParseErr::Unclassified { row: i + 1 })
    }
}

pub proof fn lemma_parse_line_advances(lines: Seq<Seq<char>>, i: int, st: PState, path: Seq<char>)
    requires
        0 <= i < lines.len(),
    ensures
        match parse_line_spec(lines, i, st, path) {
            Ok((st2, nx)) => i < nx <= lines.len(),
            Err(_) => true,
        },
{
    match parse_line_spec(lines, i, st, path) {
        Ok((st2, nx)) => {
            let line = lines[i];
            if trim_spec(line).len() == 0 || (line.len() > 0 && line[0] == '#') {
            } else if find_char_from(line, ':', 0) is Some {
                match expand_vars(line, st.vars) {
                    Ok(sig) => {
                        match find_char_from(sig, ':', 0) {
                            Some(c) => {
                                let target = trim_spec(sig.subrange(0, c));
                                let deps = split_ws(sig.subrange(c + 1, sig.len() as int));
                                lemma_body_from_range(lines, i + 1, target, deps, st.vars);
                            },
                            None => {},
                        }
                    },
                    Err(_) => {},
                }
            }
        },
        Err(_) => {},
    }
}

/// Parse of all lines from `i` on, threading the state.
pub open spec fn parse_from(
    lines: Seq<Seq<char>>,
    i: int,
    st: PState,
    path: Seq<char>,
) -> Result<PState, ParseErr>
    decreases lines.len() - i,
    via parse_from_dec
{
    if !(0 <= i < lines.len()) {
        Ok(st)
    } else {
        match parse_line_spec(lines, i, st, path) {
            Err(e) => Err(e),
            Ok((st2, nx)) => parse_from(lines, nx, st2, path),
        }
    }
}

#[via_fn]
proof fn parse_from_dec(lines: Seq<Seq<char>>, i: int, st: PState, path: Seq<char>) {
    if 0 <= i < lines.len() {
        lemma_parse_line_advances(lines, i, st, path);
    }
}

/// A target is listed by some marker directive.
pub open spec fn in_marks(marks: Seq<Seq<char>>, t: Seq<char>) -> bool {
    exists|k: int| 0 <= k < marks.len() && marks[k] == t
}

/// The post-parse marker pass: a job is phony exactly when some
/// `.PHONY`/`.ALWAYS` directive anywhere in the file listed its target,
/// and echoes exactly when no `.SILENT` directive did.
pub open spec fn apply_marks(
    jobs: Seq<JobView>,
    pmarks: Seq<Seq<char>>,
    smarks: Seq<Seq<char>>,
) -> Seq<JobView> {
    jobs.map_values(
        |j: JobView|
            JobView { phony: in_marks(pmarks, j.target), echo: !in_marks(smarks, j.target), ..j },
    )
}

/// Phony promotion: after the marker pass, a job is phony exactly when
/// some `.PHONY`/`.ALWAYS` directive anywhere in the file listed its
/// target, and echoes exactly when no `.SILENT` directive did; nothing
/// else about the job changes.
pub proof fn lemma_marks_set_flags(
    jobs: Seq<JobView>,
    pmarks: Seq<Seq<char>>,
    smarks: Seq<Seq<char>>,
)
    ensures
        apply_marks(jobs, pmarks, smarks).len() == jobs.len(),
        forall|i: int|
            0 <= i < jobs.len() ==> {
                let m = #[trigger] apply_marks(jobs, pmarks, smarks)[i];
                m.phony == in_marks(pmarks, jobs[i].target) && m.echo == !in_marks(
                    smarks,
                    jobs[i].target,
                ) && m.target == jobs[i].target && m.deps == jobs[i].deps && m.recipe
                    == jobs[i].recipe && m.path == jobs[i].path && m.row == jobs[i].row
            },
{
}

/// The meaning of parsing a whole text: split into lines, run the
/// line parser over all of them, then apply the marker pass.
pub open spec fn parse_spec(path: Seq<char>, text: Seq<char>) -> Result<PState, ParseErr> {
    match parse_from(split_lines(text), 0, PState::empty(), path) {
        Err(e) => Err(e),
        Ok(st) => Ok(PState { jobs: apply_marks(st.jobs, st.pmarks, st.smarks), ..st }),
    }
}

/// The spec-level content of a list of warnings.
pub open spec fn warn_views(ws: Seq<Warning>) -> Seq<WarnView> {
    ws.map_values(
        |w: Warning|
            WarnView { target: w.target@, new_row: w.new_loc.1 as int, old_row: w.old_loc.1 as int },
    )
}

fn split_lines_exec(s: &Vec<char>, i: usize) -> (out: Vec<Vec<char>>)
    requires
        i <= s@.len(),
    ensures
        views(out@) == split_lines_from(s@, i as int),
    decreases s@.len() - i,
{
    if i >= s.len() {
        let out: Vec<Vec<char>> = Vec::new();
        assert(views(out@) =~= split_lines_from(s@, i as int));
        return out;
    }
    match crate::text::find_char_from_exec(s, '\n', i) {
        Some(j) => {
            proof {
                lemma_find_char(s@, '\n', i as int);
            }
            let mut line = crate::text::copy_range(s, i, j);
            if line.len() > 0 && line[line.len() - 1] == '\r' {
                line.pop();
                proof {
                    assert(line@ =~= strip_cr(s@.subrange(i as int, j as int)));
                }
            }
            let mut out: Vec<Vec<char>> = Vec::new();
            out.push(line);
            let mut rest = split_lines_exec(s, j + 1);
            out.append(&mut rest);
            assert(views(out@) =~= split_lines_from(s@, i as int));
            out
        },
        None => {
            let mut line = crate::text::copy_range(s, i, s.len());
            if line.len() > 0 && line[line.len() - 1] == '\r' {
                line.pop();
                proof {
                    assert(line@ =~= strip_cr(s@.subrange(i as int, s@.len() as int)));
                }
            }
            let mut out: Vec<Vec<char>> = Vec::new();
            out.push(line);
            assert(views(out@) =~= split_lines_from(s@, i as int));
            out
        },
    }
}

/// The number of leading whitespace characters.
fn leading_ws(s: &Vec<char>) -> (w: usize)
    ensures
        w as int == scan_ws(s@, 0),
{
    let mut a: usize = 0;
    while a < s.len() && crate::text::is_space_exec(s[a])
        invariant
            a <= s@.len(),
            scan_ws(s@, 0) == scan_ws(s@, a as int),
        decreases s@.len() - a,
    {
        a += 1;
    }
    assert(scan_ws(s@, a as int) == a as int);
    a
}

/// Some marker directive listed this target.
fn contains_mark(marks: &Vec<Vec<char>>, t: &Vec<char>) -> (r: bool)
    ensures
        r == in_marks(views(marks@), t@),
{
    let mut k: usize = 0;
    while k < marks.len()
        invariant
            k <= marks@.len(),
            forall|j: int| 0 <= j < k ==> views(marks@)[j] != t@,
        decreases marks@.len() - k,
    {
        if crate::text::chars_eq(&marks[k], t) {
            assert(views(marks@)[k as int] == t@);
            return true;
        }
        k += 1;
    }
    false
}

/// Copy of a list of character vectors.
fn dup_chars_vec(v: &Vec<Vec<char>>) -> (out: Vec<Vec<char>>)
    ensures
        views(out@) == views(v@),
{
    let mut out: Vec<Vec<char>> = Vec::new();
    let mut k: usize = 0;
    while k < v.len()
        invariant
            k <= v@.len(),
            out@.len() == k,
            forall|j: int| 0 <= j < k ==> out@[j]@ == v@[j]@,
        decreases v@.len() - k,
    {
        out.push(crate::text::dup_chars(&v[k]));
        k += 1;
    }
    proof {
        assert forall|j: int| 0 <= j < v@.len() implies views(out@)[j] == views(v@)[j] by {
            assert(views(out@)[j] == out@[j]@);
            assert(views(v@)[j] == v@[j]@);
        }
        assert(views(out@) =~= views(v@));
    }
    out
}

/// Collect a job body, mirroring `body_from`.
fn collect_body(
    lines: &Vec<Vec<char>>,
    i: usize,
    target: &Vec<char>,
    deps: &Vec<Vec<char>>,
    vars: &VarStore,
    path: &String,
) -> (r: Result<(Vec<Vec<char>>, usize), RakeError>)
    requires
        i <= lines@.len(),
    ensures
        match r {
            Ok(p) => body_from(views(lines@), i as int, target@, views(deps@), vars@)
                == Result::<(Seq<Seq<char>>, int), ParseErr>::Ok((views(p.0@), p.1 as int)) && i
                <= p.1 <= lines@.len(),
            Err(e) => ({
                let res = body_from(views(lines@), i as int, target@, views(deps@), vars@);
                res is Err && err_matches(&e, res->Err_0, path@)
            }),
        },
    decreases lines@.len() - i,
{
    if i >= lines.len() {
        let body: Vec<Vec<char>> = Vec::new();
        assert(views(body@) =~= Seq::<Seq<char>>::empty());
        return Ok((body, i));
    }
    // The length call puts the vector's length bound in scope.
    let n = lines.len();
    if lines[i].len() > 0 && lines[i][0] == '#' {
        return collect_body(lines, i + 1, target, deps, vars, path);
    }
    match crate::subst::subst_line_exec(&lines[i], target, deps) {
        Err(SubstErr::IndexOut) => Err(
            RakeError::DepsIndexOutOfBounds(Info(path.clone(), i + 1), deps.len()),
        ),
        Err(SubstErr::NoDeps) => Err(RakeError::DepsSSwithoutDeps(Info(path.clone(), i + 1))),
        Ok(cand) => {
            let info = Info(path.clone(), i + 1);
            match vars.expand(&cand, &info) {
                Err(e) => Err(e),
                Ok(expanded) => {
                    let trimmed = crate::text::trim(&expanded);
                    let is_tab = expanded.len() > 0 && expanded[0] == '\t';
                    let wc = leading_ws(&expanded);
                    if is_tab || wc == 4 {
                        match collect_body(lines, i + 1, target, deps, vars, path) {
                            Ok((mut rest, nx)) => {
                                let mut body: Vec<Vec<char>> = Vec::new();
                                body.push(trimmed);
                                body.append(&mut rest);
                                proof {
                                    let spec_rest = body_from(
                                        views(lines@),
                                        i + 1,
                                        target@,
                                        views(deps@),
                                        vars@,
                                    )->Ok_0;
                                    assert(views(body@) =~= seq![trim_spec(expanded@)]
                                        + spec_rest.0);
                                }
                                Ok((body, nx))
                            },
                            Err(e) => Err(e),
                        }
                    } else if wc >= 1 {
                        Err(RakeError::InvalidIndentation(Info(path.clone(), i + 1), wc))
                    } else if trimmed.len() == 0 {
                        collect_body(lines, i + 1, target, deps, vars, path)
                    } else {
                        let body: Vec<Vec<char>> = Vec::new();
                        assert(views(body@) =~= Seq::<Seq<char>>::empty());
                        Ok((body, i))
                    }
                },
            }
        },
    }
}

/// The parser: the build file's path and lines, a cursor, and the
/// stores and warnings it fills.
pub struct Rakefile {
    pub file_path: String,
    pub pos: usize,
    pub lines: Vec<Vec<char>>,
    pub vars: VarStore,
    pub jobs: JobStore,
    pub warnings: Vec<Warning>,
    pub phony_marks: Vec<Vec<char>>,
    pub silent_marks: Vec<Vec<char>>,
}

/// Start of the suffix that keeps at most two path separators: walking
/// from the end, the cut falls just after the third separator.
pub open spec fn pretty_cut(s: Seq<char>, i: int, cnt: int) -> int
    decreases i,
{
    if i <= 0 {
        0
    } else {
        let cnt2 = if s[i - 1] == '/' {
            cnt + 1
        } else {
            cnt
        };
        if cnt2 >= 3 {
            i
        } else {
            pretty_cut(s, i - 1, cnt2)
        }
    }
}

impl Rakefile {
    /// Accepted indentation: one tab, or this many spaces.
    pub const TAB_WIDTH: usize = 4;

    /// How many trailing path components a pretty path keeps.
    pub const MAX_DIR_LVL: usize = 3;

    /// The build file's expected name.
    pub const RAKE_FILE_NAME: &'static str = "Rakefile";

    /// The tail of a path, cut after the third separator from the end.
    pub fn pretty_path(file_path: &Vec<char>) -> (out: Vec<char>)
        ensures
            out@ == file_path@.subrange(
                pretty_cut(file_path@, file_path@.len() as int, 0),
                file_path@.len() as int,
            ),
    {
        let mut i: usize = file_path.len();
        let mut cnt: usize = 0;
        loop
            invariant
                i <= file_path@.len(),
                cnt <= 2,
                pretty_cut(file_path@, file_path@.len() as int, 0) == pretty_cut(
                    file_path@,
                    i as int,
                    cnt as int,
                ),
            decreases i,
        {
            if i == 0 {
                assert(pretty_cut(file_path@, i as int, cnt as int) == i as int);
                return crate::text::copy_range(file_path, i, file_path.len());
            }
            let bump: usize = if file_path[i - 1] == '/' {
                1
            } else {
                0
            };
            if cnt + bump >= 3 {
                assert(pretty_cut(file_path@, i as int, cnt as int) == i as int);
                return crate::text::copy_range(file_path, i, file_path.len());
            }
            cnt += bump;
            i -= 1;
        }
    }

    /// The spec-level state this parser has accumulated.
    pub open spec fn st(&self) -> PState {
        PState {
            vars: self.vars@,
            jobs: self.jobs@,
            warns: warn_views(self.warnings@),
            pmarks: views(self.phony_marks@),
            smarks: views(self.silent_marks@),
        }
    }

    /// The cursor is in range and the store is well-formed.
    pub open spec fn wf_parse(&self) -> bool {
        &&& self.pos <= self.lines@.len()
        &&& self.jobs.wf()
    }

    /// Move past the line just consumed.
    pub fn advance(&mut self)
        requires
            old(self).pos < old(self).lines@.len(),
        ensures
            final(self).pos == old(self).pos + 1,
            final(self).lines == old(self).lines,
            final(self).file_path == old(self).file_path,
            final(self).vars == old(self).vars,
            final(self).jobs == old(self).jobs,
            final(self).warnings == old(self).warnings,
            final(self).phony_marks == old(self).phony_marks,
            final(self).silent_marks == old(self).silent_marks,
    {
        // The length call puts the vector's length bound in scope.
        let n = self.lines.len();
        self.pos += 1;
    }

    fn parse_variable_declaration(&mut self, eq: usize, line: &Vec<char>) -> (r: Result<
        (),
        RakeError,
    >)
        requires
            old(self).pos < old(self).lines@.len(),
            find_char_from(line@, '=', 0) == Some(eq as int),
        ensures
            final(self).lines@ == old(self).lines@,
            final(self).file_path@ == old(self).file_path@,
            final(self).pos == old(self).pos,
            final(self).jobs == old(self).jobs,
            final(self).warnings == old(self).warnings,
            final(self).phony_marks == old(self).phony_marks,
            final(self).silent_marks == old(self).silent_marks,
            match r {
                Ok(_) => parse_var_spec(line@, old(self).pos as int, old(self).st()) == Result::<
                    PState,
                    ParseErr,
                >::Ok(final(self).st()),
                Err(e) => ({
                    let res = parse_var_spec(line@, old(self).pos as int, old(self).st());
                    &&& res is Err && err_matches(&e, res->Err_0, old(self).file_path@)
                    &&& final(self).st() == old(self).st()
                }),
            },
    {
        proof {
            lemma_find_char(line@, '=', 0);
        }
        // The length calls put both lengths' bounds in scope.
        let nline = line.len();
        let npos = self.lines.len();
        let left = crate::text::copy_range(line, 0, eq);
        let name = crate::text::trim(&left);
        let value_raw: Vec<char> = if line.len() - eq >= 2 {
            crate::text::copy_range(line, eq + 2, line.len())
        } else {
            Vec::new()
        };
        let value = crate::text::trim(&value_raw);
        proof {
            if line@.len() < eq + 2 {
                assert(value_raw@ =~= Seq::<char>::empty());
            }
        }
        let info = Info(self.file_path.clone(), self.pos + 1);
        let ghost pre = self.st();
        let ghost pre_full = *self;
        match self.vars.define(name, value, info) {
            Ok(_) => {
                proof {
                    let sname = trim_spec(line@.subrange(0, eq as int));
                    let svalue = trim_spec(
                        if line@.len() >= eq + 2 {
                            line@.subrange(eq + 2, line@.len() as int)
                        } else {
                            Seq::empty()
                        },
                    );
                    assert(self.st() =~= PState {
                        vars: define_sets(pre.vars, sname, svalue),
                        ..pre
                    });
                }
                Ok(())
            },
            Err(e) => {
                proof {
                    assert(self.st() =~= pre_full.st());
                }
                Err(e)
            },
        }
    }

    fn parse_job(&mut self) -> (r: Result<(), RakeError>)
        requires
            old(self).wf_parse(),
            old(self).pos < old(self).lines@.len(),
        ensures
            final(self).lines@ == old(self).lines@,
            final(self).file_path@ == old(self).file_path@,
            final(self).wf_parse(),
            match r {
                Ok(_) => parse_job_spec(
                    views(old(self).lines@),
                    old(self).pos as int,
                    old(self).st(),
                    old(self).file_path@,
                ) == Result::<(PState, int), ParseErr>::Ok((final(self).st(), final(self).pos as int))
                    && old(self).pos < final(self).pos,
                Err(e) => ({
                    let res = parse_job_spec(
                        views(old(self).lines@),
                        old(self).pos as int,
                        old(self).st(),
                        old(self).file_path@,
                    );
                    &&& res is Err && err_matches(&e, res->Err_0, old(self).file_path@)
                    &&& final(self).st() == old(self).st()
                    &&& final(self).pos == old(self).pos
                }),
            },
    {
        let i = self.pos;
        // The length call puts the line count's bound in scope.
        let nlines = self.lines.len();
        let raw = crate::text::dup_chars(&self.lines[i]);
        let info = Info(self.file_path.clone(), i + 1);
        let line = match self.vars.expand(&raw, &info) {
            Ok(v) => v,
            Err(e) => {
                return Err(e);
            },
        };
        let c = match crate::text::find_char_from_exec(&line, ':', 0) {
            Some(c) => c,
            None => {
                return Err(RakeError::InvalidScheisse);
            },
        };
        proof {
            lemma_find_char(line@, ':', 0);
        }
        let left = crate::text::copy_range(&line, 0, c);
        let target = crate::text::trim(&left);
        if target.len() == 0 {
            return Err(RakeError::NoTarget(Info(self.file_path.clone(), i + 1)));
        }
        let right = crate::text::copy_range(&line, c + 1, line.len());
        let deps = crate::text::split_ws_exec(&right);
        let (body, nx) = match collect_body(
            &self.lines,
            i + 1,
            &target,
            &deps,
            &self.vars,
            &self.file_path,
        ) {
            Ok(p) => p,
            Err(e) => {
                return Err(e);
            },
        };
        let ghost pre_st = self.st();
        let ghost starget = target@;
        let ghost sdeps = views(deps@);
        let ghost sbody = views(body@);
        let phony_tok = SSymbol::MakePhony.to_string();
        let always_tok = SSymbol::RakePhony.to_string();
        let silent_tok = SSymbol::MakeSilent.to_string();
        if crate::text::chars_eq(&target, &phony_tok) || crate::text::chars_eq(
            &target,
            &always_tok,
        ) {
            let ghost pre_pm = self.phony_marks@;
            let mut d = deps;
            let ghost dsnap = d@;
            self.phony_marks.append(&mut d);
            proof {
                crate::text::lemma_views_concat(pre_pm, dsnap);
                assert(self.st() =~= finish_job(
                    pre_st,
                    self.file_path@,
                    i + 1,
                    starget,
                    sdeps,
                    sbody,
                ));
            }
        } else if crate::text::chars_eq(&target, &silent_tok) {
            let ghost pre_sm = self.silent_marks@;
            let mut d = deps;
            let ghost dsnap = d@;
            self.silent_marks.append(&mut d);
            proof {
                crate::text::lemma_views_concat(pre_sm, dsnap);
                assert(self.st() =~= finish_job(
                    pre_st,
                    self.file_path@,
                    i + 1,
                    starget,
                    sdeps,
                    sbody,
                ));
            }
        } else {
            let job = Job {
                target,
                deps,
                recipe: body,
                phony: false,
                echo: true,
                loc: Info(self.file_path.clone(), i + 1),
            };
            proof {
                assert(job@ =~= JobView {
                    target: starget,
                    deps: sdeps,
                    recipe: sbody,
                    phony: false,
                    echo: true,
                    path: self.file_path@,
                    row: i + 1,
                });
            }
            let ghost pre_warns = self.warnings@;
            match self.jobs.append_job(job) {
                Some(w) => {
                    proof {
                        lemma_warn_views_push(
                            pre_warns,
                            WarnView {
                                target: w.target@,
                                new_row: w.new_loc.1 as int,
                                old_row: w.old_loc.1 as int,
                            },
                        );
                    }
                    self.warnings.push(w);
                },
                None => {},
            }
            proof {
                assert(self.st() =~= finish_job(
                    pre_st,
                    self.file_path@,
                    i + 1,
                    starget,
                    sdeps,
                    sbody,
                ));
            }
        }
        self.pos = nx;
        Ok(())
    }

    /// Classify and consume the line under the cursor.
    pub fn parse_line(&mut self) -> (r: Result<(), RakeError>)
        requires
            old(self).wf_parse(),
            old(self).pos < old(self).lines@.len(),
        ensures
            final(self).lines@ == old(self).lines@,
            final(self).file_path@ == old(self).file_path@,
            final(self).wf_parse(),
            match r {
                Ok(_) => parse_line_spec(
                    views(old(self).lines@),
                    old(self).pos as int,
                    old(self).st(),
                    old(self).file_path@,
                ) == Result::<(PState, int), ParseErr>::Ok((final(self).st(), final(self).pos as int))
                    && old(self).pos < final(self).pos,
                Err(e) => ({
                    let res = parse_line_spec(
                        views(old(self).lines@),
                        old(self).pos as int,
                        old(self).st(),
                        old(self).file_path@,
                    );
                    &&& res is Err && err_matches(&e, res->Err_0, old(self).file_path@)
                    &&& final(self).st() == old(self).st()
                    &&& final(self).pos == old(self).pos
                }),
            },
    {
        let i = self.pos;
        // The length call puts the line count's bound in scope.
        let nlines = self.lines.len();
        let line = crate::text::dup_chars(&self.lines[i]);
        let trimmed = crate::text::trim(&line);
        if trimmed.len() == 0 || (line.len() > 0 && line[0] == '#') {
            self.advance();
            return Ok(());
        }
        match crate::text::find_char_from_exec(&line, ':', 0) {
            Some(_) => self.parse_job(),
            None => {
                match crate::text::find_char_from_exec(&line, '=', 0) {
                    Some(eq) => {
                        match self.parse_variable_declaration(eq, &line) {
                            Ok(_) => {
                                self.advance();
                                Ok(())
                            },
                            Err(e) => Err(e),
                        }
                    },
                    None => Err(RakeError::InvalidScheisse),
                }
            },
        }
    }

    /// The post-parse marker pass: every job's `phony` becomes whether a
    /// `.PHONY`/`.ALWAYS` directive listed its target, and `echo` whether
    /// no `.SILENT` directive did.
    pub fn apply_markers(&mut self)
        requires
            old(self).wf_parse(),
        ensures
            final(self).lines@ == old(self).lines@,
            final(self).file_path@ == old(self).file_path@,
            final(self).pos == old(self).pos,
            final(self).wf_parse(),
            final(self).st() == (PState {
                jobs: apply_marks(
                    old(self).jobs@,
                    views(old(self).phony_marks@),
                    views(old(self).silent_marks@),
                ),
                ..old(self).st()
            }),
    {
        let mut out: Vec<Job> = Vec::new();
        let n = self.jobs.jobs.len();
        let mut k: usize = 0;
        while k < n
            invariant
                k <= n,
                n == self.jobs.jobs@.len(),
                out@.len() == k,
                forall|j: int| 0 <= j < k ==> out@[j]@ == apply_marks(
                    self.jobs@,
                    views(self.phony_marks@),
                    views(self.silent_marks@),
                )[j],
            decreases n - k,
        {
            let jb = &self.jobs.jobs[k];
            let phony = contains_mark(&self.phony_marks, &jb.target);
            let silent = contains_mark(&self.silent_marks, &jb.target);
            let nj = Job {
                target: crate::text::dup_chars(&jb.target),
                deps: dup_chars_vec(&jb.deps),
                recipe: dup_chars_vec(&jb.recipe),
                phony,
                echo: !silent,
                loc: jb.loc.duplicate(),
            };
            proof {
                assert(nj@ =~= apply_marks(
                    self.jobs@,
                    views(self.phony_marks@),
                    views(self.silent_marks@),
                )[k as int]);
            }
            out.push(nj);
            k += 1;
        }
        proof {
            let newjobs = out@.map_values(|j: Job| j@);
            let marked = apply_marks(
                self.jobs@,
                views(self.phony_marks@),
                views(self.silent_marks@),
            );
            assert forall|a: int, b: int| #![trigger newjobs[a], newjobs[b]]
                0 <= a < b < newjobs.len() implies newjobs[a].target != newjobs[b].target by {
                assert(newjobs[a] == out@[a]@);
                assert(newjobs[b] == out@[b]@);
                assert(marked[a].target == self.jobs@[a].target);
                assert(marked[b].target == self.jobs@[b].target);
            }
        }
        self.jobs.jobs = out;
        proof {
            assert(self.jobs@ =~= apply_marks(
                old(self).jobs@,
                views(old(self).phony_marks@),
                views(old(self).silent_marks@),
            ));
            assert(self.st() =~= PState {
                jobs: apply_marks(
                    old(self).jobs@,
                    views(old(self).phony_marks@),
                    views(old(self).silent_marks@),
                ),
                ..old(self).st()
            });
        }
    }

    /// Parse a whole build-file text: split it into lines, classify and
    /// consume every line, then apply the marker pass. The result is
    /// exactly what `parse_spec` states, or the first error.
    pub fn parse(path: &str, text: &str) -> (r: Result<Rakefile, RakeError>)
        ensures
            match r {
                Ok(rf) => {
                    &&& parse_spec(path@, text@) == Result::<PState, ParseErr>::Ok(rf.st())
                    &&& rf.jobs.wf()
                    &&& rf.file_path@ == path@
                    &&& views(rf.lines@) == split_lines(text@)
                },
                Err(e) => ({
                    let res = parse_spec(path@, text@);
                    res is Err && err_matches(&e, res->Err_0, path@)
                }),
            },
    {
        let chars = crate::text::chars_of(text);
        let lines = split_lines_exec(&chars, 0);
        let mut rf = Rakefile {
            file_path: path.to_owned(),
            pos: 0,
            lines,
            vars: VarStore::new(),
            jobs: JobStore::new(),
            warnings: Vec::new(),
            phony_marks: Vec::new(),
            silent_marks: Vec::new(),
        };
        proof {
            assert(rf.st() =~= PState::empty());
            assert(warn_views(rf.warnings@) =~= Seq::<WarnView>::empty());
            assert(views(rf.phony_marks@) =~= Seq::<Seq<char>>::empty());
            assert(views(rf.silent_marks@) =~= Seq::<Seq<char>>::empty());
        }
        let ghost slines = views(rf.lines@);
        while rf.pos < rf.lines.len()
            invariant
                rf.wf_parse(),
                views(rf.lines@) == slines,
                slines == split_lines(text@),
                rf.file_path@ == path@,
                parse_from(slines, rf.pos as int, rf.st(), path@) == parse_from(
                    slines,
                    0,
                    PState::empty(),
                    path@,
                ),
            decreases slines.len() - rf.pos,
        {
            let ghost prepos = rf.pos as int;
            let ghost prest = rf.st();
            match rf.parse_line() {
                Ok(_) => {
                    proof {
                        assert(parse_from(slines, prepos, prest, path@) == parse_from(
                            slines,
                            rf.pos as int,
                            rf.st(),
                            path@,
                        ));
                    }
                },
                Err(e) => {
                    proof {
                        let res = parse_line_spec(slines, prepos, prest, path@);
                        assert(parse_from(slines, prepos, prest, path@) == Result::<
                            PState,
                            ParseErr,
                        >::Err(res->Err_0));
                        assert(slines == split_lines(text@));
                        assert(parse_spec(path@, text@) == Result::<PState, ParseErr>::Err(
                            res->Err_0,
                        ));
                        assert(err_matches(&e, res->Err_0, path@));
                    }
                    return Err(e);
                },
            }
        }
        let ghost endst = rf.st();
        proof {
            assert(parse_from(slines, rf.pos as int, endst, path@) == Result::<
                PState,
                ParseErr,
            >::Ok(endst));
        }
        rf.apply_markers();
        proof {
            assert(rf.st() =~= (PState {
                jobs: apply_marks(endst.jobs, endst.pmarks, endst.smarks),
                ..endst
            }));
        }
        Ok(rf)
    }
}

proof fn lemma_warn_views_push(ws: Seq<Warning>, wv: WarnView)
    ensures
        forall|w: Warning|
            w.target@ == wv.target && w.new_loc.1 as int == wv.new_row && w.old_loc.1 as int
                == wv.old_row ==> warn_views(ws.push(w)) == warn_views(ws).push(wv),
{
    assert forall|w: Warning|
        w.target@ == wv.target && w.new_loc.1 as int == wv.new_row && w.old_loc.1 as int
            == wv.old_row implies warn_views(ws.push(w)) == warn_views(ws).push(wv) by {
        assert forall|j: int| 0 <= j < ws.len() + 1 implies warn_views(ws.push(w))[j] == warn_views(
            ws,
        ).push(wv)[j] by {
            if j < ws.len() {
                assert(ws.push(w)[j] == ws[j]);
            } else {
                assert(ws.push(w)[j] == w);
            }
        }
        assert(warn_views(ws.push(w)) =~= warn_views(ws).push(wv));
    }
}

} // verus!
