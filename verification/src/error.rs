//! Source locations and the error kinds the tool reports, with their
//! rendered messages.

use vstd::prelude::*;
use crate::text::{chars_of, dec_str, dec_str_exec, join_from};

verus! {

/// A source location: file path and 1-based row.
#[derive(Debug)]
pub struct Info(pub String, pub usize);

impl Info {
    pub fn duplicate(&self) -> (r: Info)
        ensures
            r.0@ == self.0@,
            r.1 == self.1,
    {
        Info(self.0.clone(), self.1)
    }
}

/// Everything that can go wrong while parsing or executing a build file.
#[derive(Debug)]
pub enum RakeError {
    /// A recipe line failed; carries the captured stderr or message.
    FailedToExecute(Info, Vec<char>),
    /// A body line with a nonzero leading-whitespace count other than four.
    InvalidIndentation(Info, usize),
    /// A dependency that is neither a job, a file, nor a directory.
    InvalidDependency(Info, Vec<char>),
    /// No build file in the searched directory; carries the pretty path.
    NoRakefileInDir(String),
    /// An indexed-dependency token whose index is out of bounds; carries
    /// the number of dependencies.
    DepsIndexOutOfBounds(Info, usize),
    /// A first-dependency token in a job that has no dependencies.
    DepsSSwithoutDeps(Info),
    /// A job signature with an empty target.
    NoTarget(Info),
    /// A variable declaration whose name is not exactly one word.
    MultipleNames(Info),
    /// A reference to an undefined variable.
    InvalidValue(Info, Vec<char>),
    /// A flag used without its required argument, or with a malformed one.
    InvalidUseOfFlag(String, Vec<String>),
    /// A requested target that is not a defined job; carries the list of
    /// known targets.
    InvalidArgument(Vec<char>, Vec<char>),
    /// A line that fits no classification, or an unrecognized flag word.
    InvalidScheisse,
}

/// The views of a sequence of strings.
pub open spec fn str_views(vs: Seq<String>) -> Seq<Seq<char>> {
    vs.map_values(|v: String| v@)
}

/// The `file:row: ` prefix of located messages.
pub open spec fn loc_prefix(path: Seq<char>, row: int) -> Seq<char> {
    path + seq![':'] + dec_str(row) + seq![':', ' ']
}

/// The rendered message of each error, exactly as the tool prints it.
pub open spec fn message_spec(e: &RakeError) -> Seq<char> {
    match e {
        RakeError::FailedToExecute(info, err) => loc_prefix(info.0@, info.1 as int)
            + "Failed to execute job:\n"@ + err@,
        RakeError::InvalidIndentation(info, w) => loc_prefix(info.0@, info.1 as int)
            + "Invalid indentation, expected: 4, got: "@ + dec_str(*w as int),
        RakeError::InvalidDependency(info, dep) => loc_prefix(info.0@, info.1 as int)
            + "Dependency: `"@ + dep@
            + "` is neither a defined job, nor an existing file, nor a directory"@,
        RakeError::NoRakefileInDir(dir) => "No Rakefile in: `"@ + dir@
            + "`, you can specify path to dir with Rakefile using `-C` flag. For instance: `rake -C ./path_to_rakefile/`"@,
        RakeError::DepsIndexOutOfBounds(info, len) => loc_prefix(info.0@, info.1 as int)
            + "Index out of bounds, NOTE: treat your deps as zero-indexed array. Length of your deps-array is: "@
            + dec_str(*len as int),
        RakeError::DepsSSwithoutDeps(info) => loc_prefix(info.0@, info.1 as int)
            + "Special `deps` syntax without deps"@,
        RakeError::NoTarget(info) => loc_prefix(info.0@, info.1 as int) + "Target is mandatory"@,
        RakeError::MultipleNames(info) => loc_prefix(info.0@, info.1 as int)
            + "Provide only one name of the variable"@,
        RakeError::InvalidValue(info, value) => loc_prefix(info.0@, info.1 as int)
            + "Invalid value: "@ + value@,
        RakeError::InvalidUseOfFlag(flag, args) => {
            let joined = join_from(str_views(args@), 0);
            "Invalid use of flag: `"@ + flag@ + "`, arg: "@ + (if joined.len() == 0 {
                "[EMPTY]"@
            } else {
                joined
            })
        },
        RakeError::InvalidArgument(arg, jobs) => "No such job or flag: `"@ + arg@
            + "`. Availiable jobs to call: "@ + jobs@ + ", supported flags: -k, -s, -C"@,
        RakeError::InvalidScheisse => Seq::empty(),
    }
}

/// Append a string slice's characters.
pub fn append_str(out: &mut Vec<char>, s: &str)
    ensures
        final(out)@ == old(out)@ + s@,
{
    let mut cs = chars_of(s);
    out.append(&mut cs);
}

fn loc_prefix_exec(info: &Info) -> (out: Vec<char>)
    ensures
        out@ == loc_prefix(info.0@, info.1 as int),
{
    let mut out = chars_of(self_path(info));
    out.push(':');
    let mut row = dec_str_exec(info.1);
    out.append(&mut row);
    out.push(':');
    out.push(' ');
    assert(out@ =~= loc_prefix(info.0@, info.1 as int));
    out
}

fn self_path(info: &Info) -> (s: &str)
    ensures
        s@ == info.0@,
{
    info.0.as_str()
}

fn join_strs_from(args: &Vec<String>, i: usize) -> (out: Vec<char>)
    requires
        i <= args@.len(),
    ensures
        out@ == join_from(str_views(args@), i as int),
    decreases args@.len() - i,
{
    let mut out: Vec<char> = Vec::new();
    if i >= args.len() {
        assert(out@ =~= join_from(str_views(args@), i as int));
        return out;
    }
    append_str(&mut out, args[i].as_str());
    if i == args.len() - 1 {
        assert(out@ =~= join_from(str_views(args@), i as int));
        return out;
    }
    out.push(' ');
    let mut rest = join_strs_from(args, i + 1);
    out.append(&mut rest);
    assert(out@ =~= join_from(str_views(args@), i as int));
    out
}

impl RakeError {
    /// The message this error prints, one line of context and the detail.
    pub fn message(&self) -> (out: Vec<char>)
        requires
            !(self is InvalidScheisse),
        ensures
            out@ == message_spec(self),
    {
        match self {
            RakeError::FailedToExecute(info, err) => {
                let mut out = loc_prefix_exec(info);
                append_str(&mut out, "Failed to execute job:\n");
                let mut tail = crate::text::dup_chars(err);
                out.append(&mut tail);
                out
            },
            RakeError::InvalidIndentation(info, w) => {
                let mut out = loc_prefix_exec(info);
                append_str(&mut out, "Invalid indentation, expected: 4, got: ");
                let mut tail = dec_str_exec(*w);
                out.append(&mut tail);
                out
            },
            RakeError::InvalidDependency(info, dep) => {
                let mut out = loc_prefix_exec(info);
                append_str(&mut out, "Dependency: `");
                let mut mid = crate::text::dup_chars(dep);
                out.append(&mut mid);
                append_str(
                    &mut out,
                    "` is neither a defined job, nor an existing file, nor a directory",
                );
                out
            },
            RakeError::NoRakefileInDir(dir) => {
                let mut out = chars_of("No Rakefile in: `");
                append_str(&mut out, dir.as_str());
                append_str(
                    &mut out,
                    "`, you can specify path to dir with Rakefile using `-C` flag. For instance: `rake -C ./path_to_rakefile/`",
                );
                out
            },
            RakeError::DepsIndexOutOfBounds(info, len) => {
                let mut out = loc_prefix_exec(info);
                append_str(
                    &mut out,
                    "Index out of bounds, NOTE: treat your deps as zero-indexed array. Length of your deps-array is: ",
                );
                let mut tail = dec_str_exec(*len);
                out.append(&mut tail);
                out
            },
            RakeError::DepsSSwithoutDeps(info) => {
                let mut out = loc_prefix_exec(info);
                append_str(&mut out, "Special `deps` syntax without deps");
                out
            },
            RakeError::NoTarget(info) => {
                let mut out = loc_prefix_exec(info);
                append_str(&mut out, "Target is mandatory");
                out
            },
            RakeError::MultipleNames(info) => {
                let mut out = loc_prefix_exec(info);
                append_str(&mut out, "Provide only one name of the variable");
                out
            },
            RakeError::InvalidValue(info, value) => {
                let mut out = loc_prefix_exec(info);
                append_str(&mut out, "Invalid value: ");
                let mut tail = crate::text::dup_chars(value);
                out.append(&mut tail);
                out
            },
            RakeError::InvalidUseOfFlag(flag, args) => {
                let mut out = chars_of("Invalid use of flag: `");
                append_str(&mut out, flag.as_str());
                append_str(&mut out, "`, arg: ");
                let mut joined = join_strs_from(args, 0);
                if joined.len() == 0 {
                    append_str(&mut out, "[EMPTY]");
                } else {
                    out.append(&mut joined);
                }
                out
            },
            RakeError::InvalidArgument(arg, jobs) => {
                let mut out = chars_of("No such job or flag: `");
                let mut a = crate::text::dup_chars(arg);
                out.append(&mut a);
                append_str(&mut out, "`. Availiable jobs to call: ");
                let mut j = crate::text::dup_chars(jobs);
                out.append(&mut j);
                append_str(&mut out, ", supported flags: -k, -s, -C");
                out
            },
            RakeError::InvalidScheisse => {
                // Excluded by the precondition; nothing sensible to print.
                Vec::new()
            },
        }
    }
}

} // verus!
