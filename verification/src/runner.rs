//! What a finished command left behind, and the command lines that are
//! handed to the system.

use crate::text::{
    join, join_strings, replace_all, replace_str, split_whitespace, trim_end, trim_end_str,
    views, words,
};
use vstd::prelude::*;
use vstd::string::*;

verus! {

/// The result of one command.
pub struct CommandResult {
    pub stdout: String,
    pub stderr: String,
    pub exit_code: i32,
    /// Both streams as one text, without trailing whitespace.
    pub combined: String,
}

/// The two streams as one text: the one that is not empty, or the standard
/// output without its trailing whitespace, a newline and the standard
/// error; in each case without trailing whitespace.
pub open spec fn combined_output(stdout: Seq<char>, stderr: Seq<char>) -> Seq<char> {
    trim_end(
        if stderr.len() == 0 {
            stdout
        } else if stdout.len() == 0 {
            stderr
        } else {
            trim_end(stdout) + seq!['\n'] + stderr
        },
    )
}

/// Merges the two streams of a command into one text.
pub fn combine_output(stdout: &str, stderr: &str) -> (out: String)
    ensures
        out@ == combined_output(stdout@, stderr@),
{
    if stderr.is_empty() {
        trim_end_str(stdout)
    } else if stdout.is_empty() {
        trim_end_str(stderr)
    } else {
        let mut merged = trim_end_str(stdout);
        merged.push('\n');
        merged.append(stderr);
        assert(merged@ =~= trim_end(stdout@) + seq!['\n'] + stderr@);
        trim_end_str(merged.as_str())
    }
}

/// The result of a command from its two streams and its exit code.
pub fn build_result(stdout: String, stderr: String, exit_code: i32) -> (out: CommandResult)
    ensures
        out.stdout@ == stdout@,
        out.stderr@ == stderr@,
        out.exit_code == exit_code,
        out.combined@ == combined_output(stdout@, stderr@),
{
    let combined = combine_output(stdout.as_str(), stderr.as_str());
    CommandResult { stdout, stderr, exit_code, combined }
}

/// `arg` in single quotes, each single quote inside it written as `'\''`.
pub open spec fn shell_escaped(arg: Seq<char>) -> Seq<char> {
    seq!['\''] + replace_all(arg, seq!['\''], seq!['\'', '\\', '\'', '\'']) + seq!['\'']
}

/// Escape a string for safe inclusion in a shell command (single-quote
/// wrapping).
pub fn shell_escape(arg: &str) -> (out: String)
    ensures
        out@ == shell_escaped(arg@),
{
    proof {
        reveal_strlit("'");
        reveal_strlit("'\\''");
        assert("'"@ =~= seq!['\'']);
        assert("'\\''"@ =~= seq!['\'', '\\', '\'', '\'']);
    }
    let mut out = "'".to_owned();
    let inner = replace_str(arg, "'", "'\\''");
    out.append(inner.as_str());
    out.append("'");
    out
}

/// The shell command of a run template: `{args}` replaced by the
/// arguments, each escaped, with a space between them.
pub open spec fn shell_command_text(run: Seq<char>, args: Seq<Seq<char>>) -> Seq<char> {
    replace_all(
        run,
        "{args}"@,
        join(args.map_values(|a: Seq<char>| shell_escaped(a)), seq![' ']),
    )
}

/// Fills the arguments into a run template.
pub fn shell_command(run: &str, args: &[String]) -> (out: String)
    ensures
        out@ == shell_command_text(run@, views(args@)),
{
    let mut escaped: Vec<String> = Vec::new();
    let mut i: usize = 0;
    while i < args.len()
        invariant
            i <= args.len(),
            escaped.len() == i,
            forall|j: int| 0 <= j < i ==> (#[trigger] escaped@[j])@ == shell_escaped(args@[j]@),
        decreases args.len() - i,
    {
        escaped.push(shell_escape(args[i].as_str()));
        i += 1;
    }
    assert(views(escaped@) =~= views(args@).map_values(|a: Seq<char>| shell_escaped(a)));
    proof {
        reveal_strlit(" ");
        assert(" "@ =~= seq![' ']);
    }
    let joined = join_strings(escaped.as_slice(), " ");
    replace_str(run, "{args}", joined.as_str())
}

/// Splits a command into the program and the arguments it names itself;
/// `None` where the command holds no word.
pub fn split_command(command: &str) -> (out: Option<(String, Vec<String>)>)
    ensures
        match out {
            Some((program, base_args)) => split_whitespace(command@).len() > 0 && program@
                == split_whitespace(command@)[0] && views(base_args@) == split_whitespace(
                command@,
            ).drop_first(),
            None => split_whitespace(command@).len() == 0,
        },
{
    let mut parts = words(command);
    if parts.len() == 0 {
        return None;
    }
    let ghost all = views(parts@);
    let program = parts.remove(0);
    assert(views(parts@) =~= all.drop_first());
    Some((program, parts))
}

} // verus!
