//! How the tools of LXC are run and what they print.

use crate::shell::{Invocation, InvocationView, Output};
use crate::sys::{is_root, lowercase, lowercased};
use crate::text::{
    chars_of, contains, find_char, lines, lines_of, list_contains, occurs_in, piece, position_of_char,
    starts_with, has_prefix, texts, trim, trimmed,
};
use vstd::prelude::*;
use vstd::string::*;

verus! {

/// Runs the tools that manage containers and reads what they print.
#[derive(Debug, Clone, Copy, PartialEq, Eq, Structural)]
pub struct LxcCommand;

/// The command that carries out `args`, whose first names the tool: run
/// directly by the superuser, and through `sudo`, which must not ask for a
/// password, by everybody else.
pub open spec fn planned(args: Seq<Seq<char>>, as_root: bool) -> InvocationView {
    if as_root {
        InvocationView { program: "lxc-"@ + args[0], args: args.skip(1) }
    } else {
        InvocationView { program: "sudo"@, args: seq!["-n"@, "lxc-"@ + args[0]] + args.skip(1) }
    }
}

/// What is said when a command failed with `stderr` on its error output.
pub open spec fn failure_text(via_sudo: bool, stderr: Seq<char>) -> Seq<char> {
    if !via_sudo {
        "LXC command failed: "@ + stderr
    } else {
        "LXC operations require root privileges. Please run the orchestrator as root or configure passwordless sudo for LXC commands. Error: "@
            + if occurs_in(stderr, "sudo: a password is required"@) {
            "Passwordless sudo not configured for LXC commands"@
        } else {
            "LXC command with sudo failed: "@ + stderr
        }
    }
}

/// The names on the lines of a listing: every line without the white
/// space around it, but for the lines that hold nothing else.
pub open spec fn names_in(lines: Seq<Seq<char>>) -> Seq<Seq<char>>
    decreases lines.len(),
{
    if lines.len() == 0 {
        Seq::empty()
    } else if trimmed(lines.last()).len() > 0 {
        names_in(lines.drop_last()).push(trimmed(lines.last()))
    } else {
        names_in(lines.drop_last())
    }
}

/// What stands between the first and the second colon of a line, or
/// behind the first where there is no second.
pub open spec fn second_field(line: Seq<char>) -> Seq<char> {
    let first = position_of_char(line, ':', 0);
    if first < line.len() {
        line.subrange(first + 1, position_of_char(line, ':', first + 1))
    } else {
        Seq::empty()
    }
}

/// The state that the first line from `from` on that begins with `State:`
/// names, in lower case and without white space around it.
pub open spec fn state_in(lines: Seq<Seq<char>>, from: int) -> Option<Seq<char>>
    decreases lines.len() - from,
{
    if from < 0 || from >= lines.len() {
        None
    } else if has_prefix(lines[from], "State:"@) {
        Some(lowercased(trimmed(second_field(lines[from]))))
    } else {
        state_in(lines, from + 1)
    }
}

impl LxcCommand {
    /// The command that carries out `args` for a caller that is, or is
    /// not, the superuser. There must be at least the name of the tool.
    pub fn invocation(args: &Vec<String>, as_root: bool) -> (plan: Result<Invocation, String>)
        ensures
            plan is Ok <==> args@.len() > 0,
            plan matches Ok(i) ==> i@ == planned(texts(args@), as_root),
            plan matches Err(e) ==> e@ == "No command specified"@,
    {
        if args.len() == 0 {
            return Err(String::from_str("No command specified"));
        }
        let mut name = String::from_str("lxc-");
        name.append(args[0].as_str());
        let mut rest: Vec<String> = Vec::new();
        let program = if as_root {
            name
        } else {
            rest.push(String::from_str("-n"));
            rest.push(name);
            String::from_str("sudo")
        };
        let ghost head = texts(rest@);
        let mut i: usize = 1;
        assert(texts(args@).skip(1).take(0) =~= Seq::<Seq<char>>::empty());
        assert(texts(rest@) =~= head + texts(args@).skip(1).take(0));
        while i < args.len()
            invariant
                1 <= i <= args.len(),
                texts(rest@) == head + texts(args@).skip(1).take(i - 1),
            decreases args.len() - i,
        {
            let ghost before = texts(rest@);
            let item = args[i].clone();
            rest.push(item);
            proof {
                assert(texts(rest@) =~= before.push(args@[i as int]@));
                assert(texts(args@).skip(1).take(i as int) =~= texts(args@).skip(1).take(i - 1).push(
                    args@[i as int]@,
                ));
            }
            i = i + 1;
        }
        proof {
            assert(texts(args@).skip(1).take(args@.len() - 1) =~= texts(args@).skip(1));
            if as_root {
                assert(head =~= Seq::<Seq<char>>::empty());
                assert(texts(rest@) =~= texts(args@).skip(1));
            } else {
                assert(head =~= seq!["-n"@, "lxc-"@ + args@[0]@]);
            }
        }
        Ok(Invocation { program, args: rest })
    }

    /// The command that carries out `args` for this process: see
    /// [`LxcCommand::invocation`], with whether the process runs as the
    /// superuser.
    pub fn execute(args: &Vec<String>) -> (plan: Result<Invocation, String>)
        ensures
            plan is Ok <==> args@.len() > 0,
            plan matches Ok(i) ==> exists|as_root: bool| i@ == #[trigger] planned(texts(args@), as_root),
            plan matches Err(e) ==> e@ == "No command specified"@,
    {
        let as_root = is_root();
        let plan = LxcCommand::invocation(args, as_root);
        proof {
            if plan is Ok {
                assert(plan->Ok_0@ == planned(texts(args@), as_root));
            }
        }
        plan
    }

    /// What a command gave: what it printed where it succeeded, and what
    /// is said of its failure where it did not.
    pub fn interpret(via_sudo: bool, output: Output) -> (result: Result<String, String>)
        ensures
            result is Ok <==> output.success,
            result matches Ok(text) ==> text == output.stdout,
            result matches Err(e) ==> e@ == failure_text(via_sudo, output.stderr@),
    {
        if output.success {
            return Ok(output.stdout);
        }
        let stderr = output.stderr.as_str();
        if !via_sudo {
            let mut text = String::from_str("LXC command failed: ");
            text.append(stderr);
            return Err(text);
        }
        let mut text = String::from_str(
            "LXC operations require root privileges. Please run the orchestrator as root or configure passwordless sudo for LXC commands. Error: ",
        );
        if contains(stderr, "sudo: a password is required") {
            text.append("Passwordless sudo not configured for LXC commands");
        } else {
            text.append("LXC command with sudo failed: ");
            text.append(stderr);
        }
        assert(text@ =~= failure_text(via_sudo, output.stderr@));
        Err(text)
    }

    /// The arguments that list the containers.
    pub fn list_args() -> (args: Vec<String>)
        ensures
            texts(args@) == seq!["ls"@, "--line"@],
    {
        let mut args: Vec<String> = Vec::new();
        args.push(String::from_str("ls"));
        args.push(String::from_str("--line"));
        assert(texts(args@) =~= seq!["ls"@, "--line"@]);
        args
    }

    /// The names of the containers that a listing holds, one on each line.
    pub fn list(output: &str) -> (names: Vec<String>)
        ensures
            texts(names@) == names_in(lines_of(output@)),
    {
        let all = lines(output);
        let mut names: Vec<String> = Vec::new();
        let mut i: usize = 0;
        assert(texts(all@).take(0) =~= Seq::<Seq<char>>::empty());
        assert(texts(names@) =~= Seq::<Seq<char>>::empty());
        while i < all.len()
            invariant
                i <= all.len(),
                texts(names@) == names_in(texts(all@).take(i as int)),
            decreases all.len() - i,
        {
            let ghost before = texts(names@);
            let name = trim(all[i].as_str());
            proof {
                assert(texts(all@).take(i + 1).drop_last() =~= texts(all@).take(i as int));
                assert(texts(all@).take(i + 1).last() == all@[i as int]@);
            }
            if name.as_str().unicode_len() > 0 {
                let ghost text = name@;
                names.push(name);
                assert(texts(names@) =~= before.push(text));
            }
            i = i + 1;
        }
        assert(texts(all@).take(i as int) =~= texts(all@));
        names
    }

    /// Whether a listing holds the container `name`.
    pub fn container_exists(output: &str, name: &str) -> (found: bool)
        ensures
            found == names_in(lines_of(output@)).contains(name@),
    {
        let names = LxcCommand::list(output);
        list_contains(&names, name)
    }

    /// The arguments that ask for what is known of the container `name`.
    pub fn info_args(name: &str) -> (args: Vec<String>)
        ensures
            texts(args@) == seq!["info"@, name@],
    {
        let mut args: Vec<String> = Vec::new();
        args.push(String::from_str("info"));
        args.push(String::from_str(name));
        assert(texts(args@) =~= seq!["info"@, name@]);
        args
    }

    /// The state of a container, from what is printed about it: what the
    /// first line that begins with `State:` names, in lower case.
    pub fn state(output: &str) -> (state: Result<String, String>)
        ensures
            state is Ok <==> state_in(lines_of(output@), 0) is Some,
            state matches Ok(s) ==> Some(s@) == state_in(lines_of(output@), 0),
            state matches Err(e) ==> e@ == "Could not parse container state"@,
    {
        let all = lines(output);
        let mut i: usize = 0;
        while i < all.len()
            invariant
                i <= all.len(),
                texts(all@) == lines_of(output@),
                state_in(texts(all@), 0) == state_in(texts(all@), i as int),
            decreases all.len() - i,
        {
            let line = all[i].as_str();
            assert(line@ == texts(all@)[i as int]);
            if starts_with(line, "State:") {
                let chars = chars_of(line);
                let n = chars.len();
                let first = find_char(&chars, ':', 0);
                let field = if first < n {
                    let second = find_char(&chars, ':', first + 1);
                    piece(line, first + 1, second)
                } else {
                    String::new()
                };
                assert(field@ =~= second_field(line@));
                let inner = trim(field.as_str());
                return Ok(lowercase(inner.as_str()));
            }
            i = i + 1;
        }
        Err(String::from_str("Could not parse container state"))
    }
}

} // verus!
