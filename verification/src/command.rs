//! The command builder and launch planner: turns parsed targets into the
//! editor client's argument syntax, escapes the command line when it is to
//! go through a shell, and maps the client's exit status back to this
//! program's own outcome.  The subprocess itself is spawned by the binary
//! around the library; everything decided here is verified.

use crate::args::Args;
use crate::args::ArgsModel;
use crate::args::TargetModel;
use crate::args::tokens_model;
use crate::num::dec_rep;
use crate::num::dec_rep_signed;
use crate::num::i32_to_string;
use crate::num::u32_to_string;
use vstd::prelude::*;

verus! {

/// A character the POSIX shell gives no special meaning: ASCII letters,
/// digits, and `- _ = / , . +`.
pub open spec fn shell_plain_char(c: char) -> bool {
    (97 <= c as u32 && c as u32 <= 122) || (65 <= c as u32 && c as u32 <= 90) || (48 <= c as u32
        && c as u32 <= 57) || c == '-' || c == '_' || c == '=' || c == '/' || c == ',' || c == '.'
        || c == '+'
}

/// How one character is written inside a single-quoted shell word: `'` and
/// `!` are written as a closing quote, a backslash-escaped character and a
/// reopening quote; everything else stands as it is.
pub open spec fn escaped_char(c: char) -> Seq<char> {
    if c == '\'' || c == '!' {
        seq!['\'', '\\', c, '\'']
    } else {
        seq![c]
    }
}

/// The body of a single-quoted shell word: each character written as
/// [`escaped_char`] says.
pub open spec fn escaped_body(s: Seq<char>) -> Seq<char>
    decreases s.len(),
{
    if s.len() == 0 {
        Seq::empty()
    } else {
        escaped_char(s[0]) + escaped_body(s.drop_first())
    }
}

/// A word quoted for the POSIX shell: a non-empty word of plain characters
/// is left as it is; anything else is wrapped in single quotes with its
/// body escaped.
pub open spec fn escape_spec(s: Seq<char>) -> Seq<char> {
    if s.len() > 0 && (forall|i: int| 0 <= i < s.len() ==> shell_plain_char(#[trigger] s[i])) {
        s
    } else {
        seq!['\''] + escaped_body(s) + seq!['\'']
    }
}

/// Relies on `shell_escape::unix::escape` (crate `shell-escape`): a
/// non-empty argument made only of whitelisted characters comes back
/// unchanged; any other argument comes back single-quoted, each `'` or `!`
/// of it written as `'\` + the character + `'`.
#[verifier::external_body]
fn escape_arg(s: &str) -> (r: String)
    ensures
        r@ == escape_spec(s@),
{
    shell_escape::unix::escape(std::borrow::Cow::Borrowed(s)).into_owned()
}

/// The position token emitted before a target's filename: `+line:column`
/// when the column is known (the line defaulting to 1), `+line` when only
/// the line is, nothing when neither is.
pub open spec fn position_token(t: TargetModel) -> Seq<Seq<char>> {
    match t.column {
        Some(c) => seq![
            "+"@ + dec_rep(
                (match t.line {
                    Some(l) => l,
                    None => 1u32,
                }) as nat,
            ) + ":"@ + dec_rep(c as nat),
        ],
        None => match t.line {
            Some(l) => seq!["+"@ + dec_rep(l as nat)],
            None => Seq::empty(),
        },
    }
}

/// What one target contributes to the client's argument list: its position
/// token, if any, immediately followed by its filename.
pub open spec fn target_args(t: TargetModel) -> Seq<Seq<char>> {
    position_token(t) + seq![t.filename]
}

/// What a list of targets contributes, in order.
pub open spec fn targets_args(ts: Seq<TargetModel>) -> Seq<Seq<char>>
    decreases ts.len(),
{
    if ts.len() == 0 {
        Seq::empty()
    } else {
        targets_args(ts.drop_last()) + target_args(ts.last())
    }
}

/// The client's full argument list: the no-block flag `-n` unless the user
/// asked to wait, then each target's arguments in order.
pub open spec fn client_args(a: ArgsModel) -> Seq<Seq<char>> {
    (if a.wait {
        Seq::<Seq<char>>::empty()
    } else {
        seq!["-n"@]
    }) + targets_args(a.targets)
}

/// Build the client's argument list, exactly as [`client_args`] describes.
pub fn build_client_args(args: &Args) -> (r: Vec<String>)
    ensures
        tokens_model(r@) == client_args(args@),
{
    let ghost ts = args@.targets;
    let ghost head: Seq<Seq<char>> = if args.wait {
        Seq::<Seq<char>>::empty()
    } else {
        seq!["-n"@]
    };
    let mut out: Vec<String> = Vec::new();
    if !args.wait {
        out.push(String::from_str("-n"));
    }
    proof {
        assert(tokens_model(out@) =~= head);
        assert(ts.take(0) =~= Seq::<TargetModel>::empty());
        assert(tokens_model(out@) =~= head + targets_args(ts.take(0)));
    }
    let n: usize = args.file_targets.len();
    let mut i: usize = 0;
    while i < n
        invariant
            0 <= i <= n,
            n == args.file_targets@.len(),
            ts == args@.targets,
            head == (if args.wait {
                Seq::<Seq<char>>::empty()
            } else {
                seq!["-n"@]
            }),
            tokens_model(out@) == head + targets_args(ts.take(i as int)),
        decreases n - i,
    {
        let ghost t_model = ts[i as int];
        proof {
            assert(ts.take(i + 1).drop_last() =~= ts.take(i as int));
            assert(ts.take(i + 1).last() == t_model);
        }
        let t = &args.file_targets[i];
        proof {
            assert(t@ == t_model);
        }
        match t.column {
            Some(c) => {
                let l: u32 = match t.line {
                    Some(l) => l,
                    None => 1,
                };
                let mut tok = String::from_str("+");
                tok.append(u32_to_string(l).as_str());
                tok.append(":");
                tok.append(u32_to_string(c).as_str());
                proof {
                    assert(tokens_model(out@.push(tok)) =~= tokens_model(out@).push(tok@));
                }
                out.push(tok);
            },
            None => {
                match t.line {
                    Some(l) => {
                        let mut tok = String::from_str("+");
                        tok.append(u32_to_string(l).as_str());
                        proof {
                            assert(tokens_model(out@.push(tok)) =~= tokens_model(out@).push(
                                tok@,
                            ));
                        }
                        out.push(tok);
                    },
                    None => {},
                }
            },
        }
        let name = t.filename.clone();
        proof {
            assert(tokens_model(out@.push(name)) =~= tokens_model(out@).push(name@));
        }
        out.push(name);
        proof {
            assert(tokens_model(out@) =~= head + targets_args(ts.take(i + 1)));
        }
        i = i + 1;
    }
    proof {
        assert(ts.take(n as int) =~= ts);
    }
    out
}

/// What follows the client's name on a shell command line: one space and
/// one escaped word per argument, in order.
pub open spec fn command_tail(argv: Seq<Seq<char>>) -> Seq<char>
    decreases argv.len(),
{
    if argv.len() == 0 {
        Seq::empty()
    } else {
        command_tail(argv.drop_last()) + " "@ + escape_spec(argv.last())
    }
}

/// The full shell command line: the client's invocation name followed by
/// every argument, escaped.
pub open spec fn shell_command(argv: Seq<Seq<char>>) -> Seq<char> {
    "emacsclient"@ + command_tail(argv)
}

/// Join the argument list into one escaped shell command line, exactly as
/// [`shell_command`] describes.
pub fn shell_command_line(argv: &Vec<String>) -> (r: String)
    ensures
        r@ == shell_command(tokens_model(argv@)),
{
    let ghost toks = tokens_model(argv@);
    let mut cmd = String::from_str("emacsclient");
    proof {
        assert(toks.take(0) =~= Seq::<Seq<char>>::empty());
        assert(cmd@ =~= "emacsclient"@ + command_tail(toks.take(0)));
    }
    let n: usize = argv.len();
    let mut i: usize = 0;
    while i < n
        invariant
            0 <= i <= n,
            n == argv@.len(),
            toks == tokens_model(argv@),
            cmd@ == "emacsclient"@ + command_tail(toks.take(i as int)),
        decreases n - i,
    {
        proof {
            assert(toks.take(i + 1).drop_last() =~= toks.take(i as int));
            assert(toks.take(i + 1).last() == toks[i as int]);
        }
        cmd.append(" ");
        let escaped = escape_arg(argv[i].as_str());
        cmd.append(escaped.as_str());
        i = i + 1;
    }
    proof {
        assert(toks.take(n as int) =~= toks);
    }
    cmd
}

/// Why launching failed.
#[derive(Debug)]
pub enum LaunchError {
    /// No file targets remained after parsing and filtering.
    NoFiles,
    /// The client exited with the carried non-zero code.
    ClientExit(i32),
    /// The client failed without a retrievable exit code.
    ClientFailed,
}

/// How the client is to be invoked.
#[derive(Debug)]
pub enum Invocation {
    /// Invoke the windowed client binary directly with this argument list;
    /// no shell is involved and nothing is escaped.
    Direct(Vec<String>),
    /// Hand this single escaped command line to a shell.
    Shell(String),
}

/// Decide how to invoke the client.  With no file targets nothing may be
/// launched; otherwise the invocation carries exactly the argument list of
/// [`client_args`], joined and escaped per [`shell_command`] when a shell
/// is in between.
pub fn plan_invocation(args: &Args, use_shell: bool) -> (r: Result<Invocation, LaunchError>)
    ensures
        args@.targets.len() == 0 ==> (r matches Err(e) && e matches LaunchError::NoFiles),
        args@.targets.len() > 0 && !use_shell ==> (r matches Ok(inv) && (inv matches
            Invocation::Direct(v) && tokens_model(v@) == client_args(args@))),
        args@.targets.len() > 0 && use_shell ==> (r matches Ok(inv) && (inv matches
            Invocation::Shell(c) && c@ == shell_command(client_args(args@)))),
{
    if args.file_targets.len() == 0 {
        return Err(LaunchError::NoFiles);
    }
    let argv = build_client_args(args);
    if use_shell {
        Ok(Invocation::Shell(shell_command_line(&argv)))
    } else {
        Ok(Invocation::Direct(argv))
    }
}

/// Map the client's termination status to this program's outcome: success
/// passes through; a failure with a known exit code carries that code; a
/// failure without one is reported as such.
pub fn exit_outcome(success: bool, code: Option<i32>) -> (r: Result<(), LaunchError>)
    ensures
        success ==> (r matches Ok(u) && u == ()),
        !success ==> (r matches Err(e) && e == (match code {
            Some(c) => LaunchError::ClientExit(c),
            None => LaunchError::ClientFailed,
        })),
{
    if success {
        Ok(())
    } else {
        match code {
            Some(c) => Err(LaunchError::ClientExit(c)),
            None => Err(LaunchError::ClientFailed),
        }
    }
}

/// What each launch diagnostic says.
pub open spec fn launch_error_message(e: LaunchError) -> Seq<char> {
    match e {
        LaunchError::NoFiles => "No file arguments provided"@,
        LaunchError::ClientExit(c) => "emacsclient error: "@ + dec_rep_signed(c as int),
        LaunchError::ClientFailed => "emacsclient error"@,
    }
}

impl LaunchError {
    /// A one-line diagnostic for this error.
    pub fn message(&self) -> (r: String)
        ensures
            r@ == launch_error_message(*self),
    {
        match self {
            LaunchError::NoFiles => String::from_str("No file arguments provided"),
            LaunchError::ClientExit(c) => {
                let mut s = String::from_str("emacsclient error: ");
                s.append(i32_to_string(*c).as_str());
                s
            },
            LaunchError::ClientFailed => String::from_str("emacsclient error"),
        }
    }
}

} // verus!
