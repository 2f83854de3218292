//! Command lines: the headless todo daemon's `serve` / `status` /
//! `shutdown`, and the `recipe` subcommands with the checks they make
//! before any file is read.

use vstd::prelude::*;

use crate::run::ScreenshotCapture;
use crate::text::{strings_view, strs_view};

verus! {

/// What `clap` makes of `args` for a command named `bin` whose only
/// arguments are the optional subcommands `subcommands`: the name of the
/// subcommand used, or the text of clap's error.
pub uninterp spec fn clap_subcommand(
    bin: Seq<char>,
    subcommands: Seq<Seq<char>>,
    args: Seq<Seq<char>>,
) -> Result<Option<Seq<char>>, Seq<char>>;

/// A parse outcome by its views.
pub open spec fn subcommand_view(r: Result<Option<String>, String>) -> Result<Option<Seq<char>>, Seq<char>> {
    match r {
        Ok(Some(n)) => Ok(Some(n@)),
        Ok(None) => Ok(None),
        Err(e) => Err(e@),
    }
}

/// Whether the parse outcome `r` used the subcommand `name`.
pub open spec fn used_subcommand(r: Result<Option<String>, String>, name: Seq<char>) -> bool {
    r matches Ok(Some(n)) && n@ == name
}

/// Subcommand names clap takes without a debug-build panic and without
/// clashing with its own flags or its `help` subcommand: non-empty, not
/// starting with `-`, not `help`, and pairwise distinct.
pub open spec fn valid_subcommand_names(subs: Seq<Seq<char>>) -> bool {
    &&& forall|i: int| 0 <= i < subs.len() ==> (#[trigger] subs[i]).len() > 0 && subs[i][0] != '-'
        && subs[i] != "help"@
    &&& forall|i: int, j: int| 0 <= i < j < subs.len() ==> #[trigger] subs[i] != #[trigger] subs[j]
}

/// `clap::Command::try_get_matches_from` on a command named `bin` with the
/// subcommands `subcommands` and nothing else, reduced by
/// `ArgMatches::subcommand_name` (or the error's `to_string`). Claimed of
/// it: the result is a function of the three arguments; a name that comes
/// back is one of `subcommands`; with nothing after the program name no
/// subcommand is used (clap's subcommands are optional by default); with
/// exactly one argument that names a subcommand, that subcommand is used.
/// The names must be ones clap accepts (`valid_subcommand_names`): clap
/// panics in debug builds on a repeated name, and answers its own help for
/// `-h`, `--help` and `help`.
#[verifier::external_body]
fn subcommand_of(bin: &'static str, subs: &Vec<&'static str>, args: &Vec<String>) -> (r: Result<Option<String>, String>)
    requires
        valid_subcommand_names(strs_view(subs@)),
    ensures
        subcommand_view(r) == clap_subcommand(bin@, strs_view(subs@), strings_view(args@)),
        r matches Ok(Some(n)) ==> strs_view(subs@).contains(n@),
        args@.len() == 1 ==> r matches Ok(None),
        args@.len() == 2 && strs_view(subs@).contains(args@[1]@) ==> used_subcommand(r, args@[1]@),
{
    let cmd = clap::Command::new(bin).subcommands(
        subs.iter().map(|s| clap::Command::new(*s)),
    );
    match cmd.try_get_matches_from(args.iter()) {
        Ok(m) => Ok(m.subcommand_name().map(|s| s.to_owned())),
        Err(e) => Err(e.to_string()),
    }
}

/// A subcommand of the headless todo daemon.
#[derive(Debug, Clone, Copy, PartialEq, Eq, Structural)]
pub enum Command {
    /// Bind the agent protocol and serve until shutdown (the default).
    Serve,
    /// Print hello/ready from a running daemon.
    Status,
    /// Ask a running daemon to exit.
    Shutdown,
}

/// The subcommand named `name`.
pub open spec fn command_named(name: Seq<char>) -> Option<Command> {
    if name == "serve"@ {
        Some(Command::Serve)
    } else if name == "status"@ {
        Some(Command::Status)
    } else if name == "shutdown"@ {
        Some(Command::Shutdown)
    } else {
        None
    }
}

/// The names of the daemon's subcommands, in declaration order.
pub open spec fn command_names() -> Seq<Seq<char>> {
    seq!["serve"@, "status"@, "shutdown"@]
}

/// The headless todo daemon's command line.
#[derive(Debug, Clone, Copy, PartialEq, Eq, Structural)]
pub struct Cli {
    pub command: Option<Command>,
}

impl Cli {
    /// The subcommand to run: the one given, else `serve`.
    pub fn command_or_default(&self) -> (r: Command)
        ensures
            r == match self.command {
                Some(c) => c,
                None => Command::Serve,
            },
    {
        match self.command {
            Some(c) => c,
            None => Command::Serve,
        }
    }

    /// Parse `args` (program name first) as clap does for `todo-headless`.
    pub fn try_parse_from(args: &Vec<String>) -> (r: Result<Cli, String>)
        ensures
            match clap_subcommand("todo-headless"@, command_names(), strings_view(args@)) {
                Ok(None) => r == Ok::<Cli, String>(Cli { command: None }),
                Ok(Some(n)) => match command_named(n) {
                    Some(c) => r == Ok::<Cli, String>(Cli { command: Some(c) }),
                    None => r is Err,
                },
                Err(e) => r matches Err(m) && m@ == e,
            },
            args@.len() == 1 ==> r == Ok::<Cli, String>(Cli { command: None }),
            args@.len() == 2 && command_named(args@[1]@) is Some ==> r == Ok::<Cli, String>(
                Cli { command: command_named(args@[1]@) },
            ),
    {
        let mut names: Vec<&'static str> = Vec::new();
        names.push("serve");
        names.push("status");
        names.push("shutdown");
        proof {
            reveal_strlit("serve");
            reveal_strlit("status");
            reveal_strlit("shutdown");
            reveal_strlit("help");
            assert(strs_view(names@) =~= command_names());
            assert(valid_subcommand_names(command_names())) by {
                assert("serve"@[0] == 's' && "status"@[0] == 's' && "shutdown"@[0] == 's');
                assert("serve"@.len() != "status"@.len());
                assert("serve"@.len() != "shutdown"@.len());
                assert("status"@.len() != "shutdown"@.len());
                assert("serve"@ != "help"@ && "status"@ != "help"@ && "shutdown"@ != "help"@) by {
                    assert("serve"@[0] != "help"@[0]);
                    assert("status"@[0] != "help"@[0]);
                    assert("shutdown"@[0] != "help"@[0]);
                }
            }
            if args@.len() == 2 && command_named(args@[1]@) is Some {
                assert(command_names().contains(args@[1]@)) by {
                    if args@[1]@ == "serve"@ {
                        assert(command_names()[0] == args@[1]@);
                    } else if args@[1]@ == "status"@ {
                        assert(command_names()[1] == args@[1]@);
                    } else {
                        assert(command_names()[2] == args@[1]@);
                    }
                }
            }
        }
        let bin = "todo-headless";
        match subcommand_of(bin, &names, args) {
            Ok(None) => Ok(Cli { command: None }),
            Ok(Some(n)) => {
                let s = n.as_str();
                if crate::text::str_eq(s, "serve") {
                    Ok(Cli { command: Some(Command::Serve) })
                } else if crate::text::str_eq(s, "status") {
                    Ok(Cli { command: Some(Command::Status) })
                } else if crate::text::str_eq(s, "shutdown") {
                    Ok(Cli { command: Some(Command::Shutdown) })
                } else {
                    Err(n)
                }
            },
            Err(e) => Err(e),
        }
    }
}

/// The `recipe` subcommands. Paths are as the user typed them; `-` is
/// standard input.
#[derive(Debug, Clone)]
pub enum RecipeCommand {
    /// Lint a recipe. No host required.
    Validate { path: String },
    /// Compile a recipe to a dependency plan. No host required.
    Plan { path: String, set: Vec<String>, order_check: bool },
    /// Run the compiled plan on one reused session.
    Run {
        path: String,
        set: Vec<String>,
        yes: bool,
        receipt_out: Option<String>,
        screenshot_dir: Option<String>,
        screenshot_flagged: bool,
    },
    /// Map a natural-language intent through the schema registry.
    Resolve { intent: String },
}

/// The error when per-step screenshots are limited to flagged steps but
/// no directory was given.
pub open spec fn flagged_needs_dir() -> Seq<char> {
    "--screenshot-flagged requires --screenshot-dir DIR"@
}

impl RecipeCommand {
    /// The screenshot capture a `run` asks for: none without
    /// `--screenshot-dir`, and an error for `--screenshot-flagged` alone.
    /// Other subcommands capture nothing.
    pub fn screenshot_capture(&self) -> (r: Result<Option<ScreenshotCapture>, String>)
        ensures
            match self {
                RecipeCommand::Run { screenshot_dir, screenshot_flagged, .. } => match screenshot_dir {
                    Some(d) => r matches Ok(Some(c)) && c.dir@ == d@ && c.flagged_only
                        == *screenshot_flagged,
                    None => if *screenshot_flagged {
                        r matches Err(e) && e@ == flagged_needs_dir()
                    } else {
                        r matches Ok(None)
                    },
                },
                _ => r matches Ok(None),
            },
    {
        match self {
            RecipeCommand::Run { screenshot_dir, screenshot_flagged, .. } => match screenshot_dir {
                Some(d) => Ok(Some(ScreenshotCapture { dir: d.clone(), flagged_only: *screenshot_flagged })),
                None => if *screenshot_flagged {
                    Err("--screenshot-flagged requires --screenshot-dir DIR".to_owned())
                } else {
                    Ok(None)
                },
            },
            _ => Ok(None),
        }
    }
}


/// The error when `what` is started without the host's token.
pub open spec fn token_required(what: Seq<char>) -> Seq<char> {
    what + " requires a non-empty --token or GPUI_AGENT_TOKEN (the host's token)"@
}

/// `recipe run` and `mcp` drive a host with side effects, so they need the
/// host's token before anything else happens: the token when one was given
/// and is non-empty, else an error that names `GPUI_AGENT_TOKEN`.
pub fn require_token(token: Option<&str>, what: &str) -> (r: Result<String, String>)
    ensures
        (token matches Some(t) && t@.len() > 0) ==> (r matches Ok(s) && s@ == token.unwrap()@),
        !(token matches Some(t) && t@.len() > 0) ==> (r matches Err(e) && e@ == token_required(what@)),
{
    match token {
        Some(t) => {
            if t.unicode_len() > 0 {
                return Ok(t.to_owned());
            }
        },
        None => {},
    }
    let mut e = what.to_owned();
    e.append(" requires a non-empty --token or GPUI_AGENT_TOKEN (the host's token)");
    Err(e)
}

} // verus!
