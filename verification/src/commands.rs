//! The commands of the program, and the options of its server.
use vstd::prelude::*;
use vstd::string::*;
use crate::text::same;

verus! {

/// What the program is asked to do.
#[derive(Debug, Clone, PartialEq, Eq)]
pub enum Command {
    Help,
    Version,
    Decode,
    Serve,
    Stdio,
    /// None of these: the complaint.
    Unknown(String),
}

/// The command that the arguments name.
pub fn command(args: &Vec<String>) -> (r: Command)
    ensures
        ({
            let all = args.deep_view();
            let first = all[0];
            match r {
                Command::Help => all.len() == 0 || first == "--help"@ || first == "-h"@ || first
                    == "help"@,
                Command::Version => all.len() > 0 && (first == "--version"@ || first == "-V"@),
                Command::Decode => all.len() > 0 && first == "decode"@,
                Command::Serve => all.len() > 0 && first == "serve"@,
                Command::Stdio => all.len() == 1 && first == "stdio"@,
                Command::Unknown(error) => {
                    &&& all.len() > 0
                    &&& first != "--help"@ && first != "-h"@ && first != "help"@
                    &&& first != "--version"@ && first != "-V"@
                    &&& first != "decode"@ && first != "serve"@
                    &&& first == "stdio"@ ==> all.len() > 1
                    &&& error@ == "unknown command or options: "@ + first + "; use --help"@
                },
            }
        }),
{
    if args.len() == 0 {
        return Command::Help;
    }
    assert(args.deep_view()[0] == args@[0]@);
    let first: &str = args[0].as_str();
    if same(first, "--help") || same(first, "-h") || same(first, "help") {
        Command::Help
    } else if same(first, "--version") || same(first, "-V") {
        Command::Version
    } else if same(first, "decode") {
        Command::Decode
    } else if same(first, "serve") {
        Command::Serve
    } else if same(first, "stdio") && args.len() == 1 {
        Command::Stdio
    } else {
        let mut error: String = "unknown command or options: ".to_owned();
        error.append(first);
        error.append("; use --help");
        Command::Unknown(error)
    }
}

/// What the server is asked for: the argument that holds its address, and whether
/// it stops after one client.
#[derive(Debug, Clone, Copy, PartialEq, Eq)]
pub struct ServeRequest {
    pub address: Option<usize>,
    pub once: bool,
}

/// The request after the arguments from `i` on.
pub open spec fn serve_from(
    r: ServeRequest,
    args: Seq<Seq<char>>,
    loopback: Seq<Option<bool>>,
    i: int,
) -> Result<ServeRequest, Seq<char>>
    decreases args.len() - i,
{
    if i >= args.len() {
        match r.address {
            Some(at) if loopback[at as int] != Some(true) => Err(
                "only localhost loopback addresses are supported"@,
            ),
            _ => Ok(r),
        }
    } else if args[i] == "--bind"@ {
        if i + 1 >= args.len() {
            Err("missing option value"@)
        } else if loopback[i + 1] is None {
            Err("invalid listen address: "@ + args[i + 1])
        } else {
            serve_from(
                ServeRequest { address: Some((i + 1) as usize), ..r },
                args,
                loopback,
                i + 2,
            )
        }
    } else if args[i] == "--once"@ {
        serve_from(ServeRequest { once: true, ..r }, args, loopback, i + 1)
    } else {
        Err("unknown serve option: "@ + args[i])
    }
}

/// Reads the arguments of the serve command. `loopback` says of each argument
/// whether it is a loopback address, where it is a socket address at all.
pub fn serve_request(args: &Vec<String>, loopback: &Vec<Option<bool>>) -> (r: Result<
    ServeRequest,
    String,
>)
    requires
        loopback.len() == args.len(),
    ensures
        ({
            let none = ServeRequest { address: None, once: false };
            let expected = serve_from(none, args.deep_view(), loopback@, 0);
            match r {
                Ok(request) => expected == Ok::<ServeRequest, Seq<char>>(request)
                    && (request.address matches Some(at) ==> at < args.len()),
                Err(error) => expected == Err::<ServeRequest, Seq<char>>(error@),
            }
        }),
{
    let mut request: ServeRequest = ServeRequest { address: None, once: false };
    let ghost all = args.deep_view();
    let ghost expected = serve_from(request, all, loopback@, 0);
    let mut i: usize = 0;
    while i < args.len()
        invariant
            i <= args.len(),
            loopback.len() == args.len(),
            all == args.deep_view(),
            expected == serve_from(
                ServeRequest { address: None, once: false },
                all,
                loopback@,
                0,
            ),
            request.address matches Some(at) ==> at < args.len(),
            expected == serve_from(request, all, loopback@, i as int),
        decreases args.len() - i,
    {
        assert(all[i as int] == args@[i as int]@);
        let option: &str = args[i].as_str();
        if same(option, "--bind") {
            if i + 1 >= args.len() {
                return Err("missing option value".to_owned());
            }
            assert(all[i + 1] == args@[i + 1]@);
            if loopback[i + 1].is_none() {
                let mut error: String = "invalid listen address: ".to_owned();
                error.append(args[i + 1].as_str());
                return Err(error);
            }
            request.address = Some(i + 1);
            i = i + 2;
        } else if same(option, "--once") {
            request.once = true;
            i = i + 1;
        } else {
            let mut error: String = "unknown serve option: ".to_owned();
            error.append(option);
            return Err(error);
        }
    }
    match request.address {
        Some(at) => {
            match loopback[at] {
                Some(true) => {},
                _ => {
                    return Err("only localhost loopback addresses are supported".to_owned());
                },
            }
        },
        None => {},
    }
    Ok(request)
}

} // verus!
