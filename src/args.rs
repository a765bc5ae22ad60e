use vstd::prelude::*;
use vstd::string::*;

verus! {

/// A second positional argument, where only one script is taken.
#[derive(Debug)]
pub struct UnexpectedArg(pub String);

/// An argument that starts with `-` and names no known flag.
#[derive(Debug)]
pub struct UnknownFlag(pub String);

#[derive(Debug)]
pub enum ArgError {
    UnexpectedArg(UnexpectedArg),
    UnknownFlag(UnknownFlag),
}

/// The command line, read.
#[derive(Debug)]
pub struct Args {
    pub program: String,
    pub show_help: bool,
    pub show_version: bool,
    pub file: Option<String>,
}

/// What the arguments read so far say.
pub struct ArgScan {
    pub help: bool,
    pub version: bool,
    pub file: Option<Seq<char>>,
}

/// Why reading the arguments stopped: an unknown flag, or an extra argument.
pub enum ArgFault {
    Flag(Seq<char>),
    Extra(Seq<char>),
}

pub open spec fn is_flag(a: Seq<char>) -> bool {
    a.len() > 0 && a[0] == '-'
}

pub open spec fn is_help(a: Seq<char>) -> bool {
    a == "-h"@ || a == "--help"@
}

pub open spec fn is_version(a: Seq<char>) -> bool {
    a == "-v"@ || a == "--version"@
}

/// Reads `args` from index `i` on, given what the earlier ones said: a flag
/// sets what it names, the first other argument is the script, and an
/// unknown flag or a second script stops the reading.
pub open spec fn scan_args(args: Seq<Seq<char>>, i: int, acc: ArgScan) -> Result<ArgScan, ArgFault>
    decreases args.len() - i,
{
    if i < 0 || i >= args.len() {
        Ok(acc)
    } else if is_flag(args[i]) {
        if is_help(args[i]) {
            scan_args(args, i + 1, ArgScan { help: true, ..acc })
        } else if is_version(args[i]) {
            scan_args(args, i + 1, ArgScan { version: true, ..acc })
        } else {
            Err(ArgFault::Flag(args[i]))
        }
    } else if acc.file is None {
        scan_args(args, i + 1, ArgScan { file: Some(args[i]), ..acc })
    } else {
        Err(ArgFault::Extra(args[i]))
    }
}

pub open spec fn strings_view(v: Seq<String>) -> Seq<Seq<char>> {
    v.map_values(|s: String| s@)
}

pub open spec fn file_view(f: Option<String>) -> Option<Seq<char>> {
    match f {
        Some(s) => Some(s@),
        None => None,
    }
}

fn starts_with_dash(s: &String) -> (r: bool)
    ensures
        r == is_flag(s@),
{
    let t = s.as_str();
    t.unicode_len() > 0 && t.get_char(0) == '-'
}

fn is_one_of(s: &String, a: &str, b: &str) -> (r: bool)
    ensures
        r == (s@ == a@ || s@ == b@),
{
    let x = String::from_str(a);
    let y = String::from_str(b);
    *s == x || *s == y
}

impl Args {
    /// Reads a command line (the program's name, then its arguments): `-h` or
    /// `--help` and `-v` or `--version` set their flags, one other argument
    /// names the script.
    pub fn from_cmd(args: &Vec<String>) -> (r: Result<Args, ArgError>)
        ensures
            match scan_args(strings_view(args@), 1, ArgScan { help: false, version: false, file: None }) {
                Ok(s) => r matches Ok(a) && a.show_help == s.help && a.show_version == s.version
                    && file_view(a.file) == s.file && (args@.len() > 0 ==> a.program == args@[0]),
                Err(ArgFault::Flag(f)) => r matches Err(ArgError::UnknownFlag(e)) && e.0@ == f,
                Err(ArgFault::Extra(f)) => r matches Err(ArgError::UnexpectedArg(e)) && e.0@ == f,
            },
    {
        let ghost sv = strings_view(args@);
        let program = if args.len() > 0 {
            args[0].clone()
        } else {
            String::from_str("<program>")
        };
        let mut show_help = false;
        let mut show_version = false;
        let mut file: Option<String> = None;
        let mut i: usize = 1;
        while i < args.len()
            invariant
                1 <= i,
                i <= args.len() || args.len() == 0,
                sv == strings_view(args@),
                scan_args(sv, i as int, ArgScan { help: show_help, version: show_version, file: file_view(file) })
                    == scan_args(sv, 1, ArgScan { help: false, version: false, file: None }),
            decreases args.len() - i,
        {
            let arg = &args[i];
            proof {
                assert(sv[i as int] == arg@);
            }
            if starts_with_dash(arg) {
                if is_one_of(arg, "-h", "--help") {
                    show_help = true;
                } else if is_one_of(arg, "-v", "--version") {
                    show_version = true;
                } else {
                    return Err(ArgError::UnknownFlag(UnknownFlag(arg.clone())));
                }
            } else if file.is_none() {
                file = Some(arg.clone());
            } else {
                return Err(ArgError::UnexpectedArg(UnexpectedArg(arg.clone())));
            }
            i = i + 1;
        }
        proof {
            assert(i >= args.len());
        }
        Ok(Args { program, show_help, show_version, file })
    }
}

} // verus!
