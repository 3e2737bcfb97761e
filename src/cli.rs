//! Command-line rules: which command runs, which flag wins, and where the
//! stores live.
use vstd::prelude::*;

verus! {

#[derive(Clone, Copy, Debug, PartialEq, Eq, Structural)]
pub enum Command {
    /// Both phases, one after the other.
    Ingest,
    /// The load phase alone.
    Pbf,
    /// The process phase alone.
    Process,
    Changeset,
    Help,
    Version,
    /// No command given: print usage.
    Usage,
    Unknown,
}

pub open spec fn command_of(arg: Option<Seq<char>>) -> Command {
    match arg {
        None => Command::Usage,
        Some(s) => if s == "ingest"@ {
            Command::Ingest
        } else if s == "pbf"@ {
            Command::Pbf
        } else if s == "process"@ {
            Command::Process
        } else if s == "changeset"@ {
            Command::Changeset
        } else if s == "help"@ {
            Command::Help
        } else if s == "version"@ {
            Command::Version
        } else {
            Command::Unknown
        },
    }
}

fn is(s: &String, lit: &str) -> (r: bool)
    ensures
        r == (s@ == lit@),
{
    let l = lit.to_owned();
    *s == l
}

/// The command named by the first argument.
pub fn parse_command(arg: Option<&String>) -> (c: Command)
    ensures
        c == command_of(
            match arg {
                Some(s) => Some(s@),
                None => None,
            },
        ),
{
    match arg {
        None => Command::Usage,
        Some(s) => if is(s, "ingest") {
            Command::Ingest
        } else if is(s, "pbf") {
            Command::Pbf
        } else if is(s, "process") {
            Command::Process
        } else if is(s, "changeset") {
            Command::Changeset
        } else if is(s, "help") {
            Command::Help
        } else if is(s, "version") {
            Command::Version
        } else {
            Command::Unknown
        },
    }
}

/// The value of a flag given in its long form, else in its short form.
pub fn pick_flag(long: Option<String>, short: Option<String>) -> (r: Option<String>)
    ensures
        r == if long is Some { long } else { short },
{
    match long {
        Some(v) => Some(v),
        None => short,
    }
}

/// Where a store lives.
pub enum DirChoice {
    /// The directory given by its own flag.
    Given(String),
    /// The subdirectory of this name under the output directory.
    UnderOutdir { outdir: String, sub: String },
    Missing,
}

/// A store's own flag wins over the output directory; without either the
/// store is missing.
pub fn choose_dir(flag: Option<String>, outdir: Option<String>, sub: &str) -> (r: DirChoice)
    ensures
        flag matches Some(f) ==> (r matches DirChoice::Given(d) && d@ == f@),
        flag is None && outdir is Some ==> (r matches DirChoice::UnderOutdir { outdir: o, sub: s } && o@
            == outdir.unwrap()@ && s@ == sub@),
        flag is None && outdir is None ==> r is Missing,
{
    match flag {
        Some(f) => DirChoice::Given(f),
        None => match outdir {
            Some(o) => DirChoice::UnderOutdir { outdir: o, sub: sub.to_owned() },
            None => DirChoice::Missing,
        },
    }
}

/// The version string of this library.
pub fn get_version() -> (r: &'static str)
    ensures
        r@ == "1.0.0"@,
{
    "1.0.0"
}

} // verus!
