//! The command line of the calibration program and the choice of the market
//! data it calibrates on.

use vstd::prelude::*;

verus! {

/// Options of a calibration run.
pub struct CliArgs {
    /// Symbol whose option chain is fetched live, given by `--ticker SYMBOL`.
    pub ticker: Option<String>,
    /// Whether `--realistic` asks for the built-in stylised surface.
    pub realistic: bool,
}

/// What the command line asks for.
pub enum CliCommand {
    /// `--help` or `-h`: print the usage and stop.
    Help,
    /// Run the calibration with these options.
    Run(CliArgs),
}

/// Where the market quotes of a run come from.
pub enum SurfaceSource {
    /// The live option chain of this symbol.
    Live(String),
    /// The built-in stylised surface.
    Realistic,
    /// The saved quote file when there is one, else a synthetic surface.
    Stored,
}

/// Whether some argument is exactly `flag`.
pub open spec fn has_flag(args: Seq<Seq<char>>, flag: Seq<char>) -> bool {
    exists|i: int| 0 <= i < args.len() && #[trigger] args[i] == flag
}

/// Whether the arguments ask for the usage text.
pub open spec fn asks_help(args: Seq<Seq<char>>) -> bool {
    has_flag(args, "--help"@) || has_flag(args, "-h"@)
}

/// The argument that follows the first `--ticker` at or after position `i`
/// that has one after it.
pub open spec fn ticker_from(args: Seq<Seq<char>>, i: int) -> Option<Seq<char>>
    decreases args.len() - i,
{
    if i < 0 || i + 1 >= args.len() {
        None
    } else if args[i] == "--ticker"@ {
        Some(args[i + 1])
    } else {
        ticker_from(args, i + 1)
    }
}

/// `i` is the first `--ticker` among the arguments and a symbol follows it.
pub open spec fn first_ticker_flag(args: Seq<Seq<char>>, i: int) -> bool {
    &&& 0 <= i
    &&& i + 1 < args.len()
    &&& args[i] == "--ticker"@
    &&& forall|j: int| 0 <= j < i ==> args[j] != "--ticker"@
}

proof fn lemma_ticker_from_flag(args: Seq<Seq<char>>, i: int, k: int)
    requires
        first_ticker_flag(args, i),
        0 <= k <= i,
    ensures
        ticker_from(args, k) == Some(args[i + 1]),
    decreases i - k,
{
    if k < i {
        assert(args[k] != "--ticker"@);
        lemma_ticker_from_flag(args, i, k + 1);
    }
}

proof fn lemma_ticker_from_none(args: Seq<Seq<char>>, k: int)
    requires
        0 <= k,
        ticker_from(args, k) is None,
    ensures
        forall|j: int| k <= j && j + 1 < args.len() ==> args[j] != "--ticker"@,
    decreases args.len() - k,
{
    if k + 1 < args.len() {
        lemma_ticker_from_none(args, k + 1);
    }
}

/// The symbol is the argument right after the first `--ticker`, whenever one
/// follows it (a command line ending in `--ticker SYMBOL` gives `SYMBOL`); and
/// there is no symbol only when no `--ticker` is followed by an argument.
pub proof fn ticker_follows_first_flag(args: Seq<Seq<char>>)
    ensures
        forall|i: int| first_ticker_flag(args, i) ==> ticker_from(args, 0) == Some(args[i + 1]),
        ticker_from(args, 0) is None ==> forall|j: int|
            0 <= j && j + 1 < args.len() ==> args[j] != "--ticker"@,
{
    assert forall|i: int| first_ticker_flag(args, i) implies ticker_from(args, 0) == Some(
        args[i + 1],
    ) by {
        lemma_ticker_from_flag(args, i, 0);
    }
    if ticker_from(args, 0) is None {
        lemma_ticker_from_none(args, 0);
    }
}

fn has_argument(args: &Vec<String>, flag: &String) -> (found: bool)
    ensures
        found == has_flag(args.deep_view(), flag@),
{
    let ghost view = args.deep_view();
    let mut i: usize = 0;
    while i < args.len()
        invariant
            view == args.deep_view(),
            view.len() == args.len(),
            i <= args.len(),
            forall|t: int| 0 <= t < i ==> view[t] != flag@,
        decreases args.len() - i,
    {
        assert(view[i as int] == args[i as int]@);
        if args[i] == *flag {
            return true;
        }
        i += 1;
    }
    false
}

fn find_ticker(args: &Vec<String>) -> (ticker: Option<String>)
    ensures
        ticker is None <==> ticker_from(args.deep_view(), 0) is None,
        ticker matches Some(t) ==> ticker_from(args.deep_view(), 0) == Some(t@),
{
    let ghost view = args.deep_view();
    let ticker_flag = String::from_str("--ticker");
    let mut i: usize = 0;
    while args.len() - i > 1
        invariant
            view == args.deep_view(),
            view.len() == args.len(),
            ticker_flag@ == "--ticker"@,
            i <= args.len(),
            ticker_from(view, 0) == ticker_from(view, i as int),
        decreases args.len() - i,
    {
        assert(view[i as int] == args[i as int]@);
        if args[i] == ticker_flag {
            assert(view[i + 1] == args[i + 1]@);
            return Some(args[i + 1].clone());
        }
        i += 1;
    }
    None
}

/// Reads the command line (the program name included, as the process gives
/// it): `Help` when any argument is `--help` or `-h`; otherwise the symbol that
/// follows the first `--ticker` (if one follows it) and whether any argument is
/// `--realistic`.
pub fn parse_args(args: &Vec<String>) -> (cmd: CliCommand)
    ensures
        cmd is Help <==> asks_help(args.deep_view()),
        cmd matches CliCommand::Run(a) ==> {
            &&& a.realistic == has_flag(args.deep_view(), "--realistic"@)
            &&& a.ticker is None <==> ticker_from(args.deep_view(), 0) is None
            &&& a.ticker matches Some(t) ==> ticker_from(args.deep_view(), 0) == Some(t@)
            &&& forall|i: int|
                first_ticker_flag(args.deep_view(), i) ==> (a.ticker matches Some(t) && t@
                    == args.deep_view()[i + 1])
            &&& a.ticker is None ==> forall|j: int|
                0 <= j && j + 1 < args.len() ==> args.deep_view()[j] != "--ticker"@
        },
{
    proof {
        ticker_follows_first_flag(args.deep_view());
    }
    let help = String::from_str("--help");
    let short_help = String::from_str("-h");
    if has_argument(args, &help) || has_argument(args, &short_help) {
        return CliCommand::Help;
    }
    let ticker = find_ticker(args);
    let realistic_flag = String::from_str("--realistic");
    let realistic = has_argument(args, &realistic_flag);
    CliCommand::Run(CliArgs { ticker, realistic })
}

/// The source of the quotes: the live chain when a symbol was given, else the
/// stylised surface when `--realistic` was given, else the stored quotes.
pub fn surface_source(args: &CliArgs) -> (source: SurfaceSource)
    ensures
        args.ticker matches Some(t) ==> source matches SurfaceSource::Live(s) && s@ == t@,
        args.ticker is None && args.realistic ==> source is Realistic,
        args.ticker is None && !args.realistic ==> source is Stored,
{
    match &args.ticker {
        Some(t) => SurfaceSource::Live(t.clone()),
        None => if args.realistic {
            SurfaceSource::Realistic
        } else {
            SurfaceSource::Stored
        },
    }
}

} // verus!
