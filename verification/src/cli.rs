//! Command line arguments.

use vstd::prelude::*;

use crate::cpuset;
use crate::number;
use crate::text;

verus! {

/// What the service is started with.
pub struct Options {
    pub config_file: String,
    pub game_file: String,
    /// The interval between two looks, in seconds.
    pub interval: u64,
    pub cpuset_name: String,
}

/// What the service is started with, for contracts.
#[verifier::ext_equal]
pub struct OptionsView {
    pub config_file: Seq<char>,
    pub game_file: Seq<char>,
    pub interval: u64,
    pub cpuset_name: Seq<char>,
}

impl View for Options {
    type V = OptionsView;

    open spec fn view(&self) -> OptionsView {
        OptionsView {
            config_file: self.config_file@,
            game_file: self.game_file@,
            interval: self.interval,
            cpuset_name: self.cpuset_name@,
        }
    }
}

/// The options that take a value.
#[derive(Clone, Copy, Debug, PartialEq, Eq, Structural)]
pub enum Flag {
    Config,
    Game,
    Interval,
    Cpuset,
}

/// What the arguments ask for.
#[derive(Clone, Copy, Debug, PartialEq, Eq, Structural)]
pub enum Request {
    /// To run.
    Run,
    /// To show the help text.
    Help,
    /// To show the version.
    Version,
    /// Nothing: the last argument is an option without its value.
    MissingValue(Flag),
    /// Nothing: this argument is no interval.
    BadInterval(usize),
    /// Nothing: this argument is no name for a base directory.
    BadCpusetName(usize),
    /// Nothing: this argument is no option.
    Unknown(usize),
}

/// What arguments say: the options that were accepted, in the order in which they
/// came, what they amount to, and what is asked for.
pub struct Arguments {
    pub options: Options,
    pub accepted: Vec<Flag>,
    pub request: Request,
}

/// What arguments say, for contracts.
#[verifier::ext_equal]
pub struct ArgumentsView {
    pub options: OptionsView,
    pub accepted: Seq<Flag>,
    pub request: Request,
}

impl View for Arguments {
    type V = ArgumentsView;

    open spec fn view(&self) -> ArgumentsView {
        ArgumentsView {
            options: self.options@,
            accepted: self.accepted@,
            request: self.request,
        }
    }
}

/// What the service is started with unless arguments say otherwise.
pub open spec fn default_options() -> OptionsView {
    OptionsView {
        config_file: "./applist.conf"@,
        game_file: "./game.conf"@,
        interval: 2,
        cpuset_name: "ThreadOpt"@,
    }
}

/// The option that takes a value and is spelled so.
pub open spec fn flag_of(arg: Seq<char>) -> Option<Flag> {
    if arg == "-c"@ {
        Some(Flag::Config)
    } else if arg == "-g"@ {
        Some(Flag::Game)
    } else if arg == "-s"@ {
        Some(Flag::Interval)
    } else if arg == "-b"@ {
        Some(Flag::Cpuset)
    } else {
        None
    }
}

/// The interval that a value stands for: a number of at least 1.
pub open spec fn interval_of(value: Seq<char>) -> Option<u64> {
    match number::spec_parse_unsigned(value, u64::MAX as nat) {
        Some(v) => if v >= 1 {
            Some(v as u64)
        } else {
            None
        },
        None => None,
    }
}

/// The options with one more set to a value, or what is asked for if the value does
/// not fit. `at` is the value's position.
pub open spec fn with_option(
    options: OptionsView,
    flag: Flag,
    value: Seq<char>,
    at: usize,
) -> Result<OptionsView, Request> {
    match flag {
        Flag::Config => Ok(OptionsView { config_file: value, ..options }),
        Flag::Game => Ok(OptionsView { game_file: value, ..options }),
        Flag::Interval => match interval_of(value) {
            Some(v) => Ok(OptionsView { interval: v, ..options }),
            None => Err(Request::BadInterval(at)),
        },
        Flag::Cpuset => if cpuset::is_cpuset_name(value) {
            Ok(OptionsView { cpuset_name: value, ..options })
        } else {
            Err(Request::BadCpusetName(at))
        },
    }
}

/// What the arguments from position `i` on say, after `options` and `accepted`. The
/// first that asks for something else than to run decides.
pub open spec fn arguments_from(
    args: Seq<Seq<char>>,
    i: int,
    options: OptionsView,
    accepted: Seq<Flag>,
) -> ArgumentsView
    decreases args.len() - i,
{
    if i >= args.len() {
        ArgumentsView { options, accepted, request: Request::Run }
    } else {
        match flag_of(args[i]) {
            Some(flag) => if i + 1 >= args.len() {
                ArgumentsView { options, accepted, request: Request::MissingValue(flag) }
            } else {
                match with_option(options, flag, args[i + 1], (i + 1) as usize) {
                    Ok(more) => arguments_from(args, i + 2, more, accepted.push(flag)),
                    Err(request) => ArgumentsView { options, accepted, request },
                }
            },
            None => ArgumentsView {
                options,
                accepted,
                request: if args[i] == "-v"@ {
                    Request::Version
                } else if args[i] == "-h"@ {
                    Request::Help
                } else {
                    Request::Unknown(i as usize)
                },
            },
        }
    }
}

fn read_flag(arg: &str) -> (r: Option<Flag>)
    ensures
        r == flag_of(arg@),
{
    if text::same(arg, "-c") {
        Some(Flag::Config)
    } else if text::same(arg, "-g") {
        Some(Flag::Game)
    } else if text::same(arg, "-s") {
        Some(Flag::Interval)
    } else if text::same(arg, "-b") {
        Some(Flag::Cpuset)
    } else {
        None
    }
}

fn read_interval(value: &str) -> (r: Option<u64>)
    ensures
        r == interval_of(value@),
{
    match number::parse_u64(value) {
        Some(v) => if v >= 1 {
            Some(v)
        } else {
            None
        },
        None => None,
    }
}

/// Sets an option, or tells what is asked for if the value does not fit.
fn set_option(options: &mut Options, flag: Flag, value: &String, at: usize) -> (r: Option<Request>)
    ensures
        match with_option(old(options)@, flag, value@, at) {
            Ok(more) => r is None && final(options)@ == more,
            Err(request) => r == Some(request) && final(options)@ == old(options)@,
        },
{
    match flag {
        Flag::Config => {
            options.config_file = value.clone();
        },
        Flag::Game => {
            options.game_file = value.clone();
        },
        Flag::Interval => match read_interval(value.as_str()) {
            Some(v) => {
                options.interval = v;
            },
            None => {
                return Some(Request::BadInterval(at));
            },
        },
        Flag::Cpuset => if cpuset::valid_cpuset_name(value.as_str()) {
            options.cpuset_name = value.clone();
        } else {
            return Some(Request::BadCpusetName(at));
        },
    }
    None
}

/// Reads the arguments of the program. The first is the program's own name.
pub fn parse_args(args: &Vec<String>) -> (r: Arguments)
    ensures
        r@ == arguments_from(text::texts(args@), 1, default_options(), Seq::empty()),
{
    let mut options = Options {
        config_file: "./applist.conf".to_owned(),
        game_file: "./game.conf".to_owned(),
        interval: 2,
        cpuset_name: cpuset::DEFAULT_CPUSET_NAME.to_owned(),
    };
    let mut accepted: Vec<Flag> = Vec::new();
    let ghost all = text::texts(args@);
    let ghost goal = arguments_from(all, 1, default_options(), Seq::empty());
    let n: usize = args.len();
    let mut i: usize = 1;
    assert(options@ =~= default_options());
    while i < n
        invariant
            n == args@.len(),
            1 <= i,
            all == text::texts(args@),
            goal == arguments_from(all, 1, default_options(), Seq::empty()),
            goal == arguments_from(all, i as int, options@, accepted@),
        decreases n - i,
    {
        let arg = args[i].as_str();
        assert(all[i as int] == arg@);
        match read_flag(arg) {
            Some(flag) => {
                if i + 1 >= n {
                    return Arguments { options, accepted, request: Request::MissingValue(flag) };
                }
                assert(all[i + 1] == args@[i + 1]@);
                if let Some(request) = set_option(&mut options, flag, &args[i + 1], i + 1) {
                    return Arguments { options, accepted, request };
                }
                accepted.push(flag);
                i = i + 2;
            },
            None => {
                let request = if text::same(arg, "-v") {
                    Request::Version
                } else if text::same(arg, "-h") {
                    Request::Help
                } else {
                    Request::Unknown(i)
                };
                return Arguments { options, accepted, request };
            },
        }
    }
    Arguments { options, accepted, request: Request::Run }
}

// ---------------------------------------------------------------------------
// Intervals
// ---------------------------------------------------------------------------
/// The seconds between two looks for the profile: two intervals, at least two
/// seconds.
pub fn detector_interval(interval: u64) -> (r: u64)
    requires
        2 * interval <= u64::MAX,
    ensures
        r == if interval >= 1 {
            2 * interval
        } else {
            2
        },
{
    let twice: u64 = 2 * interval;
    if twice >= 2 {
        twice
    } else {
        2
    }
}

/// The seconds after which all threads are bound once more: three intervals if the
/// kernel reports events, five if it does not.
pub fn resync_interval(interval: u64, events: bool) -> (r: u64)
    requires
        events ==> 3 * interval <= u64::MAX,
        !events ==> 5 * interval <= u64::MAX,
    ensures
        r == if events {
            3 * interval
        } else {
            5 * interval
        },
{
    if events {
        3 * interval
    } else {
        5 * interval
    }
}

/// Whether all threads are to be bound once more, so many seconds after the last time:
/// the time for it has come, or it is forced.
pub fn rebind_due(elapsed: u64, resync: u64, forced: bool) -> (r: bool)
    ensures
        r == (forced || elapsed >= resync),
{
    forced || elapsed >= resync
}

// ---------------------------------------------------------------------------
// What holds of arguments
// ---------------------------------------------------------------------------
/// Whatever the arguments are, the interval is at least 1 and the base directory has
/// a valid name.
pub proof fn law_options_are_valid(
    args: Seq<Seq<char>>,
    i: int,
    options: OptionsView,
    accepted: Seq<Flag>,
)
    requires
        0 <= i,
        options.interval >= 1,
        cpuset::is_cpuset_name(options.cpuset_name),
    ensures
        ({
            let r = arguments_from(args, i, options, accepted).options;
            r.interval >= 1 && cpuset::is_cpuset_name(r.cpuset_name)
        }),
    decreases args.len() - i,
{
    if i + 1 < args.len() {
        if let Some(flag) = flag_of(args[i]) {
            if let Ok(more) = with_option(options, flag, args[i + 1], (i + 1) as usize) {
                law_options_are_valid(args, i + 2, more, accepted.push(flag));
            }
        }
    }
}

/// Without arguments, the service runs with the default options, which are valid.
pub proof fn law_no_arguments(args: Seq<Seq<char>>)
    requires
        args.len() <= 1,
    ensures
        arguments_from(args, 1, default_options(), Seq::empty()) == (ArgumentsView {
            options: default_options(),
            accepted: Seq::empty(),
            request: Request::Run,
        }),
        default_options().interval >= 1,
        cpuset::is_cpuset_name(default_options().cpuset_name),
{
    reveal_strlit("ThreadOpt");
    text::lemma_first_of_at("ThreadOpt"@, '/', '/', 9);
}

} // verus!
