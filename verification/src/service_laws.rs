//! What holds of profiles, the foreground, watching, the log and the command line.

use vstd::prelude::*;

use crate::apply_log;
use crate::apply_log::LogTime;
use crate::cli;
use crate::cli::Arguments;
use crate::cli::ArgumentsView;
use crate::cli::Flag;
use crate::cli::OptionsView;
use crate::cli::Request;
use crate::cpuset;
use crate::foreground;
use crate::foreground::ProcEntry;
use crate::mode;
use crate::mode::Mode;
use crate::mode::Override;
use crate::mode::ProfileState;
use crate::number;
use crate::text;
use crate::watch;
use crate::watch::ByteOrder;
use crate::watch::WatchEvent;
use crate::watch::WatchMasks;
use crate::watch::WatchState;
use crate::watch::WatchStep;

verus! {

// ---------------------------------------------------------------------------
// Profiles
// ---------------------------------------------------------------------------
/// An override, in lower case and without the white space around it, asks to follow the
/// foreground if it is empty or `auto`, for saving power if it is `power`, `battery` or
/// `eco`, for games if it is `game`, `performance` or `gaming`, and otherwise for nothing.
pub proof fn law_override_words(content: Seq<char>)
    ensures
        ({
            let w = text::ascii_lowercase(text::spec_trim(content));
            let asked = mode::spec_parse_override(content);
            let follow = w.len() == 0 || w == "auto"@;
            let power = w == "power"@ || w == "battery"@ || w == "eco"@;
            let game = w == "game"@ || w == "performance"@ || w == "gaming"@;
            &&& follow <==> asked == Some(Override::Auto)
            &&& power <==> asked == Some(Override::Mode(Mode::Power))
            &&& game <==> asked == Some(Override::Mode(Mode::Game))
            &&& !follow && !power && !game <==> asked is None
        }),
{
    reveal_strlit("auto");
    reveal_strlit("power");
    reveal_strlit("battery");
    reveal_strlit("eco");
    reveal_strlit("game");
    reveal_strlit("performance");
    reveal_strlit("gaming");
    assert("auto"@[0] == 'a');
    assert("power"@[1] == 'o');
    assert("performance"@[1] == 'e');
    assert("battery"@[0] == 'b');
    assert("eco"@[0] == 'e');
    assert("game"@[0] == 'g');
    assert("gaming"@[0] == 'g');
    assert("power"@[0] == 'p');
    assert("performance"@[0] == 'p');
}

/// The profile that is asked for decides; otherwise the one for games is used exactly if a
/// game is in the foreground.
pub proof fn law_profile_in_use(asked: Option<Override>, game_foreground: bool)
    ensures
        ({
            let used = mode::decided_mode(asked, game_foreground);
            &&& asked matches Some(Override::Mode(m)) ==> used == m
            &&& asked is None || asked == Some(Override::Auto) ==> (used == Mode::Game
                <==> game_foreground)
        }),
{
}

/// The profiles are named `power` and `game`, and each has its file.
pub proof fn law_profile_names_and_files(config_file: Seq<char>, game_file: Seq<char>)
    ensures
        mode::mode_name(Mode::Power) == "power"@,
        mode::mode_name(Mode::Game) == "game"@,
        mode::spec_profile_file(Mode::Power, config_file, game_file) == config_file,
        mode::spec_profile_file(Mode::Game, config_file, game_file) == game_file,
{
}

/// A profile is loaded exactly if it was announced and is not in effect. It comes into effect
/// exactly if it could be loaded, and otherwise stays announced.
pub proof fn law_switch(s: ProfileState, target: Mode, loaded: bool)
    ensures
        ({
            let wanted = mode::wanted_profile(s, target);
            let after = mode::switched(s, target, loaded);
            let due = s.announced && target != s.effective;
            &&& due ==> wanted == Some(target)
            &&& !due ==> wanted is None && after.effective == s.effective && !after.announced
            &&& due && loaded ==> after.effective == target && !after.announced
            &&& due && !loaded ==> after.effective == s.effective && after.announced
        }),
{
}

/// A configuration fits a profile exactly if there is one and it comes from the file of the
/// profile.
pub proof fn law_fitting_file(
    file: Option<Seq<char>>,
    config_file: Seq<char>,
    game_file: Seq<char>,
)
    ensures
        mode::fits_profile(Mode::Power, file, config_file, game_file) <==> file is Some && file->0
            == config_file,
        mode::fits_profile(Mode::Game, file, config_file, game_file) <==> file is Some && file->0
            == game_file,
{
}

// ---------------------------------------------------------------------------
// The foreground
// ---------------------------------------------------------------------------
/// A game is in the foreground exactly if an entry whose name is a number runs it and its
/// adjustment, without the white space around it, is a number of at most 100.
pub proof fn law_foreground(entry: ProcEntry, games: Seq<Seq<char>>)
    ensures
        foreground::is_foreground_game(entry, games) <==> {
            &&& number::spec_parse_signed(entry.name@, -0x8000_0000, 0x7fff_ffff) is Some
            &&& entry.pkg is Some && games.contains(entry.pkg->0@)
            &&& entry.adj is Some
            &&& number::spec_parse_signed(
                text::spec_trim(entry.adj->0@),
                -0x8000_0000,
                0x7fff_ffff,
            ) is Some
            &&& number::spec_parse_signed(
                text::spec_trim(entry.adj->0@),
                -0x8000_0000,
                0x7fff_ffff,
            )->0 <= 100
        },
        entry.adj is Some ==> foreground::spec_oom_score_adj(entry.adj->0@)
            == number::spec_parse_signed(
            text::spec_trim(entry.adj->0@),
            -0x8000_0000,
            0x7fff_ffff,
        ),
{
}

// ---------------------------------------------------------------------------
// Watching
// ---------------------------------------------------------------------------
/// A record takes 16 bytes and as many more as the last four of them say. Its mask is in the
/// second four. Both numbers are in the byte order of the machine. Less than 16 bytes hold
/// no record.
pub proof fn law_event_records(buf: Seq<u8>, i: int)
    requires
        0 <= i,
    ensures
        i + 16 > buf.len() ==> watch::event_masks(buf, i, ByteOrder::LittleEndian).len() == 0
            && watch::event_masks(buf, i, ByteOrder::BigEndian).len() == 0,
        i + 16 <= buf.len() ==> {
            let mask = buf[i + 4] + 256 * buf[i + 5] + 65536 * buf[i + 6] + 16777216 * buf[i + 7];
            let name = buf[i + 12] + 256 * buf[i + 13] + 65536 * buf[i + 14] + 16777216 * buf[i
                + 15];
            watch::event_masks(buf, i, ByteOrder::LittleEndian) == seq![mask as u32]
                + watch::event_masks(buf, i + 16 + name, ByteOrder::LittleEndian)
        },
        i + 16 <= buf.len() ==> {
            let mask = buf[i + 7] + 256 * buf[i + 6] + 65536 * buf[i + 5] + 16777216 * buf[i + 4];
            let name = buf[i + 15] + 256 * buf[i + 14] + 65536 * buf[i + 13] + 16777216 * buf[i
                + 12];
            watch::event_masks(buf, i, ByteOrder::BigEndian) == seq![mask as u32]
                + watch::event_masks(buf, i + 16 + name, ByteOrder::BigEndian)
        },
{
}

proof fn lemma_some_bit(x: u32, c: u32, d: u32, v: u32)
    by (bit_vector)
    ensures
        (x & (c | d | v) != 0) == (x & c != 0 || x & d != 0 || x & v != 0),
        (x & (d | v) != 0) == (x & d != 0 || x & v != 0),
{
}

/// The file is to be read again exactly if an event tells that it was written and closed,
/// deleted or moved, and is to be watched anew exactly if one tells that it was deleted or
/// moved.
pub proof fn law_needs(masks: Seq<u32>, m: WatchMasks)
    ensures
        watch::needs_of(masks, m).reload <==> exists|k: int|
            0 <= k < masks.len() && ((#[trigger] masks[k]) & m.close_write != 0 || masks[k]
                & m.delete_self != 0 || masks[k] & m.move_self != 0),
        watch::needs_of(masks, m).rewatch <==> exists|k: int|
            0 <= k < masks.len() && ((#[trigger] masks[k]) & m.delete_self != 0 || masks[k]
                & m.move_self != 0),
{
    assert forall|k: int| 0 <= k < masks.len() implies watch::asks_reload(#[trigger] masks[k], m)
        == (masks[k] & m.close_write != 0 || masks[k] & m.delete_self != 0 || masks[k] & m.move_self
        != 0) && watch::asks_rewatch(masks[k], m) == (masks[k] & m.delete_self != 0 || masks[k]
        & m.move_self != 0) by {
        lemma_some_bit(masks[k], m.close_write, m.delete_self, m.move_self);
    }
    if watch::needs_of(masks, m).reload {
        let k = choose|k: int|
            0 <= k < masks.len() && watch::asks_reload(#[trigger] masks[k], m);
        assert(masks[k] & m.close_write != 0 || masks[k] & m.delete_self != 0 || masks[k]
            & m.move_self != 0);
    }
    if watch::needs_of(masks, m).rewatch {
        let k = choose|k: int|
            0 <= k < masks.len() && watch::asks_rewatch(#[trigger] masks[k], m);
        assert(masks[k] & m.delete_self != 0 || masks[k] & m.move_self != 0);
    }
}

/// A round waits first. Events are read until there are no more; then the file is watched
/// anew if an event asked for that, and read again if one asked for that and watching anew
/// did not fail. A failure to wait or to read gives up watching. Everything else ends the
/// round.
pub proof fn law_watch_steps(s: WatchState, event: WatchEvent)
    ensures
        watch::round_start().step == WatchStep::Poll,
        !watch::round_start().needs.reload && !watch::round_start().needs.rewatch,
        ({
            let n = watch::watched(s, event);
            &&& s.step is Poll ==> n.step == match event {
                WatchEvent::PollReady => WatchStep::Read,
                WatchEvent::PollFailed => WatchStep::Disable,
                _ => WatchStep::Done,
            }
            &&& s.step is Read && event is ReadFailed ==> n.step == WatchStep::Disable
            &&& s.step is Read && event is ReadEvents ==> n.step == WatchStep::Read
            &&& s.step is Read && event is ReadDrained && s.needs.rewatch ==> n.step
                == WatchStep::Rewatch
            &&& s.step is Read && event is ReadDrained && !s.needs.rewatch && s.needs.reload
                ==> n.step == WatchStep::Reload
            &&& s.step is Read && event is ReadDrained && !s.needs.rewatch && !s.needs.reload
                ==> n.step == WatchStep::Done
            &&& s.step is Read && !(event is ReadFailed || event is ReadEvents
                || event is ReadDrained) ==> n.step == WatchStep::Done
            &&& s.step is Rewatch && event is Rewatched && s.needs.reload ==> n.step
                == WatchStep::Reload
            &&& s.step is Rewatch && !(event is Rewatched && s.needs.reload) ==> n.step
                == WatchStep::Done
            &&& s.step is Reload || s.step is Disable || s.step is Done ==> n.step
                == WatchStep::Done
            &&& (s.step is Read && event is ReadEvents) ==> n.needs.reload == (s.needs.reload
                || event->ReadEvents_0.reload) && n.needs.rewatch == (s.needs.rewatch
                || event->ReadEvents_0.rewatch)
            &&& !(s.step is Read && event is ReadEvents) ==> n.needs == s.needs
        }),
{
}

// ---------------------------------------------------------------------------
// The log
// ---------------------------------------------------------------------------
/// A line of the log holds the time of day to the millisecond, with zeros in front, the
/// thread, its name, its package, its CPUs, and which kind of rule decided.
pub proof fn law_log_line(
    t: LogTime,
    tid: i32,
    comm: Seq<char>,
    pkg: Seq<char>,
    cpus: Seq<char>,
)
    ensures
        ({
            let clock = number::zero_padded(number::decimal(t.hour as nat), 2) + ":"@
                + number::zero_padded(number::decimal(t.minute as nat), 2) + ":"@
                + number::zero_padded(number::decimal(t.second as nat), 2) + "."@
                + number::zero_padded(number::decimal(t.millisecond as nat), 3);
            let start = "["@ + clock + "] tid="@ + number::signed_decimal(tid as int) + " comm="@
                + comm + " pkg="@ + pkg + " cpus="@ + cpus;
            &&& apply_log::line_text(t, tid, comm, pkg, cpus, true) == start + " thread\n"@
            &&& apply_log::line_text(t, tid, comm, pkg, cpus, false) == start + " package\n"@
        }),
{
}

/// The log is `apply.log`, and an earlier one has its number behind that. Logs are moved
/// exactly if the log has more than 1048576 bytes.
pub proof fn law_log_names_and_limit(n: nat, len: u64)
    ensures
        apply_log::log_name_text(0) == "apply.log"@,
        n > 0 ==> apply_log::log_name_text(n) == "apply.log."@ + number::decimal(n),
        apply_log::moved_logs(len).len() > 0 <==> len > 1_048_576,
{
}

// ---------------------------------------------------------------------------
// The command line
// ---------------------------------------------------------------------------
proof fn lemma_flags_differ()
    ensures
        "-c"@ != "-g"@,
        "-c"@ != "-s"@,
        "-c"@ != "-b"@,
        "-c"@ != "-v"@,
        "-c"@ != "-h"@,
        "-g"@ != "-s"@,
        "-g"@ != "-b"@,
        "-g"@ != "-v"@,
        "-g"@ != "-h"@,
        "-s"@ != "-b"@,
        "-s"@ != "-v"@,
        "-s"@ != "-h"@,
        "-b"@ != "-v"@,
        "-b"@ != "-h"@,
        "-v"@ != "-h"@,
{
    reveal_strlit("-c");
    reveal_strlit("-g");
    reveal_strlit("-s");
    reveal_strlit("-b");
    reveal_strlit("-v");
    reveal_strlit("-h");
    assert("-c"@[1] == 'c');
    assert("-g"@[1] == 'g');
    assert("-s"@[1] == 's');
    assert("-b"@[1] == 'b');
    assert("-v"@[1] == 'v');
    assert("-h"@[1] == 'h');
}

/// The files, the interval and the name of the base directory that count without arguments.
pub proof fn law_default_options()
    ensures
        cli::default_options().config_file == "./applist.conf"@,
        cli::default_options().game_file == "./game.conf"@,
        cli::default_options().interval == 2,
        cli::default_options().cpuset_name == "ThreadOpt"@,
{
}

/// Arguments are read from the left. An option that takes a value takes the argument behind
/// it, and is missing it if there is none. An interval is a number of at least 1, and the name
/// of a base directory has a character and no slash. The first argument that asks for
/// something else than to run, or is not understood, decides.
pub proof fn law_arguments(
    args: Seq<Seq<char>>,
    i: int,
    o: OptionsView,
    accepted: Seq<Flag>,
)
    requires
        0 <= i,
        args.len() <= usize::MAX,
    ensures
        ({
            let r = cli::arguments_from(args, i, o, accepted);
            let here = ArgumentsView { options: o, accepted, request: r.request };
            let v = args[i + 1];
            let has_value = i + 1 < args.len();
            &&& i >= args.len() ==> r == here && r.request == Request::Run
            &&& i < args.len() && args[i] == "-v"@ ==> r == here && r.request == Request::Version
            &&& i < args.len() && args[i] == "-h"@ ==> r == here && r.request == Request::Help
            &&& i < args.len() && args[i] == "-c"@ && !has_value ==> r == here && r.request
                == Request::MissingValue(Flag::Config)
            &&& i < args.len() && args[i] == "-g"@ && !has_value ==> r == here && r.request
                == Request::MissingValue(Flag::Game)
            &&& i < args.len() && args[i] == "-s"@ && !has_value ==> r == here && r.request
                == Request::MissingValue(Flag::Interval)
            &&& i < args.len() && args[i] == "-b"@ && !has_value ==> r == here && r.request
                == Request::MissingValue(Flag::Cpuset)
            &&& has_value && args[i] == "-c"@ ==> r == cli::arguments_from(
                args,
                i + 2,
                OptionsView { config_file: v, ..o },
                accepted.push(Flag::Config),
            )
            &&& has_value && args[i] == "-g"@ ==> r == cli::arguments_from(
                args,
                i + 2,
                OptionsView { game_file: v, ..o },
                accepted.push(Flag::Game),
            )
            &&& has_value && args[i] == "-s"@ ==> match number::spec_parse_unsigned(
                v,
                u64::MAX as nat,
            ) {
                Some(n) if n >= 1 => r == cli::arguments_from(
                    args,
                    i + 2,
                    OptionsView { interval: n as u64, ..o },
                    accepted.push(Flag::Interval),
                ),
                _ => r == here && r.request == Request::BadInterval((i + 1) as usize),
            }
            &&& has_value && args[i] == "-b"@ ==> if v.len() > 0 && forall|k: int|
                0 <= k < v.len() ==> #[trigger] v[k] != '/' {
                r == cli::arguments_from(
                    args,
                    i + 2,
                    OptionsView { cpuset_name: v, ..o },
                    accepted.push(Flag::Cpuset),
                )
            } else {
                r == here && r.request == Request::BadCpusetName((i + 1) as usize)
            }
            &&& i < args.len() && args[i] != "-c"@ && args[i] != "-g"@ && args[i] != "-s"@ && args[i]
                != "-b"@ && args[i] != "-v"@ && args[i] != "-h"@ ==> r == here && r.request
                == Request::Unknown(i as usize)
        }),
{
    lemma_flags_differ();
    if i + 1 < args.len() {
        text::lemma_first_of(args[i + 1], '/', '/');
        assert(cpuset::is_cpuset_name(args[i + 1]) == (args[i + 1].len() > 0 && forall|k: int|
            0 <= k < args[i + 1].len() ==> #[trigger] args[i + 1][k] != '/'));
    }
}

// ---------------------------------------------------------------------------
// Lists
// ---------------------------------------------------------------------------
/// A list of strings is described by their texts, in order.
pub proof fn law_texts(v: Seq<String>, k: int)
    requires
        0 <= k < v.len(),
    ensures
        text::texts(v).len() == v.len(),
        text::texts(v)[k] == v[k]@,
{
}

/// Options and arguments are described by all that is held of them.
pub proof fn law_description_of_arguments(a: Arguments)
    ensures
        a@.options.config_file == a.options.config_file@,
        a@.options.game_file == a.options.game_file@,
        a@.options.interval == a.options.interval,
        a@.options.cpuset_name == a.options.cpuset_name@,
        a@.accepted == a.accepted@,
        a@.request == a.request,
{
}

} // verus!
