use threadopt::apply_log::{log_apply, log_name, rotate_log, LogTime, LOG_LIMIT, LOG_NAME};
use threadopt::cli::{
    detector_interval, parse_args, rebind_due, resync_interval, Arguments, Flag, Request,
};
use threadopt::config::NEVER_READ;
use threadopt::foreground::{
    foreground_game, game_foreground, read_oom_score_adj, ProcEntry, FOREGROUND_ADJ_MAX,
};
use threadopt::watch::{
    scan_events, watch_next, watch_round, watch_setup, ByteOrder, SetupOutcome, SetupStep,
    WatchEvent, WatchMasks, WatchNeeds, WatchStep,
};

fn args(list: &[&str]) -> Arguments {
    let mut all = vec!["threadopt".to_string()];
    for a in list {
        all.push(a.to_string());
    }
    parse_args(&all)
}

#[test]
fn no_arguments_are_defaults() {
    for a in [args(&[]), parse_args(&vec![])] {
        assert_eq!(a.request, Request::Run);
        assert!(a.accepted.is_empty());
        assert_eq!(a.options.config_file, "./applist.conf");
        assert_eq!(a.options.game_file, "./game.conf");
        assert_eq!(a.options.interval, 2);
        assert_eq!(a.options.cpuset_name, "ThreadOpt");
    }
}

#[test]
fn all_options() {
    let a = args(&["-c", "/data/a.conf", "-g", "g", "-s", "3", "-b", "Mine"]);
    assert_eq!(a.request, Request::Run);
    assert_eq!(
        a.accepted,
        vec![Flag::Config, Flag::Game, Flag::Interval, Flag::Cpuset]
    );
    assert_eq!(a.options.config_file, "/data/a.conf");
    assert_eq!(a.options.game_file, "g");
    assert_eq!(a.options.interval, 3);
    assert_eq!(a.options.cpuset_name, "Mine");
}

#[test]
fn later_options_replace_earlier_ones() {
    let a = args(&["-s", "3", "-s", "+5", "-c", "-v"]);
    assert_eq!(a.request, Request::Run);
    assert_eq!(a.options.interval, 5);
    // What follows an option is its value, whatever it is.
    assert_eq!(a.options.config_file, "-v");
}

#[test]
fn missing_values() {
    assert_eq!(args(&["-c"]).request, Request::MissingValue(Flag::Config));
    assert_eq!(args(&["-g"]).request, Request::MissingValue(Flag::Game));
    assert_eq!(args(&["-s"]).request, Request::MissingValue(Flag::Interval));
    let a = args(&["-s", "4", "-b"]);
    assert_eq!(a.request, Request::MissingValue(Flag::Cpuset));
    assert_eq!(a.accepted, vec![Flag::Interval]);
}

#[test]
fn bad_values() {
    for bad in ["0", "-1", "", "2s", "1.5", "18446744073709551616"] {
        let a = args(&["-s", bad]);
        assert_eq!(a.request, Request::BadInterval(2));
        assert_eq!(a.options.interval, 2);
        assert!(a.accepted.is_empty());
    }
    for bad in ["", "/", "a/b"] {
        let a = args(&["-c", "x", "-b", bad]);
        assert_eq!(a.request, Request::BadCpusetName(4));
        assert_eq!(a.options.cpuset_name, "ThreadOpt");
    }
}

#[test]
fn help_version_and_unknown() {
    assert_eq!(args(&["-v", "-h"]).request, Request::Version);
    assert_eq!(args(&["-h", "-x"]).request, Request::Help);
    assert_eq!(args(&["-x", "-h"]).request, Request::Unknown(1));
    assert_eq!(args(&["-s", "1", "extra"]).request, Request::Unknown(3));
    assert_eq!(args(&["--help"]).request, Request::Unknown(1));
}

#[test]
fn options_stay_valid() {
    for list in [vec!["-s", "0"], vec!["-b", "/"], vec!["-s", "9", "-b", "x", "?"]] {
        let a = args(&list);
        assert!(a.options.interval >= 1);
        assert!(!a.options.cpuset_name.is_empty());
        assert!(!a.options.cpuset_name.contains('/'));
    }
}

#[test]
fn intervals() {
    assert_eq!(detector_interval(0), 2);
    assert_eq!(detector_interval(1), 2);
    assert_eq!(detector_interval(7), 14);
    assert_eq!(resync_interval(2, true), 6);
    assert_eq!(resync_interval(2, false), 10);
    assert_eq!(resync_interval(u64::MAX / 3, true), u64::MAX);
    assert!(rebind_due(10, 10, false));
    assert!(!rebind_due(9, 10, false));
    assert!(rebind_due(0, 10, true));
}

#[test]
fn log_line() {
    let t = LogTime {
        hour: 7,
        minute: 5,
        second: 59,
        millisecond: 42,
    };
    assert_eq!(
        log_apply(t, 1234, "RenderThread", "com.example", "4-5", true),
        "[07:05:59.042] tid=1234 comm=RenderThread pkg=com.example cpus=4-5 thread\n"
    );
    assert_eq!(
        log_apply(t, -1, "", "p", "0", false),
        "[07:05:59.042] tid=-1 comm= pkg=p cpus=0 package\n"
    );
}

#[test]
fn log_names() {
    assert_eq!(log_name(0), LOG_NAME);
    assert_eq!(log_name(0), "apply.log");
    assert_eq!(log_name(1), "apply.log.1");
    assert_eq!(log_name(3), "apply.log.3");
}

#[test]
fn long_log_is_moved() {
    assert_eq!(LOG_LIMIT, 1024 * 1024);
    assert_eq!(rotate_log(LOG_LIMIT + 1), vec![2, 1, 0]);
    let mut logs: Vec<Option<&str>> = vec![Some("now"), Some("one"), Some("two"), Some("three")];
    for n in rotate_log(LOG_LIMIT + 1) {
        let k = n as usize;
        if logs[k].is_some() {
            logs[k + 1] = logs[k].take();
        }
    }
    assert_eq!(logs, vec![None, Some("now"), Some("one"), Some("two")]);
}

#[test]
fn short_log_is_not_moved() {
    assert!(rotate_log(LOG_LIMIT).is_empty());
    assert!(rotate_log(0).is_empty());
}

fn entry(name: &str, pkg: Option<&str>, adj: Option<&str>) -> ProcEntry {
    ProcEntry {
        name: name.to_string(),
        pkg: pkg.map(|s| s.to_string()),
        adj: adj.map(|s| s.to_string()),
    }
}

#[test]
fn adjustments() {
    assert_eq!(FOREGROUND_ADJ_MAX, 100);
    assert_eq!(read_oom_score_adj("0\n"), Some(0));
    assert_eq!(read_oom_score_adj(" -1000 \n"), Some(-1000));
    assert_eq!(read_oom_score_adj(""), None);
    assert_eq!(read_oom_score_adj("x"), None);
}

#[test]
fn games_in_the_foreground() {
    let games = vec!["g1".to_string(), "g2".to_string()];
    assert!(foreground_game(&entry("12", Some("g2"), Some("0\n")), &games));
    assert!(foreground_game(&entry("12", Some("g1"), Some("100\n")), &games));
    assert!(!foreground_game(&entry("12", Some("g1"), Some("101\n")), &games));
    assert!(!foreground_game(&entry("12", Some("app"), Some("0\n")), &games));
    assert!(!foreground_game(&entry("self", Some("g1"), Some("0\n")), &games));
    assert!(!foreground_game(&entry("12", None, Some("0\n")), &games));
    assert!(!foreground_game(&entry("12", Some("g1"), None), &games));
    assert!(!foreground_game(&entry("12", Some("g1"), Some("?")), &games));
}

#[test]
fn one_game_is_enough() {
    let games = vec!["g".to_string()];
    let idle = entry("1", Some("g"), Some("900"));
    let other = entry("2", Some("app"), Some("0"));
    assert!(!game_foreground(&vec![], &games));
    let mut all = vec![idle, other];
    assert!(!game_foreground(&all, &games));
    all.push(entry("3", Some("g"), Some("0")));
    assert!(game_foreground(&all, &games));
    assert!(!game_foreground(&all, &vec![]));
}

fn masks() -> WatchMasks {
    WatchMasks {
        close_write: 0x8,
        delete_self: 0x400,
        move_self: 0x800,
    }
}

fn record(mask: u32, name: &[u8]) -> Vec<u8> {
    let mut r: Vec<u8> = vec![1, 0, 0, 0];
    r.extend_from_slice(&mask.to_le_bytes());
    r.extend_from_slice(&[0, 0, 0, 0]);
    r.extend_from_slice(&(name.len() as u32).to_le_bytes());
    r.extend_from_slice(name);
    r
}

fn scan(buf: &[u8]) -> WatchNeeds {
    scan_events(buf, ByteOrder::LittleEndian, masks())
}

fn needs(reload: bool, rewatch: bool) -> WatchNeeds {
    WatchNeeds { reload, rewatch }
}

#[test]
fn single_events() {
    assert_eq!(scan(&[]), needs(false, false));
    assert_eq!(scan(&record(0x8, b"")), needs(true, false));
    assert_eq!(scan(&record(0x400, b"")), needs(true, true));
    assert_eq!(scan(&record(0x800, b"")), needs(true, true));
    assert_eq!(scan(&record(0x8000, b"")), needs(false, false));
    assert_eq!(scan(&record(0x2_0408, b"")), needs(true, true));
}

#[test]
fn events_after_names() {
    let mut buf = record(0x2, b"name\0\0\0\0");
    buf.extend(record(0x8, b"x\0\0\0"));
    buf.extend(record(0x1, b""));
    assert_eq!(scan(&buf), needs(true, false));
    buf.extend(record(0x800, b""));
    assert_eq!(scan(&buf), needs(true, true));
}

#[test]
fn cut_off_events() {
    let whole = record(0x8, b"");
    assert_eq!(scan(&whole[..15]), needs(false, false));
    // The name is longer than what is left.
    let mut buf = record(0x8, b"abcd");
    buf.truncate(17);
    assert_eq!(scan(&buf), needs(true, false));
    let mut huge = record(0x400, b"");
    huge[12] = 0xff;
    huge[13] = 0xff;
    huge[14] = 0xff;
    huge[15] = 0xff;
    huge.extend(record(0x8, b""));
    assert_eq!(scan(&huge), needs(true, true));
}

fn run(events: &[WatchEvent], last_mtime: &mut i64) -> WatchStep {
    let mut s = watch_round();
    assert_eq!(s.step, WatchStep::Poll);
    for e in events {
        s = watch_next(s, *e, last_mtime);
    }
    s.step
}

#[test]
fn quiet_and_failing_rounds() {
    let mut t: i64 = 5;
    assert_eq!(run(&[WatchEvent::PollTimeout], &mut t), WatchStep::Done);
    assert_eq!(run(&[WatchEvent::PollInterrupted], &mut t), WatchStep::Done);
    assert_eq!(run(&[WatchEvent::PollFailed], &mut t), WatchStep::Disable);
    assert_eq!(run(&[WatchEvent::PollReady], &mut t), WatchStep::Read);
    assert_eq!(
        run(&[WatchEvent::PollReady, WatchEvent::ReadFailed], &mut t),
        WatchStep::Disable
    );
    assert_eq!(
        run(&[WatchEvent::PollReady, WatchEvent::ReadDrained], &mut t),
        WatchStep::Done
    );
    assert_eq!(
        run(&[WatchEvent::PollFailed, WatchEvent::Finished], &mut t),
        WatchStep::Done
    );
    assert_eq!(t, 5);
}

#[test]
fn written_file_is_read_again() {
    let mut t: i64 = 5;
    assert_eq!(
        run(
            &[
                WatchEvent::PollReady,
                WatchEvent::ReadEvents(needs(true, false)),
                WatchEvent::ReadEvents(needs(false, false)),
                WatchEvent::ReadDrained,
            ],
            &mut t
        ),
        WatchStep::Reload
    );
    assert_eq!(t, NEVER_READ);
}

#[test]
fn moved_file_is_watched_anew_first() {
    let mut t: i64 = 5;
    let events = [
        WatchEvent::PollReady,
        WatchEvent::ReadEvents(needs(false, false)),
        WatchEvent::ReadEvents(needs(true, true)),
        WatchEvent::ReadEvents(needs(true, false)),
        WatchEvent::ReadDrained,
    ];
    assert_eq!(run(&events, &mut t), WatchStep::Rewatch);
    let mut more = events.to_vec();
    more.push(WatchEvent::Rewatched);
    assert_eq!(run(&more, &mut t), WatchStep::Reload);
    more.pop();
    more.push(WatchEvent::RewatchFailed);
    assert_eq!(run(&more, &mut t), WatchStep::Done);
}

#[test]
fn failure_after_events_still_voids_the_reading() {
    let mut t: i64 = 5;
    assert_eq!(
        run(
            &[
                WatchEvent::PollReady,
                WatchEvent::ReadEvents(needs(true, false)),
                WatchEvent::ReadFailed,
            ],
            &mut t
        ),
        WatchStep::Disable
    );
    assert_eq!(t, NEVER_READ);
}

#[test]
fn records_of_either_byte_order() {
    let mut big: Vec<u8> = vec![0, 0, 0, 1, 0, 0, 0, 2, 0, 0, 0, 0, 0, 0, 0, 4];
    big.extend_from_slice(b"abc\0");
    big.extend_from_slice(&[0, 0, 0, 1, 0, 0, 4, 0, 0, 0, 0, 0, 0, 0, 0, 0]);
    assert_eq!(
        scan_events(&big, ByteOrder::BigEndian, masks()),
        needs(true, true)
    );
    // Read the other way round, the name is longer than the buffer.
    assert_eq!(scan(&big), needs(false, false));
    let little = record(0x8, b"");
    assert_eq!(scan(&little), needs(true, false));
    assert_eq!(
        scan_events(&little, ByteOrder::BigEndian, masks()),
        needs(false, false)
    );
}

fn set_up(start: SetupStep, outcomes: &[bool]) -> SetupStep {
    let mut step = start;
    for ok in outcomes {
        let outcome = if *ok {
            SetupOutcome::Done
        } else {
            SetupOutcome::Failed
        };
        step = watch_setup(step, outcome);
    }
    step
}

#[test]
fn starting_the_watch() {
    let open = SetupStep::Open;
    assert_eq!(set_up(open, &[true]), SetupStep::ConvertPath);
    assert_eq!(set_up(open, &[true, true]), SetupStep::AddWatch);
    assert_eq!(set_up(open, &[true, true, true]), SetupStep::Watching);
    assert_eq!(set_up(open, &[false]), SetupStep::Polling);
    assert_eq!(set_up(open, &[true, false]), SetupStep::Close);
    assert_eq!(set_up(open, &[true, true, false]), SetupStep::Close);
    assert_eq!(set_up(open, &[true, true, false, true]), SetupStep::Polling);
}

#[test]
fn renewing_the_watch() {
    let find = SetupStep::FindFile;
    assert_eq!(set_up(find, &[false]), SetupStep::Unchanged);
    assert_eq!(set_up(find, &[true]), SetupStep::RemoveWatch);
    for removed in [true, false] {
        assert_eq!(
            set_up(find, &[true, removed, true, true]),
            SetupStep::Watching
        );
        assert_eq!(set_up(find, &[true, removed, false]), SetupStep::Close);
        assert_eq!(
            set_up(find, &[true, removed, true, false, true]),
            SetupStep::Polling
        );
    }
}

#[test]
fn ends_of_setup_are_final() {
    for end in [SetupStep::Watching, SetupStep::Polling, SetupStep::Unchanged] {
        assert_eq!(set_up(end, &[true, false, true]), end);
    }
}
