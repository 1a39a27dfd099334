use paxr::{Command, Dispatch, Ending, Flag, StateBox};

fn flag(short: char, long: &str, about: &str, consumer: bool, breakpoint: bool) -> Flag {
    Flag {
        short,
        long: String::from(long),
        about: String::from(about),
        consumer,
        breakpoint,
    }
}

fn sample() -> Flag {
    flag('s', "sample", "Does nothing", false, false)
}

fn consumable() -> Flag {
    flag('c', "consumable", "Consumes the next arg", true, false)
}

fn pax(flags: Vec<Flag>) -> Command {
    Command {
        name: String::from("pax"),
        about: String::new(),
        version: String::from("PAX 1.0"),
        flags,
        subcommands: Vec::new(),
        states: StateBox::new(),
        man: String::new(),
    }
}

fn args(items: &[&str]) -> Vec<String> {
    items.iter().map(|s| String::from(*s)).collect()
}

fn calls(d: &Dispatch) -> Vec<(usize, Option<String>)> {
    d.calls.iter().map(|c| (c.flag, c.value.clone())).collect()
}

#[test]
fn long_flag_runs_handler_then_default() {
    let cmd = pax(vec![sample(), consumable()]);
    let d = cmd.run(&args(&["--sample"]));
    assert_eq!(calls(&d), vec![(0, None)]);
    assert!(matches!(d.ending, Ending::Default));
}

#[test]
fn short_consumer_takes_next_token() {
    let cmd = pax(vec![sample(), consumable()]);
    let d = cmd.run(&args(&["-c", "val1"]));
    assert_eq!(calls(&d), vec![(1, Some(String::from("val1")))]);
    assert!(matches!(d.ending, Ending::Default));
}

#[test]
fn long_consumer_takes_next_token() {
    let cmd = pax(vec![sample(), consumable()]);
    let d = cmd.run(&args(&["--consumable", "val1", "--sample"]));
    assert_eq!(calls(&d), vec![(1, Some(String::from("val1"))), (0, None)]);
}

#[test]
fn long_consumer_as_last_token_gets_nothing() {
    let cmd = pax(vec![sample(), consumable()]);
    let d = cmd.run(&args(&["--sample", "--consumable"]));
    assert_eq!(calls(&d), vec![(0, None), (1, None)]);
    assert!(matches!(d.ending, Ending::Default));
}

#[test]
fn consumed_token_is_not_scanned() {
    let cmd = pax(vec![sample(), consumable()]);
    let d = cmd.run(&args(&["--consumable", "--sample"]));
    assert_eq!(calls(&d), vec![(1, Some(String::from("--sample")))]);
}

#[test]
fn short_cluster_consumes_whole_tokens() {
    let cmd = pax(vec![sample(), consumable()]);
    let d = cmd.run(&args(&["-cs", "v", "w"]));
    assert_eq!(calls(&d), vec![(1, Some(String::from("v"))), (0, None)]);
    assert!(matches!(d.ending, Ending::Default));
}

#[test]
fn plain_tokens_are_inert() {
    let cmd = pax(vec![sample()]);
    let d = cmd.run(&args(&["foo", "bar"]));
    assert!(d.calls.is_empty());
    assert!(matches!(d.ending, Ending::Default));
}

#[test]
fn first_declared_flag_wins() {
    let cmd = pax(vec![flag('x', "dup", "first", false, false), flag('x', "dup", "second", false, false)]);
    let d = cmd.run(&args(&["--dup", "-x"]));
    assert_eq!(calls(&d), vec![(0, None), (0, None)]);
}

#[test]
fn unknown_long_flag_reports_error_help_error() {
    let cmd = pax(vec![sample(), consumable()]);
    let d = cmd.run(&args(&["--bogus"]));
    assert!(d.calls.is_empty());
    match &d.ending {
        Ending::UnknownFlag(name) => assert_eq!(name, "bogus"),
        _ => panic!("expected an unknown flag"),
    }
    let report = cmd.failure_report(&d.ending).unwrap();
    let expected = format!("Error: unknown flag: 'bogus'\n{}\n\nunknown flag: 'bogus'", cmd.help());
    assert_eq!(report, expected);
}

#[test]
fn unknown_short_flag_reports_cluster() {
    let cmd = pax(vec![sample(), consumable()]);
    let d = cmd.run(&args(&["-sx"]));
    assert_eq!(calls(&d), vec![(0, None)]);
    match &d.ending {
        Ending::UnknownShorthandFlag(c, rest) => {
            assert_eq!(*c, 'x');
            assert_eq!(rest, "sx");
        }
        _ => panic!("expected an unknown shorthand flag"),
    }
    let report = cmd.failure_report(&d.ending).unwrap();
    let expected = format!(
        "Error: unknown shorthand flag: 'x' in -sx\n{}\n\nunknown shorthand flag: 'x' in -sx",
        cmd.help()
    );
    assert_eq!(report, expected);
}

#[test]
fn no_report_for_other_endings() {
    let cmd = pax(vec![sample()]);
    assert!(cmd.failure_report(&Ending::Help).is_none());
    assert!(cmd.failure_report(&Ending::Default).is_none());
    assert!(cmd.failure_report(&Ending::MultipleBreakpoints).is_none());
}

#[test]
fn short_help_stops_everything() {
    let cmd = pax(vec![sample(), consumable()]);
    let d = cmd.run(&args(&["-h", "--sample"]));
    assert!(d.calls.is_empty());
    assert!(matches!(d.ending, Ending::Help));
}

#[test]
fn long_help_stops_everything() {
    let cmd = pax(vec![sample()]);
    let d = cmd.run(&args(&["--help", "--bogus"]));
    assert!(d.calls.is_empty());
    assert!(matches!(d.ending, Ending::Help));
}

#[test]
fn help_in_cluster_wins_over_declared_h() {
    let cmd = pax(vec![flag('h', "hello", "greets", false, false)]);
    let d = cmd.run(&args(&["-h"]));
    assert!(matches!(d.ending, Ending::Help));
}

#[test]
fn single_breakpoint_replaces_default() {
    let cmd = pax(vec![sample(), flag('v', "version", "shows the version", true, true)]);
    let d = cmd.run(&args(&["--version", "x", "-s"]));
    assert_eq!(calls(&d), vec![(0, None)]);
    match &d.ending {
        Ending::Breakpoint(c) => {
            assert_eq!(c.flag, 1);
            assert_eq!(c.value.as_deref(), Some("x"));
        }
        _ => panic!("expected a breakpoint"),
    }
}

#[test]
fn two_breakpoints_are_fatal() {
    let cmd = pax(vec![
        flag('v', "version", "shows the version", false, true),
        flag('m', "manual", "shows the manual", false, true),
        sample(),
    ]);
    let d = cmd.run(&args(&["--version", "--sample", "--manual"]));
    assert!(matches!(d.ending, Ending::MultipleBreakpoints));
    let d = cmd.run(&args(&["-vm"]));
    assert!(matches!(d.ending, Ending::MultipleBreakpoints));
    let d = cmd.run(&args(&["--version", "--version"]));
    assert!(matches!(d.ending, Ending::MultipleBreakpoints));
}

#[test]
fn flag_help_line() {
    assert_eq!(sample().help(), "-s, --sample\tDoes nothing");
}

#[test]
fn bare_command_help_has_no_usage_lines() {
    let cmd = pax(Vec::new());
    let h = cmd.help();
    assert_eq!(
        h,
        "PAX 1.0\nUsage:\n\nFlags:\n  -h, --help\thelp for pax\n\nUse pax [command] --help for more information about a command."
    );
    assert!(!h.contains("[flags]"));
    assert!(!h.contains("[command]\n"));
}

#[test]
fn help_with_flags_and_subcommands() {
    let mut cmd = pax(vec![sample(), consumable()]);
    let mut sub = pax(Vec::new());
    sub.name = String::from("install");
    sub.about = String::from("installs a package");
    cmd.subcommands.push(sub);
    assert_eq!(cmd.subcommands[0].micro_help(), "install\tinstalls a package");
    assert_eq!(
        cmd.help(),
        "PAX 1.0\nUsage:\n  pax [flags]\n  pax [command]\n\nAvailable Commands:\n  install\tinstalls a package\n\nFlags:\n  -s, --sample\tDoes nothing\n  -c, --consumable\tConsumes the next arg\n  -h, --help\thelp for pax\n\nUse pax [command] --help for more information about a command."
    );
}

#[test]
fn state_box_starts_empty() {
    let b = StateBox::new();
    assert_eq!(b.len(), 0);
    assert!(b.is_empty());
    assert!(StateBox::default().is_empty());
}

#[test]
fn command_owns_a_fresh_store() {
    let cmd = pax(vec![sample()]);
    assert!(cmd.states.is_empty());
}
