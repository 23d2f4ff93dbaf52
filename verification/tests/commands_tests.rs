use hdct::commands::{
    announcement, clipboard_text, run_subcommand, verbosity_message, CommandResult, SubCommand,
    Test, Uuid,
};
use hdct::epochtime::EpochTime;

#[test]
fn verbosity_is_announced_when_not_zero() {
    assert_eq!(verbosity_message(0), None);
    assert_eq!(verbosity_message(3), Some("Verbosity level 3".to_string()));
    assert_eq!(verbosity_message(-2), Some("Verbosity level -2".to_string()));
}

#[test]
fn commands_announce_themselves_when_verbose() {
    let u = SubCommand::Uuid(Uuid { hyphens: true, upper: false });
    assert_eq!(announcement(&u, 0), None);
    assert_eq!(announcement(&u, 1), Some("Creating UUID".to_string()));
    let e = SubCommand::EpochTime(EpochTime { input: -5 });
    assert_eq!(announcement(&e, 2), Some("Creating epoch time value from -5".to_string()));
}

#[test]
fn clipboard_gets_successful_results_only() {
    let ok: CommandResult = Ok("text".to_string());
    let err: CommandResult = Err("bad".to_string());
    assert_eq!(clipboard_text(true, &ok), Some("text".to_string()));
    assert_eq!(clipboard_text(false, &ok), None);
    assert_eq!(clipboard_text(true, &err), None);
}

#[test]
fn runs_the_chosen_command() {
    let r = run_subcommand(SubCommand::Uuid(Uuid { hyphens: true, upper: true }), 0).unwrap();
    assert_eq!(r.len(), 36);
    let r = run_subcommand(SubCommand::EpochTime(EpochTime { input: 86400 }), 0).unwrap();
    assert!(r.starts_with("Epoch time: 86400\nUTC time: 1970-01-02 00:00:00 UTC\n"));
    let t = Test { debug: true };
    assert!(t.debug);
}
