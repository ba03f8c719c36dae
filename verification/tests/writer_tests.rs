use nitro_log::config::FormatConfig;
use nitro_log::format::Format;
use nitro_log::loggers::writer::{Action, Failure, LogCall, Stage, WriterState};
use nitro_log::loggers::Logger;
use nitro_log::placeholder::{default_placeholders, DynPlaceholder};
use nitro_log::record::{KeyValue, Level, Record};

type Plain = Logger<DynPlaceholder, u32>;

fn logger(targets: usize, template: &str, structure_dump: bool) -> Plain {
    let registry = default_placeholders();
    Logger {
        module: Some("app".to_string()),
        levels: vec![Level::Info, Level::Error],
        targets: (0..targets as u32).collect(),
        always_execute: false,
        structure_dump,
        format: Format::new(&registry, FormatConfig::new(template.to_string()), false).unwrap(),
    }
}

fn record() -> Record {
    Record {
        level: Level::Error,
        target: "app".to_string(),
        module: Some("app".to_string()),
        line: None,
        message: "boom".to_string(),
        key_values: vec![
            KeyValue { key: "user".to_string(), text: "ada".to_string(), structure: Err("none".to_string()) },
            KeyValue { key: "try".to_string(), text: "3".to_string(), structure: Err("none".to_string()) },
        ],
    }
}

/// Drives a call to its end. `fails` tells which actions do not succeed.
fn drive(call: &mut LogCall<DynPlaceholder, u32>, fails: &dyn Fn(Action) -> bool) -> (Vec<Action>, Vec<String>) {
    let mut actions = Vec::new();
    let mut written = vec![String::new(); 8];
    let mut action = call.action();
    let mut steps = 0;
    while action != Action::Done {
        steps += 1;
        assert!(steps < 10_000);
        actions.push(action);
        let failed = fails(action);
        if let Action::Write(target, fragment) = action {
            if !failed {
                written[target].push_str(call.fragment(fragment).unwrap());
            }
        }
        action = call.advance(!failed);
    }
    assert!(call.is_done());
    (actions, written)
}

fn count(actions: &[Action], wanted: Action) -> usize {
    actions.iter().filter(|action| **action == wanted).count()
}

#[test]
fn every_writer_receives_the_same_message() {
    let logger = logger(2, "{{level()}} {{message()}}", false);
    let record = record();
    let mut call = logger.log(&record);
    let (actions, written) = drive(&mut call, &|_| false);
    assert_eq!(written[0], "ERROR boom\n");
    assert_eq!(written[1], "ERROR boom\n");
    assert_eq!(actions[0], Action::Acquire(0));
    assert_eq!(actions[1], Action::Acquire(1));
    assert_eq!(actions[2], Action::Write(0, 0));
    assert_eq!(actions[3], Action::Write(1, 0));
    let tail = &actions[actions.len() - 4..];
    assert_eq!(tail, &[Action::Flush(0), Action::Flush(1), Action::Return(0), Action::Return(1)]);
    assert!(call.failures().is_empty());
}

#[test]
fn the_structure_dump_follows_the_message() {
    let logger = logger(1, "{{message()}}", true);
    let record = record();
    assert_eq!(
        logger.message(&record),
        vec!["", "boom", "", "\n", "user: ada", "\n", "try: 3", "\n"]
    );
    let mut call = logger.log(&record);
    let (_, written) = drive(&mut call, &|_| false);
    assert_eq!(written[0], "boom\nuser: ada\ntry: 3\n");
}

#[test]
fn a_writer_is_returned_once_for_each_acquisition_that_succeeded() {
    let logger = logger(4, "{{message()}}", false);
    let record = record();
    let mut call = logger.log(&record);
    let fails = |action: Action| match action {
        Action::Acquire(target) => target == 1,
        Action::Write(target, _) => target == 0,
        Action::Flush(target) => target == 2,
        Action::Return(target) => target == 3,
        Action::Done => false,
    };
    let (actions, written) = drive(&mut call, &fails);
    for target in [0, 2, 3] {
        assert_eq!(count(&actions, Action::Acquire(target)), 1);
        assert_eq!(count(&actions, Action::Flush(target)), 1);
        assert_eq!(count(&actions, Action::Return(target)), 1);
    }
    assert_eq!(count(&actions, Action::Acquire(1)), 1);
    assert_eq!(count(&actions, Action::Flush(1)), 0);
    assert_eq!(count(&actions, Action::Return(1)), 0);
    assert!(actions.iter().all(|action| !matches!(action, Action::Write(1, _))));
    assert_eq!(written[2], "boom\n");
    assert_eq!(written[3], "boom\n");
    let failures = call.failures();
    assert_eq!(failures[0], Failure { target: 1, stage: Stage::Acquire });
    assert_eq!(failures.iter().filter(|failure| failure.stage == Stage::Write).count(), 4);
    assert!(failures.contains(&Failure { target: 2, stage: Stage::Flush }));
    assert!(failures.contains(&Failure { target: 3, stage: Stage::Return }));
    assert_eq!(failures.len(), 7);
}

#[test]
fn failures_of_one_writer_change_nothing_for_the_others() {
    let logger = logger(3, "{{message()}}", false);
    let record = record();
    let mut quiet = logger.log(&record);
    let (expected, _) = drive(&mut quiet, &|_| false);
    let mut noisy = logger.log(&record);
    let (actions, written) =
        drive(&mut noisy, &|action| !matches!(action, Action::Acquire(_)) && action != Action::Write(2, 1));
    assert_eq!(actions, expected);
    assert_eq!(written[2], "boom");
}

#[test]
fn without_a_writer_the_call_ends_after_acquiring() {
    let logger = logger(2, "{{message()}}", false);
    let record = record();
    let mut call = logger.log(&record);
    let (actions, _) = drive(&mut call, &|_| true);
    assert_eq!(actions, vec![Action::Acquire(0), Action::Acquire(1)]);
    assert_eq!(call.failures().len(), 2);
    assert_eq!(call.advance(true), Action::Done);
    assert_eq!(call.failures().len(), 2);
    let none = super_logger();
    let mut call = none.log(&record);
    assert_eq!(call.action(), Action::Done);
    assert!(call.is_done());
    assert!(call.fragment(0).is_none());
}

fn super_logger() -> Plain {
    logger(0, "{{message()}}", false)
}

#[test]
fn a_target_walks_through_its_states() {
    let logger = logger(2, "{{message()}}", false);
    let record = record();
    let mut call = logger.log(&record);
    assert_eq!(call.state(0), WriterState::Acquiring);
    assert_eq!(call.state(1), WriterState::Idle);
    call.advance(true);
    assert_eq!(call.state(0), WriterState::Writing);
    assert_eq!(call.state(1), WriterState::Acquiring);
    call.advance(false);
    assert_eq!(call.state(1), WriterState::Skipped);
    let mut seen = vec![call.state(0)];
    while !call.is_done() {
        call.advance(true);
        if *seen.last().unwrap() != call.state(0) {
            seen.push(call.state(0));
        }
        assert_eq!(call.state(1), WriterState::Skipped);
    }
    assert_eq!(seen, vec![WriterState::Writing, WriterState::Flushing, WriterState::Returned]);
}
