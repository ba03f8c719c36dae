//! The writer protocol of one log call.
//!
//! A log call asks every target of a logger for a writer, writes the rendered
//! message fragment by fragment to every writer it got, flushes each of them
//! and hands each back to its target. Opening, writing, flushing and closing
//! are the work of the caller: the call tells which action is due, the caller
//! performs it and reports whether it succeeded. A failure is noted and
//! changes nothing else: a target whose writer could not be acquired is left
//! out of the rest of the call, and a writer that was acquired is written
//! to, flushed and handed back whatever happened to it or to the others.

use vstd::prelude::*;
use crate::loggers::Logger;
use crate::placeholder::Placeholder;
use crate::record::Record;
use crate::text::texts;

verus! {

/// What a target asks to be opened for a record.
#[derive(Debug)]
pub enum Resource {
    /// The standard output of the process.
    Console,
    /// The file at this path, opened for appending and created if missing,
    /// together with the directories above it.
    File(String),
    /// A resource that the caller knows by this name.
    Other(String),
}

/// The handle of one target in one log call: the resource to write to.
#[derive(Debug)]
pub struct LoggerWriter {
    pub resource: Resource,
}

/// Where a target stands in a log call.
#[derive(Clone, Copy, PartialEq, Eq, Structural, Debug)]
pub enum WriterState {
    /// Nothing was asked of the target yet.
    Idle,
    /// Its writer is being acquired.
    Acquiring,
    /// Its writer is there and takes the message.
    Writing,
    /// Its writer is being flushed, or was.
    Flushing,
    /// Its writer is being handed back, or was.
    Returned,
    /// Its writer could not be acquired; the call goes on without it.
    Skipped,
}

/// The part of a log call that an action belongs to.
#[derive(Clone, Copy, PartialEq, Eq, Structural, Debug)]
pub enum Stage {
    Acquire,
    Write,
    Flush,
    Return,
    Done,
}

/// What the caller is to do next. Targets are named by their index in the
/// logger, fragments by their index in the rendered message.
#[derive(Clone, Copy, PartialEq, Eq, Structural, Debug)]
pub enum Action {
    /// Acquire a writer from this target.
    Acquire(usize),
    /// Write this fragment to the writer of this target.
    Write(usize, usize),
    /// Flush the writer of this target.
    Flush(usize),
    /// Hand the writer of this target back to it.
    Return(usize),
    /// Nothing is left to do.
    Done,
}

/// An action that did not succeed.
#[derive(Clone, Copy, PartialEq, Eq, Structural, Debug)]
pub struct Failure {
    pub target: usize,
    pub stage: Stage,
}

/// The state of a log call.
pub struct CallView {
    /// The number of targets of the logger.
    pub targets: nat,
    /// The targets whose writer was acquired, in the order of the logger.
    pub live: Seq<usize>,
    pub stage: Stage,
    /// While acquiring, the target that is asked; afterwards the place in
    /// `live` of the writer that the action is for.
    pub cursor: nat,
    /// The fragment that is being written.
    pub fragment: nat,
    /// The number of fragments of the message, once it is rendered.
    pub fragments: nat,
    pub failures: Seq<Failure>,
}

/// The start of a log call to a logger with this many targets.
pub open spec fn start(targets: nat) -> CallView {
    CallView {
        targets,
        live: Seq::empty(),
        stage: if targets == 0 {
            Stage::Done
        } else {
            Stage::Acquire
        },
        cursor: 0,
        fragment: 0,
        fragments: 0,
        failures: Seq::empty(),
    }
}

/// The action that is due in a state.
pub open spec fn pending(view: CallView) -> Action {
    match view.stage {
        Stage::Acquire => Action::Acquire(view.cursor as usize),
        Stage::Write => Action::Write(view.live[view.cursor as int], view.fragment as usize),
        Stage::Flush => Action::Flush(view.live[view.cursor as int]),
        Stage::Return => Action::Return(view.live[view.cursor as int]),
        Stage::Done => Action::Done,
    }
}

/// The target that the due action is for.
pub open spec fn pending_target(view: CallView) -> usize {
    match view.stage {
        Stage::Acquire => view.cursor as usize,
        _ => view.live[view.cursor as int],
    }
}

/// The failures after the due action ended: one more if it did not succeed.
pub open spec fn noted(view: CallView, succeeded: bool) -> Seq<Failure> {
    if succeeded || view.stage is Done {
        view.failures
    } else {
        view.failures.push(Failure { target: pending_target(view), stage: view.stage })
    }
}

/// The state after the due action ended. `rendered` is the number of
/// fragments that the message has; it is taken when the last target was
/// asked for its writer.
///
/// Every target is asked in turn. Then every fragment goes to every writer
/// that was acquired, fragment by fragment; then each such writer is flushed,
/// and then each is handed back. Without any writer the call is over after
/// the last target was asked.
pub open spec fn step(view: CallView, succeeded: bool, rendered: nat) -> CallView {
    let failures = noted(view, succeeded);
    match view.stage {
        Stage::Acquire => {
            let live = if succeeded {
                view.live.push(view.cursor as usize)
            } else {
                view.live
            };
            if view.cursor + 1 < view.targets {
                CallView { live, cursor: view.cursor + 1, failures, ..view }
            } else if live.len() == 0 {
                CallView { live, stage: Stage::Done, cursor: 0, failures, ..view }
            } else if rendered == 0 {
                CallView { live, stage: Stage::Flush, cursor: 0, failures, ..view }
            } else {
                CallView {
                    live,
                    stage: Stage::Write,
                    cursor: 0,
                    fragment: 0,
                    fragments: rendered,
                    failures,
                    ..view
                }
            }
        },
        Stage::Write => {
            if view.cursor + 1 < view.live.len() {
                CallView { cursor: view.cursor + 1, failures, ..view }
            } else if view.fragment + 1 < view.fragments {
                CallView { cursor: 0, fragment: view.fragment + 1, failures, ..view }
            } else {
                CallView { stage: Stage::Flush, cursor: 0, failures, ..view }
            }
        },
        Stage::Flush => {
            if view.cursor + 1 < view.live.len() {
                CallView { cursor: view.cursor + 1, failures, ..view }
            } else {
                CallView { stage: Stage::Return, cursor: 0, failures, ..view }
            }
        },
        Stage::Return => {
            if view.cursor + 1 < view.live.len() {
                CallView { cursor: view.cursor + 1, failures, ..view }
            } else {
                CallView { stage: Stage::Done, cursor: 0, failures, ..view }
            }
        },
        Stage::Done => view,
    }
}

/// The states that a log call can be in.
pub open spec fn well_formed(view: CallView) -> bool {
    &&& view.targets <= usize::MAX
    &&& view.live.len() <= view.targets
    &&& forall|i: int| 0 <= i < view.live.len() ==> (#[trigger] view.live[i]) < view.targets
    &&& forall|i: int, j: int|
        0 <= i < j < view.live.len() ==> (#[trigger] view.live[i]) < (#[trigger] view.live[j])
    &&& match view.stage {
        Stage::Acquire => view.cursor < view.targets && view.live.len() <= view.cursor
            && forall|i: int| 0 <= i < view.live.len() ==> (#[trigger] view.live[i]) < view.cursor,
        Stage::Write => view.cursor < view.live.len() && view.fragment < view.fragments
            && view.fragments <= usize::MAX,
        Stage::Flush => view.cursor < view.live.len(),
        Stage::Return => view.cursor < view.live.len(),
        Stage::Done => true,
    }
}

/// A step leads from a state of a log call to another one, for a message
/// whose fragments can be counted.
pub proof fn lemma_step_well_formed(view: CallView, succeeded: bool, rendered: nat)
    requires
        well_formed(view),
        rendered <= usize::MAX || !(view.stage is Acquire && step(
            view,
            succeeded,
            rendered,
        ).stage is Write),
    ensures
        well_formed(step(view, succeeded, rendered)),
{
    let next = step(view, succeeded, rendered);
    if view.stage is Acquire && succeeded {
        assert(next.live == view.live.push(view.cursor as usize));
        assert forall|i: int, j: int| 0 <= i < j < next.live.len() implies (#[trigger] next.live[i])
            < (#[trigger] next.live[j]) by {
            if j == view.live.len() {
                assert(next.live[i] == view.live[i]);
            } else {
                assert(next.live[i] == view.live[i]);
                assert(next.live[j] == view.live[j]);
            }
        }
    }
}

/// Where a target of the logger stands in a state.
pub open spec fn state_of(view: CallView, target: usize) -> WriterState {
    match view.stage {
        Stage::Acquire => if target < view.cursor {
            if view.live.contains(target) {
                WriterState::Writing
            } else {
                WriterState::Skipped
            }
        } else if target == view.cursor {
            WriterState::Acquiring
        } else {
            WriterState::Idle
        },
        _ => if !view.live.contains(target) {
            WriterState::Skipped
        } else {
            match view.stage {
                Stage::Write => WriterState::Writing,
                Stage::Flush => if passed(view, target) {
                    WriterState::Flushing
                } else {
                    WriterState::Writing
                },
                Stage::Return => if passed(view, target) {
                    WriterState::Returned
                } else {
                    WriterState::Flushing
                },
                _ => WriterState::Returned,
            }
        },
    }
}

/// Whether a target may go from the state `from` to the state `to` in one
/// step: it stays where it is or takes the next state on its way. From being
/// asked it goes on to writing, or it is skipped; a writer is written to,
/// then flushed, then handed back.
pub open spec fn moves_on(from: WriterState, to: WriterState) -> bool {
    from == to || match from {
        WriterState::Idle => to is Acquiring,
        WriterState::Acquiring => to is Writing || to is Skipped,
        WriterState::Writing => to is Flushing,
        WriterState::Flushing => to is Returned,
        WriterState::Returned => false,
        WriterState::Skipped => false,
    }
}

/// The state of a log call to `targets` targets after the actions that were
/// due ended with `outcomes`, in order. The message has `rendered` fragments.
pub open spec fn run(targets: nat, outcomes: Seq<bool>, rendered: nat) -> CallView
    decreases outcomes.len(),
{
    if outcomes.len() == 0 {
        start(targets)
    } else {
        step(run(targets, outcomes.drop_last(), rendered), outcomes.last(), rendered)
    }
}

/// The actions that were due in the course of such a call, the first one and
/// then the one after each outcome.
pub open spec fn actions(targets: nat, outcomes: Seq<bool>, rendered: nat) -> Seq<Action>
    decreases outcomes.len(),
{
    if outcomes.len() == 0 {
        seq![pending(start(targets))]
    } else {
        actions(targets, outcomes.drop_last(), rendered).push(
            pending(run(targets, outcomes, rendered)),
        )
    }
}

/// How often `action` stands in `actions`.
pub open spec fn times(actions: Seq<Action>, action: Action) -> nat
    decreases actions.len(),
{
    if actions.len() == 0 {
        0
    } else {
        times(actions.drop_last(), action) + if actions.last() == action {
            1nat
        } else {
            0nat
        }
    }
}

/// Whether the place of `target` among the acquired writers is at or before
/// the cursor.
pub open spec fn passed(view: CallView, target: usize) -> bool {
    exists|i: int| 0 <= i <= view.cursor && i < view.live.len() && view.live[i] == target
}

/// How often an action was due up to a state: once or never. A target was
/// asked for its writer once the cursor reached it. A fragment was written
/// to an acquired writer once its turn came, a writer was flushed and handed
/// back once the cursor of that stage reached it.
pub open spec fn issued(view: CallView, action: Action) -> nat {
    let once: nat = 1;
    let never: nat = 0;
    match action {
        Action::Acquire(target) => if (view.stage is Acquire && target <= view.cursor) || (!(
        view.stage is Acquire) && target < view.targets) {
            once
        } else {
            never
        },
        Action::Write(target, fragment) => match view.stage {
            Stage::Acquire => never,
            Stage::Write => if view.live.contains(target) && (fragment < view.fragment || (fragment
                == view.fragment && passed(view, target))) {
                once
            } else {
                never
            },
            _ => if view.live.contains(target) && fragment < view.fragments {
                once
            } else {
                never
            },
        },
        Action::Flush(target) => match view.stage {
            Stage::Flush => if passed(view, target) {
                once
            } else {
                never
            },
            Stage::Return | Stage::Done => if view.live.contains(target) {
                once
            } else {
                never
            },
            _ => never,
        },
        Action::Return(target) => match view.stage {
            Stage::Return => if passed(view, target) {
                once
            } else {
                never
            },
            Stage::Done => if view.live.contains(target) {
                once
            } else {
                never
            },
            _ => never,
        },
        Action::Done => never,
    }
}

/// What holds of every state that a log call reaches, and of the actions on
/// the way to it.
pub open spec fn reached(targets: nat, outcomes: Seq<bool>, rendered: nat) -> bool {
    let view = run(targets, outcomes, rendered);
    &&& well_formed(view)
    &&& view.targets == targets
    &&& view.stage is Acquire ==> outcomes.len() == view.cursor
    &&& !(view.stage is Acquire) ==> outcomes.len() >= targets
    &&& view.stage is Acquire ==> view.fragments == 0
    &&& !(view.stage is Acquire) && view.live.len() > 0 ==> view.fragments == rendered
    &&& forall|t: usize|
        view.live.contains(t) <==> (t < outcomes.len() && t < targets && outcomes[t as int])
    &&& forall|action: Action|
        !(action is Done) ==> #[trigger] times(actions(targets, outcomes, rendered), action)
            == issued(view, action)
}

/// With the cursor at the last acquired writer, every acquired writer is
/// passed.
proof fn lemma_all_passed(view: CallView, target: usize)
    requires
        view.cursor + 1 >= view.live.len(),
    ensures
        passed(view, target) == view.live.contains(target),
{
    if view.live.contains(target) {
        let i = choose|i: int| 0 <= i < view.live.len() && view.live[i] == target;
        assert(0 <= i <= view.cursor && i < view.live.len() && view.live[i] == target);
    }
    if passed(view, target) {
        let i = choose|i: int|
            0 <= i <= view.cursor && i < view.live.len() && view.live[i] == target;
        assert(view.live[i] == target);
    }
}

/// Moving the cursor on by one passes the writer it comes to, and no other.
proof fn lemma_one_more_passed(before: CallView, after: CallView, target: usize)
    requires
        well_formed(before),
        after.live == before.live,
        after.cursor == before.cursor + 1,
        after.cursor < after.live.len(),
    ensures
        passed(after, target) == (passed(before, target) || after.live[after.cursor as int]
            == target),
        !(passed(before, target) && after.live[after.cursor as int] == target),
{
    let last = after.cursor as int;
    if passed(before, target) {
        let i = choose|i: int|
            0 <= i <= before.cursor && i < before.live.len() && before.live[i] == target;
        assert(after.live[i] < after.live[last]);
        assert(0 <= i <= after.cursor && i < after.live.len() && after.live[i] == target);
    }
    if after.live[last] == target {
        assert(0 <= last <= after.cursor && last < after.live.len() && after.live[last] == target);
    }
    if passed(after, target) {
        let i = choose|i: int|
            0 <= i <= after.cursor && i < after.live.len() && after.live[i] == target;
        if i != last {
            assert(0 <= i <= before.cursor && i < before.live.len() && before.live[i] == target);
        }
    }
}

/// With the cursor at the first acquired writer, that writer alone is
/// passed.
proof fn lemma_first_passed(view: CallView, target: usize)
    requires
        well_formed(view),
        view.cursor == 0,
        view.live.len() > 0,
    ensures
        passed(view, target) == (view.live[0] == target),
{
    if view.live[0] == target {
        assert(0 <= 0 <= view.cursor && 0 < view.live.len() && view.live[0] == target);
    }
}

/// A step adds the action that is due after it to those that were due
/// before, and nothing else.
proof fn lemma_step_issues(before: CallView, succeeded: bool, rendered: nat, action: Action)
    requires
        well_formed(before),
        rendered <= usize::MAX,
        before.stage is Acquire ==> before.fragments == 0,
        !(before.stage is Acquire) && before.live.len() > 0 ==> before.fragments == rendered,
        !(action is Done),
    ensures
        issued(step(before, succeeded, rendered), action) == issued(before, action) + if pending(
            step(before, succeeded, rendered),
        ) == action {
            1nat
        } else {
            0nat
        },
{
    let view = step(before, succeeded, rendered);
    lemma_step_well_formed(before, succeeded, rendered);
    let target = match action {
        Action::Acquire(target) => target,
        Action::Write(target, _) => target,
        Action::Flush(target) => target,
        Action::Return(target) => target,
        Action::Done => 0usize,
    };
    let due: nat = if pending(view) == action {
        1
    } else {
        0
    };
    match before.stage {
        Stage::Acquire => {
            if !(view.stage is Acquire) {
                if view.live.len() > 0 {
                    lemma_first_passed(view, target);
                    if view.live[0] == target {
                        assert(view.live.contains(target));
                    }
                }
            }
            assert(issued(view, action) == issued(before, action) + due);
        },
        Stage::Write => {
            if before.cursor + 1 < before.live.len() {
                lemma_one_more_passed(before, view, target);
                if view.live[view.cursor as int] == target {
                    assert(view.live.contains(target));
                }
            } else {
                lemma_all_passed(before, target);
                lemma_first_passed(view, target);
                if view.live[0] == target {
                    assert(view.live.contains(target));
                }
            }
            assert(issued(view, action) == issued(before, action) + due);
        },
        Stage::Flush => {
            if before.cursor + 1 < before.live.len() {
                lemma_one_more_passed(before, view, target);
            } else {
                lemma_all_passed(before, target);
                lemma_first_passed(view, target);
            }
            assert(issued(view, action) == issued(before, action) + due);
        },
        Stage::Return => {
            if before.cursor + 1 < before.live.len() {
                lemma_one_more_passed(before, view, target);
            } else {
                lemma_all_passed(before, target);
            }
            assert(issued(view, action) == issued(before, action) + due);
        },
        Stage::Done => {},
    }
}

/// Every run of a log call keeps to `reached`.
pub proof fn lemma_reached(targets: nat, outcomes: Seq<bool>, rendered: nat)
    requires
        targets <= usize::MAX,
        rendered <= usize::MAX,
    ensures
        reached(targets, outcomes, rendered),
    decreases outcomes.len(),
{
    let view = run(targets, outcomes, rendered);
    let all = actions(targets, outcomes, rendered);
    if outcomes.len() == 0 {
        assert forall|action: Action| !(action is Done) implies #[trigger] times(all, action)
            == issued(view, action) by {
            assert(all.drop_last() =~= Seq::<Action>::empty());
            assert(times(all.drop_last(), action) == 0);
            assert(all.last() == pending(view));
        }
    } else {
        let earlier = outcomes.drop_last();
        let succeeded = outcomes.last();
        lemma_reached(targets, earlier, rendered);
        let before = run(targets, earlier, rendered);
        lemma_step_well_formed(before, succeeded, rendered);
        assert(view == step(before, succeeded, rendered));
        assert forall|t: usize|
            view.live.contains(t) <==> (t < outcomes.len() && t < targets
                && outcomes[t as int]) by {
            if t < earlier.len() {
                assert(outcomes[t as int] == earlier[t as int]);
            }
            if before.stage is Acquire {
                if succeeded {
                    let added = before.cursor as usize;
                    assert(view.live == before.live.push(added));
                    if before.live.contains(t) {
                        let i = choose|i: int| 0 <= i < before.live.len() && before.live[i] == t;
                        assert(view.live[i] == t);
                    }
                    if t == added {
                        assert(view.live[before.live.len() as int] == t);
                    }
                    if view.live.contains(t) {
                        let i = choose|i: int| 0 <= i < view.live.len() && view.live[i] == t;
                        if i < before.live.len() {
                            assert(before.live[i] == t);
                        }
                    }
                }
            }
        }
        assert forall|action: Action| !(action is Done) implies #[trigger] times(all, action)
            == issued(view, action) by {
            let past = actions(targets, earlier, rendered);
            assert(all.drop_last() =~= past);
            assert(all.last() == pending(view));
            assert(times(past, action) == issued(before, action));
            lemma_step_issues(before, succeeded, rendered, action);
        }
    }
}

/// In a log call that came to its end, every target was asked for its writer
/// once. A writer that was acquired received every fragment of the message
/// once, was flushed once and was handed back once, whatever the outcomes of
/// writing, flushing and handing back were, for it and for the others. A
/// target whose writer was not acquired was left alone. The outcome of
/// acquiring from target `t` is the one at index `t`.
pub proof fn lemma_every_writer_is_served(
    targets: nat,
    outcomes: Seq<bool>,
    rendered: nat,
    target: usize,
)
    requires
        targets <= usize::MAX,
        rendered <= usize::MAX,
        target < targets,
        run(targets, outcomes, rendered).stage is Done,
    ensures
        target < outcomes.len(),
        times(actions(targets, outcomes, rendered), Action::Acquire(target)) == 1,
        forall|fragment: usize| #[trigger]
            times(actions(targets, outcomes, rendered), Action::Write(target, fragment)) == if outcomes[target as int]
                && fragment < rendered {
                1nat
            } else {
                0nat
            },
        times(actions(targets, outcomes, rendered), Action::Flush(target)) == if outcomes[target as int] {
            1nat
        } else {
            0nat
        },
        times(actions(targets, outcomes, rendered), Action::Return(target)) == if outcomes[target as int] {
            1nat
        } else {
            0nat
        },
{
    lemma_reached(targets, outcomes, rendered);
    let view = run(targets, outcomes, rendered);
    let all = actions(targets, outcomes, rendered);
    assert(times(all, Action::Acquire(target)) == issued(view, Action::Acquire(target)));
    assert(times(all, Action::Flush(target)) == issued(view, Action::Flush(target)));
    assert(times(all, Action::Return(target)) == issued(view, Action::Return(target)));
    assert forall|fragment: usize| #[trigger]
        times(all, Action::Write(target, fragment)) == if outcomes[target as int] && fragment
            < rendered {
            1nat
        } else {
            0nat
        } by {
        assert(times(all, Action::Write(target, fragment)) == issued(
            view,
            Action::Write(target, fragment),
        ));
        if view.live.contains(target) {
            let i = choose|i: int| 0 <= i < view.live.len() && view.live[i] == target;
            assert(view.live.len() > 0);
        }
    }
}

/// In a log call that came to its end, the writer of a target was due to be
/// handed back once if it was acquired, and never if it was not, whatever
/// the outcomes of writing, flushing and handing back were.
pub proof fn lemma_returned_exactly_once(
    targets: nat,
    outcomes: Seq<bool>,
    rendered: nat,
    target: usize,
)
    requires
        targets <= usize::MAX,
        rendered <= usize::MAX,
        target < targets,
        run(targets, outcomes, rendered).stage is Done,
    ensures
        target < outcomes.len(),
        times(actions(targets, outcomes, rendered), Action::Return(target)) == if outcomes[target as int] {
            1nat
        } else {
            0nat
        },
{
    lemma_every_writer_is_served(targets, outcomes, rendered, target);
}

/// The number of actions that a log call to `targets` targets has at most,
/// for a message of `rendered` fragments: each target is asked once, and
/// each writer takes every fragment, one flush and one return.
pub open spec fn most_actions(targets: nat, rendered: nat) -> nat {
    targets * (rendered + 3)
}

/// An upper bound on the number of actions that are still due in a state,
/// the one that is due now counted in.
pub open spec fn left(view: CallView, rendered: nat) -> int {
    let writers = view.live.len() as int;
    match view.stage {
        Stage::Acquire => (view.targets - view.cursor) + view.targets * (rendered + 2),
        Stage::Write => (view.fragments - view.fragment - 1) * writers + (writers - view.cursor) + 2
            * writers,
        Stage::Flush => (writers - view.cursor) + writers,
        Stage::Return => writers - view.cursor,
        Stage::Done => 0,
    }
}

/// Every step uses up one of the actions that are left.
proof fn lemma_step_uses_one(view: CallView, succeeded: bool, rendered: nat)
    requires
        well_formed(view),
        rendered <= usize::MAX,
        !(view.stage is Done),
        view.stage is Acquire ==> view.fragments == 0,
        !(view.stage is Acquire) && view.live.len() > 0 ==> view.fragments == rendered,
    ensures
        left(step(view, succeeded, rendered), rendered) + 1 <= left(view, rendered),
        left(view, rendered) > 0,
{
    let after = step(view, succeeded, rendered);
    let writers = after.live.len() as int;
    let targets = view.targets as int;
    let fragments = rendered as int;
    match view.stage {
        Stage::Acquire => {
            if !(after.stage is Acquire) {
                assert(view.cursor + 1 == view.targets);
                assert(writers <= targets);
                assert(writers * (fragments + 2) <= targets * (fragments + 2)) by (nonlinear_arith)
                    requires
                        0 <= writers <= targets,
                        0 <= fragments,
                ;
                assert((fragments - 1) * writers + writers + 2 * writers == writers * (fragments
                    + 2)) by (nonlinear_arith);
                assert(writers * (fragments + 2) == fragments * writers + 2 * writers)
                    by (nonlinear_arith);
                if fragments == 0 {
                    assert(fragments * writers == 0) by (nonlinear_arith)
                        requires
                            fragments == 0,
                    ;
                }
                assert(0 <= targets * (fragments + 2)) by (nonlinear_arith)
                    requires
                        0 <= targets,
                        0 <= fragments,
                ;
            } else {
                assert(0 <= targets * (fragments + 2)) by (nonlinear_arith)
                    requires
                        0 <= targets,
                        0 <= fragments,
                ;
            }
        },
        Stage::Write => {
            let fragment = view.fragment as int;
            assert((fragments - fragment - 1) * writers == (fragments - fragment - 2) * writers
                + writers) by (nonlinear_arith);
            assert(0 <= (fragments - fragment - 1) * writers) by (nonlinear_arith)
                requires
                    0 <= fragments - fragment - 1,
                    0 <= writers,
            ;
        },
        Stage::Flush => {},
        Stage::Return => {},
        Stage::Done => {},
    }
}

/// After any outcomes, the call is over or the actions that are left and
/// those that are past are together no more than a call ever has.
pub proof fn lemma_actions_left(targets: nat, outcomes: Seq<bool>, rendered: nat)
    requires
        targets <= usize::MAX,
        rendered <= usize::MAX,
    ensures
        run(targets, outcomes, rendered).stage is Done || left(
            run(targets, outcomes, rendered),
            rendered,
        ) + outcomes.len() <= most_actions(targets, rendered),
    decreases outcomes.len(),
{
    let view = run(targets, outcomes, rendered);
    assert(targets * (rendered + 3) == targets + targets * (rendered + 2)) by (nonlinear_arith);
    if outcomes.len() > 0 {
        let earlier = outcomes.drop_last();
        lemma_actions_left(targets, earlier, rendered);
        lemma_reached(targets, earlier, rendered);
        let before = run(targets, earlier, rendered);
        if !(before.stage is Done) {
            lemma_step_uses_one(before, outcomes.last(), rendered);
        }
    }
}

/// Every log call comes to its end: once as many actions have ended as a
/// call has at most, whatever their outcomes, nothing is left to do.
pub proof fn lemma_call_ends(targets: nat, outcomes: Seq<bool>, rendered: nat)
    requires
        targets <= usize::MAX,
        rendered <= usize::MAX,
        outcomes.len() >= most_actions(targets, rendered),
    ensures
        run(targets, outcomes, rendered).stage is Done,
{
    lemma_actions_left(targets, outcomes, rendered);
    lemma_reached(targets, outcomes, rendered);
    let view = run(targets, outcomes, rendered);
    if !(view.stage is Done) {
        lemma_step_uses_one(view, true, rendered);
    }
}

/// No target ever goes back: with every step it stays in its state or takes
/// the next one, and a writer that was handed back or skipped stays so. This
/// is said of a message that has fragments, as every message of a logger
/// has: it ends with a line break.
pub proof fn lemma_states_move_on(view: CallView, succeeded: bool, rendered: nat, target: usize)
    requires
        well_formed(view),
        0 < rendered <= usize::MAX,
        target < view.targets,
    ensures
        moves_on(state_of(view, target), state_of(step(view, succeeded, rendered), target)),
{
    let after = step(view, succeeded, rendered);
    lemma_step_well_formed(view, succeeded, rendered);
    match view.stage {
        Stage::Acquire => {
            let added = view.cursor as usize;
            if succeeded {
                assert(after.live == view.live.push(added));
                assert(after.live[view.live.len() as int] == added);
                if view.live.contains(target) {
                    let i = choose|i: int| 0 <= i < view.live.len() && view.live[i] == target;
                    assert(after.live[i] == target);
                }
                if after.live.contains(target) && target != added {
                    let i = choose|i: int| 0 <= i < after.live.len() && after.live[i] == target;
                    assert(view.live[i] == target);
                }
            }
            if target > view.cursor {
                if view.live.contains(target) {
                    let i = choose|i: int| 0 <= i < view.live.len() && view.live[i] == target;
                    assert(view.live[i] < view.cursor);
                }
            }
            if !(after.stage is Acquire) && after.live.len() > 0 {
                lemma_first_passed(after, target);
            }
        },
        Stage::Write => {
            if !(after.stage is Write) {
                lemma_first_passed(after, target);
            }
        },
        Stage::Flush => {
            if view.cursor + 1 < view.live.len() {
                lemma_one_more_passed(view, after, target);
            } else {
                lemma_all_passed(view, target);
                lemma_first_passed(after, target);
            }
        },
        Stage::Return => {
            if view.cursor + 1 < view.live.len() {
                lemma_one_more_passed(view, after, target);
            } else {
                lemma_all_passed(view, target);
            }
        },
        Stage::Done => {},
    }
}

/// Two states that differ at most in the failures they note.
pub open spec fn same_course(one: CallView, other: CallView) -> bool {
    one == (CallView { failures: one.failures, ..other })
}

/// What is due in a log call depends on the outcomes of acquiring alone: two
/// runs that agree on those name the same actions, whatever came of writing,
/// flushing and handing back in either. So no failure of one writer keeps
/// anything from another.
pub proof fn lemma_failures_change_no_action(
    targets: nat,
    one: Seq<bool>,
    other: Seq<bool>,
    rendered: nat,
)
    requires
        targets <= usize::MAX,
        rendered <= usize::MAX,
        one.len() == other.len(),
        forall|t: int| 0 <= t < targets && t < one.len() ==> one[t] == other[t],
    ensures
        same_course(run(targets, one, rendered), run(targets, other, rendered)),
        actions(targets, one, rendered) == actions(targets, other, rendered),
    decreases one.len(),
{
    if one.len() > 0 {
        lemma_failures_change_no_action(targets, one.drop_last(), other.drop_last(), rendered);
        lemma_reached(targets, one.drop_last(), rendered);
        lemma_reached(targets, other.drop_last(), rendered);
    }
}

/// One log call of a logger for a record: it names the action that is due
/// and takes the outcome of each.
pub struct LogCall<'a, P: Placeholder, T> {
    logger: &'a Logger<P, T>,
    record: &'a Record,
    live: Vec<usize>,
    stage: Stage,
    cursor: usize,
    fragment: usize,
    fragments: Vec<String>,
    failures: Vec<Failure>,
}

impl<'a, P: Placeholder, T> View for LogCall<'a, P, T> {
    type V = CallView;

    closed spec fn view(&self) -> CallView {
        CallView {
            targets: self.logger.targets@.len(),
            live: self.live@,
            stage: self.stage,
            cursor: self.cursor as nat,
            fragment: self.fragment as nat,
            fragments: self.fragments@.len(),
            failures: self.failures@,
        }
    }
}

impl<'a, P: Placeholder, T> LogCall<'a, P, T> {
    /// The states that `new` and `advance` lead to: a state of a log call,
    /// with a message that, once rendered, is a message of the logger for
    /// the record.
    pub closed spec fn sound(&self) -> bool {
        &&& well_formed(self@)
        &&& self.fragments@.len() == 0 || self.logger.writes(*self.record, texts(self.fragments@))
    }

    /// The logger of the call.
    pub closed spec fn logger(&self) -> &Logger<P, T> {
        self.logger
    }

    /// The record of the call.
    pub closed spec fn record(&self) -> &Record {
        self.record
    }

    /// The fragments of the rendered message; none before it is rendered.
    pub closed spec fn message(&self) -> Seq<Seq<char>> {
        texts(self.fragments@)
    }

    /// The call of `logger` for `record`, at its start.
    pub fn new(logger: &'a Logger<P, T>, record: &'a Record) -> (out: Self)
        ensures
            out.sound(),
            out@ == start(logger.targets@.len() as nat),
            out.logger() == logger,
            out.record() == record,
            out.message() == Seq::<Seq<char>>::empty(),
            out.message().len() == out@.fragments,
            well_formed(out@),
    {
        let stage = if logger.targets.len() == 0 {
            Stage::Done
        } else {
            Stage::Acquire
        };
        let out = LogCall {
            logger,
            record,
            live: Vec::new(),
            stage,
            cursor: 0,
            fragment: 0,
            fragments: Vec::new(),
            failures: Vec::new(),
        };
        assert(out.message() =~= Seq::<Seq<char>>::empty());
        out
    }

    /// The action that is due.
    pub fn action(&self) -> (out: Action)
        requires
            self.sound(),
        ensures
            out == pending(self@),
    {
        match self.stage {
            Stage::Acquire => Action::Acquire(self.cursor),
            Stage::Write => Action::Write(self.live[self.cursor], self.fragment),
            Stage::Flush => Action::Flush(self.live[self.cursor]),
            Stage::Return => Action::Return(self.live[self.cursor]),
            Stage::Done => Action::Done,
        }
    }

    /// Whether the call is over.
    pub fn is_done(&self) -> (out: bool)
        ensures
            out == (self@.stage is Done),
    {
        match self.stage {
            Stage::Done => true,
            _ => false,
        }
    }

    /// The text of the fragment at `index` of the rendered message.
    pub fn fragment(&self, index: usize) -> (out: Option<&String>)
        ensures
            match out {
                Some(text) => index < self.message().len() && text@ == self.message()[index as int],
                None => index >= self.message().len(),
            },
    {
        if index < self.fragments.len() {
            Some(&self.fragments[index])
        } else {
            None
        }
    }

    /// The actions that did not succeed so far, in order.
    pub fn failures(&self) -> (out: &Vec<Failure>)
        ensures
            out@ == self@.failures,
    {
        &self.failures
    }

    /// Where a target stands in the call.
    pub fn state(&self, target: usize) -> (out: WriterState)
        requires
            self.sound(),
        ensures
            out == state_of(self@, target),
    {
        let mut place: usize = 0;
        while place < self.live.len() && self.live[place] != target
            invariant
                place <= self.live.len(),
                forall|j: int| 0 <= j < place ==> self.live@[j] != target,
            decreases self.live.len() - place,
        {
            place += 1;
        }
        let found = place < self.live.len();
        proof {
            if found {
                assert(self.live@.contains(target));
                if place <= self.cursor {
                    assert(0 <= place <= self@.cursor && place < self@.live.len()
                        && self@.live[place as int] == target);
                }
                if passed(self@, target) {
                    let i = choose|i: int|
                        0 <= i <= self@.cursor && i < self@.live.len() && self@.live[i] == target;
                    if i < place {
                        assert(self.live@[i] != target);
                    }
                    if i > place {
                        assert(self.live@[place as int] < self.live@[i]);
                    }
                }
            }
        }
        match self.stage {
            Stage::Acquire => if target < self.cursor {
                if found {
                    WriterState::Writing
                } else {
                    WriterState::Skipped
                }
            } else if target == self.cursor {
                WriterState::Acquiring
            } else {
                WriterState::Idle
            },
            _ => if !found {
                WriterState::Skipped
            } else {
                match self.stage {
                    Stage::Write => WriterState::Writing,
                    Stage::Flush => if place <= self.cursor {
                        WriterState::Flushing
                    } else {
                        WriterState::Writing
                    },
                    Stage::Return => if place <= self.cursor {
                        WriterState::Returned
                    } else {
                        WriterState::Flushing
                    },
                    _ => WriterState::Returned,
                }
            },
        }
    }

    /// Takes the outcome of the action that was due and names the next one.
    /// When the last target was asked for its writer and at least one writer
    /// is there, the message is rendered.
    pub fn advance(&mut self, succeeded: bool) -> (out: Action)
        requires
            old(self).sound(),
        ensures
            final(self).sound(),
            final(self)@ == step(
                old(self)@,
                succeeded,
                old(self).logger().fragment_count(*old(self).record()),
            ),
            out == pending(final(self)@),
            final(self).logger() == old(self).logger(),
            final(self).record() == old(self).record(),
            final(self).message() == old(self).message() || (old(self)@.stage is Acquire
                && final(self).logger().writes(*final(self).record(), final(self).message())),
            final(self).message().len() == final(self)@.fragments,
            well_formed(final(self)@),
            final(self)@.stage is Write ==> final(self).logger().writes(
                *final(self).record(),
                final(self).message(),
            ),
    {
        let ghost before = self@;
        let ghost rendered = self.logger.fragment_count(*self.record);
        match self.stage {
            Stage::Acquire => {
                if !succeeded {
                    self.failures.push(Failure { target: self.cursor, stage: Stage::Acquire });
                } else {
                    self.live.push(self.cursor);
                }
                if self.cursor + 1 < self.logger.targets.len() {
                    self.cursor = self.cursor + 1;
                } else if self.live.len() == 0 {
                    self.stage = Stage::Done;
                    self.cursor = 0;
                } else {
                    let message = self.logger.message(self.record);
                    let count = message.len();
                    assert(count == texts(message@).len() == rendered);
                    self.fragments = message;
                    self.stage = if count == 0 {
                        Stage::Flush
                    } else {
                        Stage::Write
                    };
                    self.cursor = 0;
                    self.fragment = 0;
                }
            },
            Stage::Write => {
                if !succeeded {
                    self.failures.push(
                        Failure { target: self.live[self.cursor], stage: Stage::Write },
                    );
                }
                if self.cursor + 1 < self.live.len() {
                    self.cursor = self.cursor + 1;
                } else if self.fragment < self.fragments.len() - 1 {
                    self.cursor = 0;
                    self.fragment = self.fragment + 1;
                } else {
                    self.stage = Stage::Flush;
                    self.cursor = 0;
                }
            },
            Stage::Flush => {
                if !succeeded {
                    self.failures.push(
                        Failure { target: self.live[self.cursor], stage: Stage::Flush },
                    );
                }
                if self.cursor + 1 < self.live.len() {
                    self.cursor = self.cursor + 1;
                } else {
                    self.stage = Stage::Return;
                    self.cursor = 0;
                }
            },
            Stage::Return => {
                if !succeeded {
                    self.failures.push(
                        Failure { target: self.live[self.cursor], stage: Stage::Return },
                    );
                }
                if self.cursor + 1 < self.live.len() {
                    self.cursor = self.cursor + 1;
                } else {
                    self.stage = Stage::Done;
                    self.cursor = 0;
                }
            },
            Stage::Done => {},
        }
        assert(self@ == step(before, succeeded, rendered));
        proof {
            if self.stage is Write {
                assert(self.fragments@.len() == texts(self.fragments@).len());
            }
            lemma_step_well_formed(before, succeeded, rendered);
        }
        self.action()
    }
}

} // verus!
