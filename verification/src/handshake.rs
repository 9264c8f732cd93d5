//! The worker's side of the handshake in which it receives its socket.
//!
//! The handshake is a sequence of actions that someone else performs: connect to the daemon, read
//! the configuration line, parse it, receive the descriptors, adopt the first and close the
//! others. Here it is decided which action comes next, given how the last one went.

use vstd::prelude::*;

use crate::error::K8sError;
use crate::scm_rights::RawFd;
use crate::worker::WorkerConfig;

verus! {

/// How many descriptors the worker makes room for: the socket, and a memfd that the daemon may
/// send along.
pub const RECEIVE_SLOTS: usize = 2;

/// What to do next.
pub enum Action {
    /// Connect to the Unix domain socket at this path.
    Connect(String),
    /// Read one line from the connection.
    ReadLine,
    /// Parse this text as a worker configuration.
    ParseConfig(String),
    /// Receive up to this many descriptors from the connection.
    Receive(usize),
    /// Take this descriptor into possession, as the socket that the worker asked for.
    Adopt(RawFd),
    /// Close this descriptor, which the worker has no use for.
    Close(RawFd),
}

/// How an action went.
pub enum Event {
    /// After [`Action::Connect`].
    Connected(Result<(), std::io::Error>),
    /// After [`Action::ReadLine`]: the line, with its end.
    Line(Result<String, std::io::Error>),
    /// After [`Action::ParseConfig`].
    Parsed(Result<WorkerConfig, serde_json::Error>),
    /// After [`Action::Receive`]: the descriptors that came.
    Received(Result<Vec<RawFd>, std::io::Error>),
    /// After [`Action::Adopt`].
    Adopted,
    /// After [`Action::Close`]: what `close` returned. A failure is of no consequence.
    Closed(i32),
}

/// How far the handshake has come, by the action that is under way.
pub enum Stage {
    /// The connection is being made.
    Connecting,
    /// The configuration line is being read.
    Reading,
    /// The configuration is being parsed.
    Parsing,
    /// The descriptors are being received.
    Receiving(WorkerConfig),
    /// The first of these descriptors is being adopted.
    Adopting(WorkerConfig, Vec<RawFd>),
    /// Of these descriptors, the one at the given place is being closed.
    Closing(WorkerConfig, Vec<RawFd>, usize),
}

/// The outcome of a decision.
pub enum Step {
    /// Perform this action, and come back with how it went.
    Perform(Stage, Action),
    /// The handshake has failed.
    Failed(K8sError),
    /// The worker has its socket, and this is its configuration.
    Complete(WorkerConfig),
}

/// What an [`Action`] asks for.
pub enum ActionView {
    Connect(Seq<char>),
    ReadLine,
    ParseConfig(Seq<char>),
    Receive(nat),
    Adopt(RawFd),
    Close(RawFd),
}

/// What an [`Event`] reports.
pub enum EventView {
    Connected(Result<(), std::io::Error>),
    Line(Result<Seq<char>, std::io::Error>),
    Parsed(Result<WorkerConfig, serde_json::Error>),
    Received(Result<Seq<RawFd>, std::io::Error>),
    Adopted,
    Closed(i32),
}

/// What a [`Stage`] stands for. In the last two, the descriptors are those that no action has been
/// asked for yet.
pub enum StageView {
    Connecting,
    Reading,
    Parsing,
    Receiving(WorkerConfig),
    Adopting(WorkerConfig, Seq<RawFd>),
    Closing(WorkerConfig, Seq<RawFd>),
}

/// What a [`Step`] stands for.
pub enum StepView {
    Perform(StageView, ActionView),
    Failed(K8sError),
    Complete(WorkerConfig),
}

impl View for Action {
    type V = ActionView;

    open spec fn view(&self) -> ActionView {
        match *self {
            Action::Connect(path) => ActionView::Connect(path@),
            Action::ReadLine => ActionView::ReadLine,
            Action::ParseConfig(text) => ActionView::ParseConfig(text@),
            Action::Receive(slots) => ActionView::Receive(slots as nat),
            Action::Adopt(fd) => ActionView::Adopt(fd),
            Action::Close(fd) => ActionView::Close(fd),
        }
    }
}

impl View for Event {
    type V = EventView;

    open spec fn view(&self) -> EventView {
        match *self {
            Event::Connected(result) => EventView::Connected(result),
            Event::Line(Ok(line)) => EventView::Line(Ok(line@)),
            Event::Line(Err(e)) => EventView::Line(Err(e)),
            Event::Parsed(result) => EventView::Parsed(result),
            Event::Received(Ok(fds)) => EventView::Received(Ok(fds@)),
            Event::Received(Err(e)) => EventView::Received(Err(e)),
            Event::Adopted => EventView::Adopted,
            Event::Closed(code) => EventView::Closed(code),
        }
    }
}

impl View for Stage {
    type V = StageView;

    open spec fn view(&self) -> StageView {
        match *self {
            Stage::Connecting => StageView::Connecting,
            Stage::Reading => StageView::Reading,
            Stage::Parsing => StageView::Parsing,
            Stage::Receiving(config) => StageView::Receiving(config),
            Stage::Adopting(config, fds) => StageView::Adopting(config, fds@.skip(1)),
            Stage::Closing(config, fds, place) => StageView::Closing(config, fds@.skip(place + 1)),
        }
    }
}

impl View for Step {
    type V = StepView;

    open spec fn view(&self) -> StepView {
        match *self {
            Step::Perform(stage, action) => StepView::Perform(stage@, action@),
            Step::Failed(error) => StepView::Failed(error),
            Step::Complete(config) => StepView::Complete(config),
        }
    }
}

impl Stage {
    /// The descriptor that is being adopted or closed is one of those that came.
    pub open spec fn valid(self) -> bool {
        match self {
            Stage::Adopting(_, fds) => 0 < fds@.len(),
            Stage::Closing(_, fds, place) => place < fds@.len(),
            _ => true,
        }
    }
}

/// The first step of a handshake with the daemon at `path`.
pub open spec fn first_step(path: Seq<char>) -> StepView {
    StepView::Perform(StageView::Connecting, ActionView::Connect(path))
}

/// `event` reports on the action that is under way in `stage`.
pub open spec fn answers(stage: StageView, event: EventView) -> bool {
    match (stage, event) {
        (StageView::Connecting, EventView::Connected(_)) => true,
        (StageView::Reading, EventView::Line(_)) => true,
        (StageView::Parsing, EventView::Parsed(_)) => true,
        (StageView::Receiving(_), EventView::Received(_)) => true,
        (StageView::Adopting(_, _), EventView::Adopted) => true,
        (StageView::Closing(_, _), EventView::Closed(_)) => true,
        _ => false,
    }
}

/// The step that closes the first of `rest`, or ends the handshake if there is none.
pub open spec fn close_next(config: WorkerConfig, rest: Seq<RawFd>) -> StepView {
    if rest.len() == 0 {
        StepView::Complete(config)
    } else {
        StepView::Perform(
            StageView::Closing(config, rest.drop_first()),
            ActionView::Close(rest[0]),
        )
    }
}

/// The step that follows when the action of `stage` went as `event` says.
pub open spec fn next_step(stage: StageView, event: EventView) -> StepView {
    match (stage, event) {
        (StageView::Connecting, EventView::Connected(Ok(_))) => StepView::Perform(
            StageView::Reading,
            ActionView::ReadLine,
        ),
        (StageView::Connecting, EventView::Connected(Err(e))) => StepView::Failed(K8sError::Io(e)),
        (StageView::Reading, EventView::Line(Ok(line))) => StepView::Perform(
            StageView::Parsing,
            ActionView::ParseConfig(crate::text::trimmed_end(line)),
        ),
        (StageView::Reading, EventView::Line(Err(e))) => StepView::Failed(K8sError::Io(e)),
        (StageView::Parsing, EventView::Parsed(Ok(config))) => StepView::Perform(
            StageView::Receiving(config),
            ActionView::Receive(RECEIVE_SLOTS as nat),
        ),
        (StageView::Parsing, EventView::Parsed(Err(e))) => StepView::Failed(
            K8sError::ConfigParse(e),
        ),
        (StageView::Receiving(config), EventView::Received(Ok(fds))) => if fds.len() == 0 {
            StepView::Failed(K8sError::NoFdsReceived)
        } else {
            StepView::Perform(
                StageView::Adopting(config, fds.drop_first()),
                ActionView::Adopt(fds[0]),
            )
        },
        (StageView::Receiving(_), EventView::Received(Err(e))) => StepView::Failed(
            K8sError::Io(e),
        ),
        (StageView::Adopting(config, rest), EventView::Adopted) => close_next(config, rest),
        (StageView::Closing(config, rest), EventView::Closed(_)) => close_next(config, rest),
        _ => arbitrary(),
    }
}

impl Step {
    /// What this step leaves to do can be gone on with.
    pub open spec fn valid(self) -> bool {
        match self {
            Step::Perform(stage, _) => stage.valid(),
            _ => true,
        }
    }
}

/// Begins to receive a socket from the daemon at `socket_path`.
pub fn receive_socket_fd(socket_path: &str) -> (step: Step)
    ensures
        step@ == first_step(socket_path@),
        step.valid(),
        step matches Step::Perform(Stage::Connecting, Action::Connect(path)) && path@
            == socket_path@,
{
    Step::Perform(Stage::Connecting, Action::Connect(socket_path.to_string()))
}

/// Closes the descriptor at `place`, or ends the handshake if there is none.
fn close_from(config: WorkerConfig, fds: Vec<RawFd>, place: usize) -> (step: Step)
    requires
        place <= fds@.len(),
    ensures
        step@ == close_next(config, fds@.skip(place as int)),
        step.valid(),
        place == fds@.len() ==> step == Step::Complete(config),
        place < fds@.len() ==> step == Step::Perform(
            Stage::Closing(config, fds, place),
            Action::Close(fds@[place as int]),
        ),
{
    if place < fds.len() {
        let fd: RawFd = fds[place];
        assert(fds@.skip(place as int).drop_first() =~= fds@.skip(place + 1));
        Step::Perform(Stage::Closing(config, fds, place), Action::Close(fd))
    } else {
        Step::Complete(config)
    }
}

impl Stage {
    /// Decides what follows when the action under way went as `event` says.
    pub fn advance(self, event: Event) -> (step: Step)
        requires
            self.valid(),
            answers(self@, event@),
        ensures
            step@ == next_step(self@, event@),
            step.valid(),
            match event {
                Event::Connected(Ok(_)) => step matches Step::Perform(
                    Stage::Reading,
                    Action::ReadLine,
                ),
                Event::Connected(Err(e)) => step == Step::Failed(K8sError::Io(e)),
                Event::Line(Ok(line)) => step matches Step::Perform(
                    Stage::Parsing,
                    Action::ParseConfig(text),
                ) && {
                    &&& text@.len() <= line@.len()
                    &&& text@ == line@.take(text@.len() as int)
                    &&& 0 < text@.len() ==> !crate::text::is_white_space(text@.last())
                    &&& forall|i: int|
                        text@.len() <= i < line@.len() ==> crate::text::is_white_space(
                            #[trigger] line@[i],
                        )
                },
                Event::Line(Err(e)) => step == Step::Failed(K8sError::Io(e)),
                Event::Parsed(Ok(parsed)) => step matches Step::Perform(
                    Stage::Receiving(config),
                    Action::Receive(slots),
                ) && config == parsed && slots == 2,
                Event::Parsed(Err(e)) => step == Step::Failed(K8sError::ConfigParse(e)),
                Event::Received(Ok(came)) => if came@.len() == 0 {
                    step == Step::Failed(K8sError::NoFdsReceived)
                } else {
                    step matches Step::Perform(Stage::Adopting(config, fds), Action::Adopt(fd))
                        && self == Stage::Receiving(config) && fds@ == came@ && fd == came@[0]
                },
                Event::Received(Err(e)) => step == Step::Failed(K8sError::Io(e)),
                Event::Adopted => match self {
                    Stage::Adopting(config, fds) => if fds@.len() == 1 {
                        step == Step::Complete(config)
                    } else {
                        step matches Step::Perform(
                            Stage::Closing(same, rest, place),
                            Action::Close(fd),
                        ) && same == config && rest@ == fds@ && place == 1 && fd == fds@[1]
                    },
                    _ => false,
                },
                Event::Closed(_) => match self {
                    Stage::Closing(config, fds, place) => if place + 1 == fds@.len() {
                        step == Step::Complete(config)
                    } else {
                        step matches Step::Perform(
                            Stage::Closing(same, rest, next),
                            Action::Close(fd),
                        ) && same == config && rest@ == fds@ && next == place + 1 && fd
                            == fds@[place + 1]
                    },
                    _ => false,
                },
            },
    {
        match (self, event) {
            (Stage::Connecting, Event::Connected(Ok(_))) => Step::Perform(
                Stage::Reading,
                Action::ReadLine,
            ),
            (Stage::Reading, Event::Line(Ok(line))) => {
                let text: String = line.as_str().trim_end().to_string();
                proof {
                    crate::text::law_trimmed(line@);
                }
                Step::Perform(Stage::Parsing, Action::ParseConfig(text))
            },
            (Stage::Parsing, Event::Parsed(Ok(config))) => Step::Perform(
                Stage::Receiving(config),
                Action::Receive(RECEIVE_SLOTS),
            ),
            (Stage::Receiving(config), Event::Received(Ok(fds))) => {
                if fds.len() == 0 {
                    Step::Failed(K8sError::NoFdsReceived)
                } else {
                    let fd: RawFd = fds[0];
                    assert(fds@.skip(1) =~= fds@.drop_first());
                    Step::Perform(Stage::Adopting(config, fds), Action::Adopt(fd))
                }
            },
            (Stage::Adopting(config, fds), _) => close_from(config, fds, 1),
            (Stage::Closing(config, fds, place), _) => {
                let count: usize = fds.len();
                assert(place < count);
                close_from(config, fds, place + 1)
            },
            (_, Event::Connected(Err(e))) => Step::Failed(K8sError::from(e)),
            (_, Event::Line(Err(e))) => Step::Failed(K8sError::from(e)),
            (_, Event::Parsed(Err(e))) => Step::Failed(K8sError::from(e)),
            (_, Event::Received(Err(e))) => Step::Failed(K8sError::from(e)),
            (_, _) => vstd::pervasive::unreached(),
        }
    }
}

/// A whole handshake from `step` on: the events answer, one by one, the actions asked for, and the
/// last of them ends it.
pub open spec fn concludes(step: StepView, events: Seq<EventView>) -> bool
    decreases events.len(),
{
    match step {
        StepView::Perform(stage, _) => {
            &&& 0 < events.len()
            &&& answers(stage, events[0])
            &&& concludes(next_step(stage, events[0]), events.drop_first())
        },
        _ => events.len() == 0,
    }
}

/// The actions asked for from `step` on, while they go as `events` say.
pub open spec fn actions(step: StepView, events: Seq<EventView>) -> Seq<ActionView>
    decreases events.len(),
{
    match step {
        StepView::Perform(stage, action) => if events.len() == 0 {
            seq![action]
        } else {
            seq![action] + actions(next_step(stage, events[0]), events.drop_first())
        },
        _ => Seq::empty(),
    }
}

/// The step that is reached from `step` while the actions go as `events` say.
pub open spec fn outcome(step: StepView, events: Seq<EventView>) -> StepView
    decreases events.len(),
{
    match step {
        StepView::Perform(stage, _) => if events.len() == 0 {
            step
        } else {
            outcome(next_step(stage, events[0]), events.drop_first())
        },
        _ => step,
    }
}

/// The descriptors that `actions` adopt or close, in order.
pub open spec fn settled(actions: Seq<ActionView>) -> Seq<RawFd>
    decreases actions.len(),
{
    if actions.len() == 0 {
        Seq::empty()
    } else {
        (match actions[0] {
            ActionView::Adopt(fd) => seq![fd],
            ActionView::Close(fd) => seq![fd],
            _ => Seq::empty(),
        }) + settled(actions.drop_first())
    }
}

/// The descriptors that came in, by the reports of `events`.
pub open spec fn delivered(events: Seq<EventView>) -> Seq<RawFd>
    decreases events.len(),
{
    if events.len() == 0 {
        Seq::empty()
    } else {
        (match events[0] {
            EventView::Received(Ok(fds)) => fds,
            _ => Seq::empty(),
        }) + delivered(events.drop_first())
    }
}

/// The error with which a handshake ends when it meets `event`, if it does.
pub open spec fn failure(event: EventView) -> Option<K8sError> {
    match event {
        EventView::Connected(Err(e)) => Some(K8sError::Io(e)),
        EventView::Line(Err(e)) => Some(K8sError::Io(e)),
        EventView::Parsed(Err(e)) => Some(K8sError::ConfigParse(e)),
        EventView::Received(Err(e)) => Some(K8sError::Io(e)),
        EventView::Received(Ok(fds)) => if fds.len() == 0 {
            Some(K8sError::NoFdsReceived)
        } else {
            None
        },
        _ => None,
    }
}

/// The descriptors that have come in when `step` is reached and that no earlier action settled.
spec fn unsettled(step: StepView) -> Seq<RawFd> {
    match step {
        StepView::Perform(StageView::Adopting(_, rest), ActionView::Adopt(fd)) => seq![fd] + rest,
        StepView::Perform(StageView::Closing(_, rest), ActionView::Close(fd)) => seq![fd] + rest,
        _ => Seq::empty(),
    }
}

/// The action of a step is the one that its stage is about.
spec fn coherent(step: StepView) -> bool {
    match step {
        StepView::Perform(stage, action) => match (stage, action) {
            (StageView::Connecting, ActionView::Connect(_)) => true,
            (StageView::Reading, ActionView::ReadLine) => true,
            (StageView::Parsing, ActionView::ParseConfig(_)) => true,
            (StageView::Receiving(_), ActionView::Receive(_)) => true,
            (StageView::Adopting(_, _), ActionView::Adopt(_)) => true,
            (StageView::Closing(_, _), ActionView::Close(_)) => true,
            _ => false,
        },
        _ => true,
    }
}

proof fn lemma_settled(step: StepView, events: Seq<EventView>)
    requires
        coherent(step),
        concludes(step, events),
    ensures
        settled(actions(step, events)) == unsettled(step) + delivered(events),
    decreases events.len(),
{
    match step {
        StepView::Perform(stage, action) => {
            let after = next_step(stage, events[0]);
            lemma_settled(after, events.drop_first());
            let all = actions(step, events);
            assert(all.drop_first() =~= actions(after, events.drop_first()));
            assert(settled(all) =~= unsettled(step) + delivered(events));
        },
        _ => {},
    }
}

/// No descriptor is leaked: in every handshake that has come to its end, however it ended, the
/// descriptors that were adopted or closed are exactly those that came in, one for one and in the
/// same order.
pub proof fn law_no_descriptor_leaks(path: Seq<char>, events: Seq<EventView>)
    requires
        concludes(first_step(path), events),
    ensures
        settled(actions(first_step(path), events)) == delivered(events),
{
    lemma_settled(first_step(path), events);
    assert(Seq::<RawFd>::empty() + delivered(events) =~= delivered(events));
}

proof fn lemma_failures(step: StepView, events: Seq<EventView>)
    requires
        concludes(step, events),
        0 < events.len(),
    ensures
        forall|i: int| 0 <= i < events.len() - 1 ==> failure(#[trigger] events[i]) is None,
        match failure(events.last()) {
            Some(error) => outcome(step, events) == StepView::Failed(error),
            None => outcome(step, events) is Complete,
        },
    decreases events.len(),
{
    let after = next_step(step->Perform_0, events[0]);
    let rest = events.drop_first();
    if rest.len() == 0 {
        assert(concludes(after, rest));
    } else {
        lemma_failures(after, rest);
        assert(concludes(after, rest));
        assert(after is Perform);
        assert forall|i: int| 0 <= i < events.len() - 1 implies failure(
            #[trigger] events[i],
        ) is None by {
            if 0 < i {
                assert(rest[i - 1] == events[i]);
            }
        }
        assert(rest.last() == events.last());
    }
}

/// A handshake ends with the first thing that goes wrong, and reports that; if nothing does, it
/// completes.
pub proof fn law_first_failure_is_reported(path: Seq<char>, events: Seq<EventView>)
    requires
        concludes(first_step(path), events),
    ensures
        0 < events.len(),
        forall|i: int| 0 <= i < events.len() - 1 ==> failure(#[trigger] events[i]) is None,
        match failure(events.last()) {
            Some(error) => outcome(first_step(path), events) == StepView::Failed(error),
            None => outcome(first_step(path), events) is Complete,
        },
        match events.last() {
            EventView::Connected(Err(e)) => outcome(first_step(path), events) == StepView::Failed(
                K8sError::Io(e),
            ),
            EventView::Line(Err(e)) => outcome(first_step(path), events) == StepView::Failed(
                K8sError::Io(e),
            ),
            EventView::Parsed(Err(e)) => outcome(first_step(path), events) == StepView::Failed(
                K8sError::ConfigParse(e),
            ),
            EventView::Received(Err(e)) => outcome(first_step(path), events) == StepView::Failed(
                K8sError::Io(e),
            ),
            EventView::Received(Ok(fds)) => fds.len() == 0 && outcome(first_step(path), events)
                == StepView::Failed(K8sError::NoFdsReceived),
            EventView::Adopted => outcome(first_step(path), events) is Complete,
            EventView::Closed(_) => outcome(first_step(path), events) is Complete,
            _ => false,
        },
{
    lemma_failures(first_step(path), events);
    lemma_last_event(first_step(path), events);
}

/// A report that a connection was made, a line was read or a configuration was parsed, or that
/// descriptors came, is never the last.
proof fn lemma_last_event(step: StepView, events: Seq<EventView>)
    requires
        concludes(step, events),
        0 < events.len(),
    ensures
        match events.last() {
            EventView::Connected(Ok(_)) => false,
            EventView::Line(Ok(_)) => false,
            EventView::Parsed(Ok(_)) => false,
            EventView::Received(Ok(fds)) => fds.len() == 0,
            _ => true,
        },
    decreases events.len(),
{
    let rest = events.drop_first();
    let after = next_step(step->Perform_0, events[0]);
    assert(concludes(after, rest));
    if 0 < rest.len() {
        lemma_last_event(after, rest);
        assert(rest.last() == events.last());
    }
}

/// When the connection cannot be made, that is all that happens.
pub proof fn law_refused_connection(path: Seq<char>, e: std::io::Error)
    ensures
        ({
            let events = seq![EventView::Connected(Err(e))];
            &&& concludes(first_step(path), events)
            &&& actions(first_step(path), events) == seq![ActionView::Connect(path)]
            &&& outcome(first_step(path), events) == StepView::Failed(K8sError::Io(e))
        }),
{
    let events = seq![EventView::Connected(Err(e))];
    assert(events.drop_first() =~= Seq::empty());
    reveal_with_fuel(concludes, 2);
    reveal_with_fuel(actions, 2);
    reveal_with_fuel(outcome, 2);
    assert(actions(first_step(path), events) =~= seq![ActionView::Connect(path)]);
}

/// When the line cannot be read, nothing is parsed and nothing is received.
pub proof fn law_unread_line(path: Seq<char>, e: std::io::Error)
    ensures
        ({
            let events = seq![EventView::Connected(Ok(())), EventView::Line(Err(e))];
            &&& concludes(first_step(path), events)
            &&& actions(first_step(path), events) == seq![
                ActionView::Connect(path),
                ActionView::ReadLine,
            ]
            &&& outcome(first_step(path), events) == StepView::Failed(K8sError::Io(e))
        }),
{
    let events = seq![EventView::Connected(Ok(())), EventView::Line(Err(e))];
    assert(events.drop_first() =~= seq![EventView::Line(Err(e))]);
    assert(events.drop_first().drop_first() =~= Seq::empty());
    reveal_with_fuel(concludes, 3);
    reveal_with_fuel(actions, 3);
    reveal_with_fuel(outcome, 3);
    assert(actions(first_step(path), events) =~= seq![
        ActionView::Connect(path),
        ActionView::ReadLine,
    ]);
}

/// When the configuration cannot be parsed, no descriptors are received.
pub proof fn law_unparsed_configuration(path: Seq<char>, line: Seq<char>, e: serde_json::Error)
    ensures
        ({
            let events = seq![
                EventView::Connected(Ok(())),
                EventView::Line(Ok(line)),
                EventView::Parsed(Err(e)),
            ];
            let asked = actions(first_step(path), events);
            &&& concludes(first_step(path), events)
            &&& asked.len() == 3
            &&& asked[0] == ActionView::Connect(path)
            &&& asked[1] is ReadLine
            &&& asked[2] == ActionView::ParseConfig(crate::text::trimmed_end(line))
            &&& outcome(first_step(path), events) == StepView::Failed(K8sError::ConfigParse(e))
        }),
{
    let events = seq![
        EventView::Connected(Ok(())),
        EventView::Line(Ok(line)),
        EventView::Parsed(Err(e)),
    ];
    let events1 = events.drop_first();
    let events2 = events1.drop_first();
    assert(events1 =~= seq![EventView::Line(Ok(line)), EventView::Parsed(Err(e))]);
    assert(events2 =~= seq![EventView::Parsed(Err(e))]);
    assert(events2.drop_first() =~= Seq::empty());
    reveal_with_fuel(concludes, 4);
    reveal_with_fuel(actions, 4);
    reveal_with_fuel(outcome, 4);
}

/// When receiving fails, or brings no descriptor, nothing is adopted and nothing is closed.
pub proof fn law_nothing_received(
    path: Seq<char>,
    line: Seq<char>,
    config: WorkerConfig,
    result: Result<Seq<RawFd>, std::io::Error>,
)
    requires
        result is Ok ==> result->Ok_0.len() == 0,
    ensures
        ({
            let events = seq![
                EventView::Connected(Ok(())),
                EventView::Line(Ok(line)),
                EventView::Parsed(Ok(config)),
                EventView::Received(result),
            ];
            let asked = actions(first_step(path), events);
            &&& concludes(first_step(path), events)
            &&& asked.len() == 4
            &&& asked[0] == ActionView::Connect(path)
            &&& asked[1] is ReadLine
            &&& asked[2] == ActionView::ParseConfig(crate::text::trimmed_end(line))
            &&& asked[3] == ActionView::Receive(2)
            &&& outcome(first_step(path), events) == StepView::Failed(
                match result {
                    Ok(_) => K8sError::NoFdsReceived,
                    Err(e) => K8sError::Io(e),
                },
            )
        }),
{
    let events = seq![
        EventView::Connected(Ok(())),
        EventView::Line(Ok(line)),
        EventView::Parsed(Ok(config)),
        EventView::Received(result),
    ];
    let events1 = events.drop_first();
    let events2 = events1.drop_first();
    let events3 = events2.drop_first();
    assert(events1 =~= seq![
        EventView::Line(Ok(line)),
        EventView::Parsed(Ok(config)),
        EventView::Received(result),
    ]);
    assert(events2 =~= seq![EventView::Parsed(Ok(config)), EventView::Received(result)]);
    assert(events3 =~= seq![EventView::Received(result)]);
    assert(events3.drop_first() =~= Seq::empty());
    reveal_with_fuel(concludes, 5);
    reveal_with_fuel(actions, 5);
    reveal_with_fuel(outcome, 5);
}

/// A stage can be gone on from unless it is about a descriptor that is not there: the first of none
/// to adopt, or one behind the last to close.
pub proof fn law_valid_stages(stage: Stage)
    ensures
        match stage {
            Stage::Adopting(_, fds) => stage.valid() <==> fds@.len() != 0,
            Stage::Closing(_, fds, place) => stage.valid() <==> place < fds@.len(),
            _ => stage.valid(),
        },
{
}

/// Every action can be answered, however it went.
pub proof fn law_every_action_has_its_report(
    config: WorkerConfig,
    rest: Seq<RawFd>,
    connected: Result<(), std::io::Error>,
    line: Result<Seq<char>, std::io::Error>,
    parsed: Result<WorkerConfig, serde_json::Error>,
    received: Result<Seq<RawFd>, std::io::Error>,
    code: i32,
)
    ensures
        answers(StageView::Connecting, EventView::Connected(connected)),
        answers(StageView::Reading, EventView::Line(line)),
        answers(StageView::Parsing, EventView::Parsed(parsed)),
        answers(StageView::Receiving(config), EventView::Received(received)),
        answers(StageView::Adopting(config, rest), EventView::Adopted),
        answers(StageView::Closing(config, rest), EventView::Closed(code)),
{
}

proof fn lemma_closing(config: WorkerConfig, rest: Seq<RawFd>, codes: Seq<i32>)
    requires
        codes.len() == rest.len(),
    ensures
        ({
            let step = close_next(config, rest);
            let events = codes.map_values(|code: i32| EventView::Closed(code));
            &&& concludes(step, events)
            &&& actions(step, events) == rest.map_values(|fd: RawFd| ActionView::Close(fd))
            &&& outcome(step, events) == StepView::Complete(config)
        }),
    decreases rest.len(),
{
    let step = close_next(config, rest);
    let events = codes.map_values(|code: i32| EventView::Closed(code));
    let closes = rest.map_values(|fd: RawFd| ActionView::Close(fd));
    if rest.len() == 0 {
        assert(actions(step, events) =~= closes);
    } else {
        lemma_closing(config, rest.drop_first(), codes.drop_first());
        assert(events.drop_first() =~= codes.drop_first().map_values(
            |code: i32| EventView::Closed(code),
        ));
        assert(actions(step, events) =~= closes);
    }
}

/// When all goes well, the worker connects, reads the line, has it parsed without the white space
/// at its end, receives, adopts the first descriptor and closes all others in their order, whatever
/// closing them returns. It ends with the configuration that was parsed.
pub proof fn law_successful_handshake(
    path: Seq<char>,
    line: Seq<char>,
    config: WorkerConfig,
    fds: Seq<RawFd>,
    codes: Seq<i32>,
)
    requires
        0 < fds.len(),
        codes.len() == fds.len() - 1,
    ensures
        ({
            let step = first_step(path);
            let events = seq![
                EventView::Connected(Ok(())),
                EventView::Line(Ok(line)),
                EventView::Parsed(Ok(config)),
                EventView::Received(Ok(fds)),
                EventView::Adopted,
            ] + codes.map_values(|code: i32| EventView::Closed(code));
            &&& concludes(step, events)
            &&& actions(step, events) == seq![
                ActionView::Connect(path),
                ActionView::ReadLine,
                ActionView::ParseConfig(crate::text::trimmed_end(line)),
                ActionView::Receive(RECEIVE_SLOTS as nat),
                ActionView::Adopt(fds[0]),
            ] + fds.drop_first().map_values(|fd: RawFd| ActionView::Close(fd))
            &&& outcome(step, events) == StepView::Complete(config)
            &&& actions(step, events)[3] == ActionView::Receive(2)
        }),
{
    let closed = codes.map_values(|code: i32| EventView::Closed(code));
    let events0 = seq![
        EventView::Connected(Ok(())),
        EventView::Line(Ok(line)),
        EventView::Parsed(Ok(config)),
        EventView::Received(Ok(fds)),
        EventView::Adopted,
    ] + closed;
    let events1 = events0.drop_first();
    let events2 = events1.drop_first();
    let events3 = events2.drop_first();
    let events4 = events3.drop_first();
    lemma_closing(config, fds.drop_first(), codes);
    assert(events4.drop_first() =~= closed);
    let step0 = first_step(path);
    let step1 = next_step(StageView::Connecting, events0[0]);
    let step2 = next_step(StageView::Reading, events1[0]);
    let step3 = next_step(StageView::Parsing, events2[0]);
    let step4 = next_step(StageView::Receiving(config), events3[0]);
    assert(concludes(step4, events4));
    assert(concludes(step3, events3));
    assert(concludes(step2, events2));
    assert(concludes(step1, events1));
    assert(concludes(step0, events0));
    assert(outcome(step4, events4) == StepView::Complete(config));
    assert(outcome(step3, events3) == StepView::Complete(config));
    assert(outcome(step2, events2) == StepView::Complete(config));
    assert(outcome(step1, events1) == StepView::Complete(config));
    let closes = fds.drop_first().map_values(|fd: RawFd| ActionView::Close(fd));
    assert(actions(step4, events4) == seq![ActionView::Adopt(fds[0])] + closes);
    assert(actions(step3, events3) == seq![ActionView::Receive(RECEIVE_SLOTS as nat)] + actions(
        step4,
        events4,
    ));
    assert(actions(step2, events2) == seq![
        ActionView::ParseConfig(crate::text::trimmed_end(line)),
    ] + actions(step3, events3));
    assert(actions(step1, events1) == seq![ActionView::ReadLine] + actions(step2, events2));
    assert(actions(step0, events0) =~= seq![
        ActionView::Connect(path),
        ActionView::ReadLine,
        ActionView::ParseConfig(crate::text::trimmed_end(line)),
        ActionView::Receive(RECEIVE_SLOTS as nat),
        ActionView::Adopt(fds[0]),
    ] + closes);
}

} // verus!
