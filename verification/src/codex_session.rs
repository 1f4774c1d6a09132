//! A conversation with the app server: one thread, one turn, one answer.

use crate::codex_messages::{
    completed_text, delta_of, initialize_line, initialize_request, is_refusal,
    law_initialize_one_line, law_refusal_one_line, law_requests_are_no_refusals,
    law_thread_start_one_line, law_turn_start_one_line, message_on, read_message, refusal,
    refusal_of, reject_server_request, text_from_codex_notification, thread_params,
    thread_start_line, thread_start_request, turn_params, turn_start_line, turn_start_request,
    MessageView, ServerMessage,
};
use crate::json::{is_one_line, json_error, optional_text};
use crate::text::{blank, is_blank, is_white_space, same_text};
use vstd::prelude::*;

verus! {

/// Where a conversation stands.
#[derive(Debug, Clone, PartialEq, Eq)]
pub enum Phase {
    /// The client introduced itself and waits for the reply.
    Initializing,
    /// A thread is being started.
    StartingThread,
    /// A turn is being started.
    StartingTurn,
    /// The turn with this id is running.
    Running(String),
    /// The conversation ended.
    Closed,
}

/// What a [`Phase`] holds.
pub enum PhaseView {
    Initializing,
    StartingThread,
    StartingTurn,
    Running(Seq<char>),
    Closed,
}

impl View for Phase {
    type V = PhaseView;

    open spec fn view(&self) -> PhaseView {
        match self {
            Phase::Initializing => PhaseView::Initializing,
            Phase::StartingThread => PhaseView::StartingThread,
            Phase::StartingTurn => PhaseView::StartingTurn,
            Phase::Running(turn_id) => PhaseView::Running(turn_id@),
            Phase::Closed => PhaseView::Closed,
        }
    }
}

/// A conversation with the app server.
#[derive(Debug, Clone, PartialEq, Eq)]
pub struct CodexSession {
    pub workdir: String,
    pub model: Option<String>,
    pub prompt: String,
    pub phase: Phase,
    pub accumulated: String,
    pub final_text: Option<String>,
}

/// What a [`CodexSession`] holds.
pub struct SessionView {
    pub workdir: Seq<char>,
    pub model: Option<Seq<char>>,
    pub prompt: Seq<char>,
    pub phase: PhaseView,
    pub accumulated: Seq<char>,
    pub final_text: Option<Seq<char>>,
}

impl View for CodexSession {
    type V = SessionView;

    open spec fn view(&self) -> SessionView {
        SessionView {
            workdir: self.workdir@,
            model: optional_text(self.model),
            prompt: self.prompt@,
            phase: self.phase@,
            accumulated: self.accumulated@,
            final_text: optional_text(self.final_text),
        }
    }
}

/// What to do after a message.
#[derive(Debug, Clone, PartialEq, Eq)]
pub enum Step {
    /// Wait for the next message.
    Wait,
    /// Send this line, and wait for the next message.
    Send(String),
    /// The conversation ended with this answer.
    Answered(String),
    /// The conversation failed for this reason.
    Failed(String),
}

/// What a [`Step`] holds.
pub enum StepView {
    Wait,
    Send(Seq<char>),
    Answered(Seq<char>),
    Failed(Seq<char>),
}

impl View for Step {
    type V = StepView;

    open spec fn view(&self) -> StepView {
        match self {
            Step::Wait => StepView::Wait,
            Step::Send(line) => StepView::Send(line@),
            Step::Answered(text) => StepView::Answered(text@),
            Step::Failed(reason) => StepView::Failed(reason@),
        }
    }
}

impl SessionView {
    /// The same conversation in another phase.
    pub open spec fn in_phase(self, phase: PhaseView) -> SessionView {
        SessionView { phase, ..self }
    }

    /// The id of the request whose reply the conversation waits for.
    pub open spec fn awaited_id(self) -> Option<u64> {
        match self.phase {
            PhaseView::Initializing => Some(1),
            PhaseView::StartingThread => Some(2),
            PhaseView::StartingTurn => Some(3),
            _ => None,
        }
    }

    /// Whether a message is the reply that the conversation waits for.
    pub open spec fn is_reply(self, message: MessageView) -> bool {
        &&& self.awaited_id() is Some
        &&& message.id matches Some(id) && id.unsigned == self.awaited_id()
    }

    /// Ends the conversation without an answer.
    pub open spec fn failed(self, reason: Seq<char>) -> (SessionView, StepView) {
        (self.in_phase(PhaseView::Closed), StepView::Failed(reason))
    }

    /// Refuses what is a request and ignores everything else.
    pub open spec fn refused(self, message: MessageView) -> (SessionView, StepView) {
        match refusal_of(message) {
            Some(line) => (self, StepView::Send(line)),
            None => (self, StepView::Wait),
        }
    }

    /// The step on the reply that was waited for.
    pub open spec fn on_reply(self, message: MessageView) -> (SessionView, StepView) {
        let result = match message.result {
            Some(result) => result,
            None => "null"@,
        };
        match message.error {
            Some(error) => self.failed("codex app-server error: "@ + error),
            None => match self.phase {
                PhaseView::Initializing => (
                    self.in_phase(PhaseView::StartingThread),
                    StepView::Send(thread_start_request(self.workdir, self.model)),
                ),
                PhaseView::StartingThread => match message.new_thread_id {
                    Some(thread_id) => (
                        self.in_phase(PhaseView::StartingTurn),
                        StepView::Send(turn_start_request(thread_id, self.prompt)),
                    ),
                    None => self.failed(
                        "thread/start did not return a thread id: "@ + result,
                    ),
                },
                _ => match message.new_turn_id {
                    Some(turn_id) => (self.in_phase(PhaseView::Running(turn_id)), StepView::Wait),
                    None => self.failed("turn/start did not return a turn id: "@ + result),
                },
            },
        }
    }

    /// The conversation with what a notification of its turn adds.
    pub open spec fn with_notification(self, message: MessageView, turn_id: Seq<char>) -> SessionView {
        SessionView {
            accumulated: self.accumulated + delta_of(message, turn_id),
            final_text: match completed_text(message, turn_id) {
                Some(text) => Some(text),
                None => self.final_text,
            },
            ..self
        }
    }

    /// The end of the turn: the last whole answer, or else the pieces of one.
    pub open spec fn on_completion(self) -> (SessionView, StepView) {
        match self.final_text {
            Some(text) => (self.in_phase(PhaseView::Closed), StepView::Answered(text)),
            None => if is_blank(self.accumulated) {
                self.failed("codex app-server completed without an agent message"@)
            } else {
                (self.in_phase(PhaseView::Closed), StepView::Answered(self.accumulated))
            },
        }
    }

    /// Whether a message ends the turn.
    pub open spec fn is_completion(message: MessageView, turn_id: Seq<char>) -> bool {
        message.method == Some("turn/completed"@) && message.completed_turn_id == Some(turn_id)
    }

    /// The step on a message while a turn is running.
    pub open spec fn on_turn_message(self, message: MessageView, turn_id: Seq<char>) -> (
        SessionView,
        StepView,
    ) {
        let next = self.with_notification(message, turn_id);
        if SessionView::is_completion(message, turn_id) {
            next.on_completion()
        } else if message.method == Some("error"@) {
            next.failed("codex app-server notification error: "@ + message.text)
        } else {
            next.refused(message)
        }
    }

    /// The step on a message.
    pub open spec fn on_message(self, message: MessageView) -> (SessionView, StepView) {
        match self.phase {
            PhaseView::Running(turn_id) => self.on_turn_message(message, turn_id),
            PhaseView::Closed => (self, StepView::Wait),
            _ => if self.is_reply(message) {
                self.on_reply(message)
            } else {
                self.refused(message)
            },
        }
    }

    /// The step on a line.
    pub open spec fn on_line(self, line: Seq<char>) -> (SessionView, StepView) {
        match json_error(line) {
            Some(error) => self.failed("invalid app-server json: "@ + error),
            None => self.on_message(message_on(line)),
        }
    }
}

impl CodexSession {
    /// Starts a conversation: gives it and the line that opens it.
    pub fn start(workdir: &str, model: Option<String>, prompt: String, version: &str) -> (started: (
        Self,
        String,
    ))
        ensures
            started.0@ == (SessionView {
                workdir: workdir@,
                model: optional_text(model),
                prompt: prompt@,
                phase: PhaseView::Initializing,
                accumulated: seq![],
                final_text: None,
            }),
            started.1@ == initialize_request(version@),
            is_one_line(started.1@),
    {
        proof {
            law_initialize_one_line(version@);
        }
        let session = CodexSession {
            workdir: workdir.to_owned(),
            model,
            prompt,
            phase: Phase::Initializing,
            accumulated: String::new(),
            final_text: None,
        };
        (session, initialize_line(version))
    }

    fn fail(&mut self, what: &str, detail: &str) -> (step: Step)
        ensures
            (final(self)@, step@) == old(self)@.failed(what@ + detail@),
    {
        self.phase = Phase::Closed;
        Step::Failed(what.to_owned().concat(detail))
    }

    fn refuse(&mut self, message: &ServerMessage) -> (step: Step)
        ensures
            (final(self)@, step@) == old(self)@.refused(message@),
    {
        match reject_server_request(message) {
            Some(line) => Step::Send(line),
            None => Step::Wait,
        }
    }

    fn reply(&mut self, message: &ServerMessage) -> (step: Step)
        requires
            old(self)@.awaited_id() is Some,
        ensures
            (final(self)@, step@) == old(self)@.on_reply(message@),
    {
        if let Some(error) = &message.error {
            return self.fail("codex app-server error: ", error.as_str());
        }
        let null = "null".to_owned();
        let result = match &message.result {
            Some(result) => result,
            None => &null,
        };
        match &self.phase {
            Phase::Initializing => {
                self.phase = Phase::StartingThread;
                Step::Send(thread_start_line(self.workdir.as_str(), &self.model))
            },
            Phase::StartingThread => match &message.new_thread_id {
                Some(thread_id) => {
                    self.phase = Phase::StartingTurn;
                    Step::Send(turn_start_line(thread_id.as_str(), self.prompt.as_str()))
                },
                None => self.fail("thread/start did not return a thread id: ", result.as_str()),
            },
            _ => match &message.new_turn_id {
                Some(turn_id) => {
                    self.phase = Phase::Running(turn_id.clone());
                    Step::Wait
                },
                None => self.fail("turn/start did not return a turn id: ", result.as_str()),
            },
        }
    }

    fn complete(&mut self) -> (step: Step)
        ensures
            (final(self)@, step@) == old(self)@.on_completion(),
    {
        match &self.final_text {
            Some(text) => {
                let text = text.clone();
                self.phase = Phase::Closed;
                Step::Answered(text)
            },
            None => if blank(self.accumulated.as_str()) {
                proof {
                    reveal_strlit("");
                    assert("codex app-server completed without an agent message"@ + ""@
                        =~= "codex app-server completed without an agent message"@);
                }
                self.fail("codex app-server completed without an agent message", "")
            } else {
                self.phase = Phase::Closed;
                Step::Answered(self.accumulated.clone())
            },
        }
    }

    /// Takes a message while the turn with the given id is running.
    pub fn wait_for_codex_turn(&mut self, message: &ServerMessage, turn_id: &str) -> (step: Step)
        ensures
            (final(self)@, step@) == old(self)@.on_turn_message(message@, turn_id@),
    {
        let ghost start = self@;
        let text = text_from_codex_notification(message, turn_id, &mut self.accumulated);
        if let Some(text) = text {
            self.final_text = Some(text);
        }
        assert(self@ == start.with_notification(message@, turn_id@));
        let method = match &message.method {
            Some(method) => method.as_str(),
            None => {
                return self.refuse(message);
            },
        };
        let completed = match &message.completed_turn_id {
            Some(id) => same_text(id.as_str(), turn_id),
            None => false,
        };
        if same_text(method, "turn/completed") && completed {
            self.complete()
        } else if same_text(method, "error") {
            self.fail("codex app-server notification error: ", message.text.as_str())
        } else {
            self.refuse(message)
        }
    }

    /// The id of the request whose reply the conversation waits for.
    fn awaited(&self) -> (id: Option<u64>)
        ensures
            id == self@.awaited_id(),
    {
        match &self.phase {
            Phase::Initializing => Some(1),
            Phase::StartingThread => Some(2),
            Phase::StartingTurn => Some(3),
            _ => None,
        }
    }

    /// Takes a message of the app server.
    pub fn on_message(&mut self, message: &ServerMessage) -> (step: Step)
        ensures
            (final(self)@, step@) == old(self)@.on_message(message@),
    {
        match &self.phase {
            Phase::Running(turn_id) => {
                let turn_id = turn_id.clone();
                self.wait_for_codex_turn(message, turn_id.as_str())
            },
            Phase::Closed => Step::Wait,
            _ => {
                let expected = self.awaited();
                let is_reply = match (&message.id, expected) {
                    (Some(id), Some(expected)) => match id.unsigned {
                        Some(n) => n == expected,
                        None => false,
                    },
                    _ => false,
                };
                if is_reply {
                    self.reply(message)
                } else {
                    self.refuse(message)
                }
            },
        }
    }

    /// Takes a line of the app server. What is sent in turn is one line.
    pub fn on_line(&mut self, line: &str) -> (step: Step)
        ensures
            (final(self)@, step@) == old(self)@.on_line(line@),
            step matches Step::Send(sent) ==> is_one_line(sent@),
    {
        match read_message(line) {
            Ok(message) => {
                proof {
                    law_sent_is_one_line(self@, message@);
                }
                self.on_message(&message)
            },
            Err(error) => self.fail("invalid app-server json: ", error.as_str()),
        }
    }

    /// Ends the conversation because the app server took too long.
    pub fn on_timeout(&mut self) -> (step: Step)
        ensures
            (final(self)@, step@) == old(self)@.failed("codex app-server timed out"@),
    {
        proof {
            reveal_strlit("");
            assert("codex app-server timed out"@ + ""@ =~= "codex app-server timed out"@);
        }
        self.fail("codex app-server timed out", "")
    }
}

/// Whatever is sent on a message is one line, if the id of the message is.
pub proof fn law_sent_is_one_line(session: SessionView, message: MessageView)
    requires
        message.id matches Some(id) ==> is_one_line(id.text),
    ensures
        session.on_message(message).1 matches StepView::Send(line) ==> is_one_line(line),
{
    law_thread_start_one_line(session.workdir, session.model);
    if let Some(thread_id) = message.new_thread_id {
        law_turn_start_one_line(thread_id, session.prompt);
    }
    if let Some(id) = message.id {
        law_refusal_one_line(id.text);
    }
}

/// A request of the app server is refused under its own id at every point of an open
/// conversation, and the conversation stays where it was. Not a request in this sense are the
/// reply that is waited for and, while a turn is running, what ends it.
pub proof fn law_requests_are_refused(session: SessionView, message: MessageView)
    requires
        session.phase !is Closed,
        message.method is Some,
        message.id is Some,
        !session.is_reply(message),
        session.phase matches PhaseView::Running(turn_id) ==> !ends_turn(message, turn_id),
    ensures
        session.on_message(message).1 == StepView::Send(refusal(message.id->0.text)),
        session.on_message(message).0.phase == session.phase,
{
}

/// A notification, which has no id, is never answered.
pub proof fn law_notifications_are_not_answered(session: SessionView, message: MessageView)
    requires
        message.id is None,
    ensures
        session.on_message(message).1 !is Send,
{
}

/// Whether a message ends a turn: with an answer or with an error.
pub open spec fn ends_turn(message: MessageView, turn_id: Seq<char>) -> bool {
    SessionView::is_completion(message, turn_id) || message.method == Some("error"@)
}

/// An answer comes only at the completion of the turn that is running.
pub proof fn law_answer_at_completion(session: SessionView, message: MessageView)
    ensures
        session.on_message(message).1 is Answered ==> {
            &&& session.phase is Running
            &&& SessionView::is_completion(message, session.phase->Running_0)
        },
{
}

/// A conversation ends exactly with an answer or a failure, and nothing happens after that.
pub proof fn law_end_is_final(session: SessionView, message: MessageView)
    ensures
        session.phase !is Closed ==> (session.on_message(message).0.phase is Closed <==> (
        session.on_message(message).1 is Answered || session.on_message(message).1 is Failed)),
        session.phase is Closed ==> session.on_message(message) == (session, StepView::Wait),
{
}

/// Before a turn is running, and for messages of other turns while it is, the answer does not
/// change.
pub proof fn law_other_turns_add_nothing(session: SessionView, message: MessageView)
    requires
        session.phase matches PhaseView::Running(turn_id) ==> message.turn_id != Some(turn_id),
    ensures
        session.on_message(message).0.accumulated == session.accumulated,
        session.on_message(message).0.final_text == session.final_text,
{
    assert(session.accumulated + Seq::<char>::empty() =~= session.accumulated);
}

/// A conversation after several messages.
pub open spec fn after_messages(session: SessionView, messages: Seq<MessageView>) -> SessionView
    decreases messages.len(),
{
    if messages.len() == 0 {
        session
    } else {
        after_messages(session, messages.drop_last()).on_message(messages.last()).0
    }
}

/// The requests that a conversation sends over several messages: the lines that are no refusals.
pub open spec fn requests_sent(session: SessionView, messages: Seq<MessageView>) -> Seq<Seq<char>>
    decreases messages.len(),
{
    if messages.len() == 0 {
        seq![]
    } else {
        let before = requests_sent(session, messages.drop_last());
        match after_messages(session, messages.drop_last()).on_message(messages.last()).1 {
            StepView::Send(line) => if is_refusal(line) {
                before
            } else {
                before.push(line)
            },
            _ => before,
        }
    }
}

/// Whether a message has the id of a request of this side.
pub open spec fn replies_to(message: MessageView, id: u64) -> bool {
    message.id matches Some(value) && value.unsigned == Some(id)
}

/// Whether none of the messages from `from` up to `to` has the id.
pub open spec fn no_reply(messages: Seq<MessageView>, id: u64, from: int, to: int) -> bool {
    forall|k: int| from <= k < to ==> !replies_to(#[trigger] messages[k], id)
}

/// Whether message `i` is the first reply to the introduction, and has no error.
pub open spec fn initialized_at(messages: Seq<MessageView>, i: int) -> bool {
    &&& 0 <= i < messages.len()
    &&& replies_to(messages[i], 1)
    &&& messages[i].error is None
    &&& no_reply(messages, 1, 0, i)
}

/// Whether, behind such a message `i`, message `j` is the first reply to the request for a
/// thread, has no error and names the thread.
pub open spec fn thread_at(messages: Seq<MessageView>, i: int, j: int) -> bool {
    &&& initialized_at(messages, i)
    &&& i < j < messages.len()
    &&& replies_to(messages[j], 2)
    &&& messages[j].error is None
    &&& messages[j].new_thread_id is Some
    &&& no_reply(messages, 2, i + 1, j)
}

/// Whether, behind such messages `i` and `j`, message `k` is the first reply to the request for a
/// turn, has no error and names the turn.
pub open spec fn turn_at(messages: Seq<MessageView>, i: int, j: int, k: int) -> bool {
    &&& thread_at(messages, i, j)
    &&& j < k < messages.len()
    &&& replies_to(messages[k], 3)
    &&& messages[k].error is None
    &&& messages[k].new_turn_id is Some
    &&& no_reply(messages, 3, j + 1, k)
}

/// The two requests behind the introduction.
pub open spec fn opening_requests(session: SessionView, thread_id: Seq<char>) -> Seq<Seq<char>> {
    seq![
        thread_start_request(session.workdir, session.model),
        turn_start_request(thread_id, session.prompt),
    ]
}

/// Until a turn is running, a message that is not the reply that is waited for leaves the
/// conversation as it was, and is answered with a refusal or not at all.
pub proof fn law_opening_waits(session: SessionView, message: MessageView)
    requires
        session.awaited_id() is Some,
        !session.is_reply(message),
    ensures
        session.on_message(message).0 == session,
        match session.on_message(message).1 {
            StepView::Send(line) => is_refusal(line),
            StepView::Wait => true,
            _ => false,
        },
{
    if let Some(id) = message.id {
        assert(is_refusal(refusal(id.text)));
    }
}

/// While a turn is running and after the end, only refusals are sent, and neither the directory,
/// the model nor the prompt ever change.
proof fn lemma_no_request_later(session: SessionView, message: MessageView)
    ensures
        session.on_message(message).0.workdir == session.workdir,
        session.on_message(message).0.model == session.model,
        session.on_message(message).0.prompt == session.prompt,
        session.awaited_id() is None ==> (session.on_message(message).1 matches StepView::Send(
            line,
        ) ==> is_refusal(line)),
        session.awaited_id() is None ==> session.on_message(message).0.awaited_id() is None,
{
    if let Some(id) = message.id {
        assert(is_refusal(refusal(id.text)));
    }
}

/// What has been sent and received at a point of the opening.
spec fn opened(
    session: SessionView,
    messages: Seq<MessageView>,
    end: SessionView,
    sent: Seq<Seq<char>>,
) -> bool {
    let n = messages.len() as int;
    &&& end.workdir == session.workdir && end.model == session.model && end.prompt
        == session.prompt
    &&& match end.phase {
        PhaseView::Initializing => end == session && sent.len() == 0 && no_reply(messages, 1, 0, n),
        PhaseView::StartingThread => {
            &&& end == session.in_phase(PhaseView::StartingThread)
            &&& sent == seq![thread_start_request(session.workdir, session.model)]
            &&& exists|i: int|
                #[trigger] initialized_at(messages, i) && no_reply(messages, 2, i + 1, n)
        },
        PhaseView::StartingTurn => {
            &&& end == session.in_phase(PhaseView::StartingTurn)
            &&& exists|i: int, j: int|
                {
                    &&& #[trigger] thread_at(messages, i, j)
                    &&& no_reply(messages, 3, j + 1, n)
                    &&& sent == opening_requests(session, messages[j].new_thread_id->0)
                }
        },
        _ => sent_in_order(session, messages, sent),
    }
}

/// Whether what was sent is a beginning of the two requests of the opening, each sent only after
/// the reply without an error to the one before.
pub open spec fn sent_in_order(
    session: SessionView,
    messages: Seq<MessageView>,
    sent: Seq<Seq<char>>,
) -> bool {
    ||| sent.len() == 0
    ||| {
        &&& sent == seq![thread_start_request(session.workdir, session.model)]
        &&& exists|i: int| initialized_at(messages, i)
    }
    ||| exists|i: int, j: int|
        #[trigger] thread_at(messages, i, j) && sent == opening_requests(
            session,
            messages[j].new_thread_id->0,
        )
}

proof fn lemma_no_reply_more(front: Seq<MessageView>, message: MessageView, id: u64, from: int)
    requires
        no_reply(front, id, from, front.len() as int),
        0 <= from,
    ensures
        no_reply(front.push(message), id, from, front.len() as int),
        !replies_to(message, id) ==> no_reply(
            front.push(message),
            id,
            from,
            front.push(message).len() as int,
        ),
{
    let messages = front.push(message);
    assert forall|k: int| from <= k < front.len() implies !replies_to(#[trigger] messages[k], id) by {
        assert(messages[k] == front[k]);
    }
}

proof fn lemma_initialized_more(front: Seq<MessageView>, message: MessageView, i: int)
    requires
        initialized_at(front, i),
    ensures
        initialized_at(front.push(message), i),
{
    let messages = front.push(message);
    assert forall|k: int| 0 <= k < i implies !replies_to(#[trigger] messages[k], 1) by {
        assert(messages[k] == front[k]);
    }
}

proof fn lemma_thread_more(front: Seq<MessageView>, message: MessageView, i: int, j: int)
    requires
        thread_at(front, i, j),
    ensures
        thread_at(front.push(message), i, j),
{
    let messages = front.push(message);
    lemma_initialized_more(front, message, i);
    assert forall|k: int| i + 1 <= k < j implies !replies_to(#[trigger] messages[k], 2) by {
        assert(messages[k] == front[k]);
    }
}

proof fn lemma_sent_more(
    session: SessionView,
    front: Seq<MessageView>,
    message: MessageView,
    sent: Seq<Seq<char>>,
)
    requires
        sent_in_order(session, front, sent),
    ensures
        sent_in_order(session, front.push(message), sent),
{
    let messages = front.push(message);
    if sent.len() == 0 {
    } else if exists|i: int, j: int|
        #[trigger] thread_at(front, i, j) && sent == opening_requests(
            session,
            front[j].new_thread_id->0,
        ) {
        let (i, j) = choose|i: int, j: int|
            #[trigger] thread_at(front, i, j) && sent == opening_requests(
                session,
                front[j].new_thread_id->0,
            );
        lemma_thread_more(front, message, i, j);
        assert(messages[j] == front[j]);
    } else {
        let i = choose|i: int| initialized_at(front, i);
        lemma_initialized_more(front, message, i);
    }
}

/// One message more, at any point of a conversation.
proof fn lemma_opened_step(
    session: SessionView,
    front: Seq<MessageView>,
    message: MessageView,
    before: SessionView,
    sent: Seq<Seq<char>>,
)
    requires
        session.phase is Initializing,
        opened(session, front, before, sent),
    ensures
        opened(
            session,
            front.push(message),
            before.on_message(message).0,
            match before.on_message(message).1 {
                StepView::Send(line) => if is_refusal(line) {
                    sent
                } else {
                    sent.push(line)
                },
                _ => sent,
            },
        ),
{
    let messages = front.push(message);
    let n = front.len() as int;
    assert(messages[n] == message);
    lemma_no_request_later(before, message);
    if before.awaited_id() is Some && !before.is_reply(message) {
        law_opening_waits(before, message);
    }
    match before.phase {
        PhaseView::Initializing => {
            lemma_no_reply_more(front, message, 1, 0);
            if before.is_reply(message) && message.error is None {
                law_requests_are_no_refusals(
                    "2"@,
                    "thread/start"@,
                    thread_params(session.workdir, session.model),
                );
                assert(initialized_at(messages, n));
                assert(sent.push(thread_start_request(session.workdir, session.model)) =~= seq![
                    thread_start_request(session.workdir, session.model),
                ]);
            }
        },
        PhaseView::StartingThread => {
            let i = choose|i: int|
                #[trigger] initialized_at(front, i) && no_reply(front, 2, i + 1, n);
            lemma_initialized_more(front, message, i);
            lemma_no_reply_more(front, message, 2, i + 1);
            if before.is_reply(message) && message.error is None && message.new_thread_id is Some {
                let thread_id = message.new_thread_id->0;
                law_requests_are_no_refusals(
                    "3"@,
                    "turn/start"@,
                    turn_params(thread_id, session.prompt),
                );
                assert(thread_at(messages, i, n));
                assert(sent.push(turn_start_request(thread_id, session.prompt))
                    =~= opening_requests(session, thread_id));
            }
        },
        PhaseView::StartingTurn => {
            let (i, j) = choose|i: int, j: int|
                {
                    &&& #[trigger] thread_at(front, i, j)
                    &&& no_reply(front, 3, j + 1, n)
                    &&& sent == opening_requests(session, front[j].new_thread_id->0)
                };
            lemma_thread_more(front, message, i, j);
            lemma_no_reply_more(front, message, 3, j + 1);
            assert(messages[j] == front[j]);
        },
        _ => {
            lemma_sent_more(session, front, message, sent);
        },
    }
}

proof fn lemma_opened(session: SessionView, messages: Seq<MessageView>)
    requires
        session.phase is Initializing,
    ensures
        opened(
            session,
            messages,
            after_messages(session, messages),
            requests_sent(session, messages),
        ),
    decreases messages.len(),
{
    if messages.len() > 0 {
        let front = messages.drop_last();
        lemma_opened(session, front);
        lemma_opened_step(
            session,
            front,
            messages.last(),
            after_messages(session, front),
            requests_sent(session, front),
        );
        assert(front.push(messages.last()) =~= messages);
    }
}

/// Whatever the app server sends, in whatever order, the requests that go out behind the
/// introduction are the one for a thread and the one for a turn of it with the prompt, or a
/// beginning of the two; each goes out only after a reply without an error to the one before.
pub proof fn law_opening_requests(session: SessionView, messages: Seq<MessageView>)
    requires
        session.phase is Initializing,
    ensures
        sent_in_order(session, messages, requests_sent(session, messages)),
{
    lemma_opened(session, messages);
}

proof fn lemma_before_initialized(session: SessionView, messages: Seq<MessageView>)
    requires
        session.phase is Initializing,
        no_reply(messages, 1, 0, messages.len() as int),
    ensures
        after_messages(session, messages) == session,
        requests_sent(session, messages).len() == 0,
    decreases messages.len(),
{
    if messages.len() > 0 {
        let front = messages.drop_last();
        assert forall|k: int| 0 <= k < front.len() implies !replies_to(#[trigger] front[k], 1) by {
            assert(front[k] == messages[k]);
        }
        lemma_before_initialized(session, front);
        assert(!replies_to(messages[messages.len() - 1], 1));
        law_opening_waits(session, messages.last());
    }
}

proof fn lemma_thread_asked(session: SessionView, messages: Seq<MessageView>, i: int)
    requires
        session.phase is Initializing,
        initialized_at(messages, i),
        no_reply(messages, 2, i + 1, messages.len() as int),
    ensures
        after_messages(session, messages) == session.in_phase(PhaseView::StartingThread),
        requests_sent(session, messages) == seq![
            thread_start_request(session.workdir, session.model),
        ],
    decreases messages.len(),
{
    let front = messages.drop_last();
    let last = messages.last();
    assert forall|k: int| 0 <= k < i implies !replies_to(#[trigger] front[k], 1) by {
        assert(front[k] == messages[k]);
    }
    if i == front.len() {
        lemma_before_initialized(session, front);
        law_requests_are_no_refusals(
            "2"@,
            "thread/start"@,
            thread_params(session.workdir, session.model),
        );
        assert(requests_sent(session, messages) =~= seq![
            thread_start_request(session.workdir, session.model),
        ]);
    } else {
        assert(front[i] == messages[i]);
        assert forall|k: int| i + 1 <= k < front.len() implies !replies_to(
            #[trigger] front[k],
            2,
        ) by {
            assert(front[k] == messages[k]);
        }
        lemma_thread_asked(session, front, i);
        assert(!replies_to(messages[messages.len() - 1], 2));
        law_opening_waits(session.in_phase(PhaseView::StartingThread), last);
    }
}

proof fn lemma_turn_asked(session: SessionView, messages: Seq<MessageView>, i: int, j: int)
    requires
        session.phase is Initializing,
        thread_at(messages, i, j),
        no_reply(messages, 3, j + 1, messages.len() as int),
    ensures
        after_messages(session, messages) == session.in_phase(PhaseView::StartingTurn),
        requests_sent(session, messages) == opening_requests(
            session,
            messages[j].new_thread_id->0,
        ),
    decreases messages.len(),
{
    let front = messages.drop_last();
    let last = messages.last();
    assert(front[i] == messages[i]);
    assert forall|k: int| 0 <= k < i implies !replies_to(#[trigger] front[k], 1) by {
        assert(front[k] == messages[k]);
    }
    assert forall|k: int| i + 1 <= k < j implies !replies_to(#[trigger] front[k], 2) by {
        assert(front[k] == messages[k]);
    }
    if j == front.len() {
        lemma_thread_asked(session, front, i);
        law_requests_are_no_refusals(
            "3"@,
            "turn/start"@,
            turn_params(last.new_thread_id->0, session.prompt),
        );
        assert(requests_sent(session, messages) =~= opening_requests(
            session,
            last.new_thread_id->0,
        ));
    } else {
        assert(front[j] == messages[j]);
        assert forall|k: int| j + 1 <= k < front.len() implies !replies_to(
            #[trigger] front[k],
            3,
        ) by {
            assert(front[k] == messages[k]);
        }
        lemma_turn_asked(session, front, i, j);
        assert(!replies_to(messages[messages.len() - 1], 3));
        law_opening_waits(session.in_phase(PhaseView::StartingTurn), last);
    }
}

/// Three replies without an error carry a conversation from its opening to a running turn,
/// whatever comes between them: both requests have gone out, and nothing else has changed.
pub proof fn law_opening(session: SessionView, messages: Seq<MessageView>, i: int, j: int)
    requires
        session.phase is Initializing,
        messages.len() > 0,
        turn_at(messages, i, j, messages.len() - 1),
    ensures
        after_messages(session, messages) == session.in_phase(
            PhaseView::Running(messages.last().new_turn_id->0),
        ),
        requests_sent(session, messages) == opening_requests(
            session,
            messages[j].new_thread_id->0,
        ),
{
    let front = messages.drop_last();
    assert(front[i] == messages[i] && front[j] == messages[j]);
    assert forall|k: int| 0 <= k < i implies !replies_to(#[trigger] front[k], 1) by {
        assert(front[k] == messages[k]);
    }
    assert forall|k: int| i + 1 <= k < j implies !replies_to(#[trigger] front[k], 2) by {
        assert(front[k] == messages[k]);
    }
    assert forall|k: int| j + 1 <= k < front.len() implies !replies_to(#[trigger] front[k], 3) by {
        assert(front[k] == messages[k]);
    }
    lemma_turn_asked(session, front, i, j);
}

/// The pieces of a turn's answer in several messages, in order.
pub open spec fn deltas_of(messages: Seq<MessageView>, turn_id: Seq<char>) -> Seq<char>
    decreases messages.len(),
{
    if messages.len() == 0 {
        seq![]
    } else {
        deltas_of(messages.drop_last(), turn_id) + delta_of(messages.last(), turn_id)
    }
}

/// The last whole answer of a turn in several messages.
pub open spec fn last_text_of(messages: Seq<MessageView>, turn_id: Seq<char>) -> Option<Seq<char>>
    decreases messages.len(),
{
    if messages.len() == 0 {
        None
    } else {
        match completed_text(messages.last(), turn_id) {
            Some(text) => Some(text),
            None => last_text_of(messages.drop_last(), turn_id),
        }
    }
}

proof fn lemma_running(session: SessionView, messages: Seq<MessageView>, turn_id: Seq<char>)
    requires
        session.phase == PhaseView::Running(turn_id),
        session.final_text is None,
        forall|i: int| 0 <= i < messages.len() ==> !ends_turn(#[trigger] messages[i], turn_id),
    ensures
        after_messages(session, messages) == (SessionView {
            accumulated: session.accumulated + deltas_of(messages, turn_id),
            final_text: last_text_of(messages, turn_id),
            ..session
        }),
    decreases messages.len(),
{
    if messages.len() == 0 {
        assert(session.accumulated + Seq::<char>::empty() =~= session.accumulated);
    } else {
        let front = messages.drop_last();
        assert forall|i: int| 0 <= i < front.len() implies !ends_turn(
            #[trigger] front[i],
            turn_id,
        ) by {
            assert(front[i] == messages[i]);
        }
        lemma_running(session, front, turn_id);
        assert(!ends_turn(messages[messages.len() - 1], turn_id));
        assert(session.accumulated + deltas_of(front, turn_id) + delta_of(messages.last(), turn_id)
            =~= session.accumulated + deltas_of(messages, turn_id));
    }
}

/// The answer to a turn: the last whole answer among its messages where there is one, or else
/// the pieces of the answer one behind the other. Where both are missing or the pieces are
/// blank, the conversation fails.
pub proof fn law_answer_of_turn(
    session: SessionView,
    messages: Seq<MessageView>,
    completion: MessageView,
    turn_id: Seq<char>,
)
    requires
        session.phase == PhaseView::Running(turn_id),
        session.accumulated.len() == 0,
        session.final_text is None,
        forall|i: int| 0 <= i < messages.len() ==> !ends_turn(#[trigger] messages[i], turn_id),
        SessionView::is_completion(completion, turn_id),
    ensures
        after_messages(session, messages).on_message(completion).1 == match last_text_of(
            messages,
            turn_id,
        ) {
            Some(text) => StepView::Answered(text),
            None => if is_blank(deltas_of(messages, turn_id)) {
                StepView::Failed("codex app-server completed without an agent message"@)
            } else {
                StepView::Answered(deltas_of(messages, turn_id))
            },
        },
{
    lemma_running(session, messages, turn_id);
    let running = after_messages(session, messages);
    reveal_strlit("turn/completed");
    reveal_strlit("item/completed");
    reveal_strlit("item/agentMessage/delta");
    assert("turn/completed"@[0] != "item/completed"@[0]);
    assert("turn/completed"@.len() != "item/agentMessage/delta"@.len());
    assert(running.accumulated =~= deltas_of(messages, turn_id));
    assert(running.accumulated + Seq::<char>::empty() =~= running.accumulated);
}

/// While a turn is running, a piece of its answer is appended in full to the pieces before, a
/// whole answer takes the place of any before it, and no other message changes either.
pub proof fn law_running_turn_collects(
    session: SessionView,
    message: MessageView,
    turn_id: Seq<char>,
    text: Seq<char>,
)
    requires
        session.phase == PhaseView::Running(turn_id),
    ensures
        message.method == Some("item/agentMessage/delta"@) && message.turn_id == Some(turn_id)
            && message.delta == Some(text) ==> {
            &&& session.on_message(message).0.accumulated == session.accumulated + text
            &&& session.on_message(message).0.final_text == session.final_text
            &&& session.on_message(message).0.phase == session.phase
        },
        message.method == Some("item/completed"@) && message.turn_id == Some(turn_id)
            && message.item_type == Some("agentMessage"@) && message.item_text == Some(text) ==> {
            &&& session.on_message(message).0.final_text == Some(text)
            &&& session.on_message(message).0.accumulated == session.accumulated
            &&& session.on_message(message).0.phase == session.phase
        },
        message.method != Some("item/agentMessage/delta"@) ==> session.on_message(
            message,
        ).0.accumulated == session.accumulated,
        message.method != Some("item/completed"@) || message.item_type != Some("agentMessage"@)
            ==> session.on_message(message).0.final_text == session.final_text,
{
    lemma_methods_differ();
    assert(session.accumulated + Seq::<char>::empty() =~= session.accumulated);
}

proof fn lemma_methods_differ()
    ensures
        "item/agentMessage/delta"@.len() == 23,
        "item/completed"@.len() == 14,
        "turn/completed"@.len() == 14,
        "item/completed"@ != "turn/completed"@,
        "error"@.len() == 5,
{
    reveal_strlit("item/agentMessage/delta");
    reveal_strlit("item/completed");
    reveal_strlit("turn/completed");
    reveal_strlit("error");
    assert("turn/completed"@[0] != "item/completed"@[0]);
}

/// The completion of the running turn answers with the whole answer where there is one, and else
/// with all the pieces unless they are white space alone; the completion of another turn ends
/// nothing. An error ends the conversation with the whole message as the reason.
pub proof fn law_running_turn_ends(
    session: SessionView,
    message: MessageView,
    turn_id: Seq<char>,
    text: Seq<char>,
)
    requires
        session.phase == PhaseView::Running(turn_id),
    ensures
        message.method == Some("turn/completed"@) && message.completed_turn_id == Some(turn_id)
            ==> {
            &&& session.final_text == Some(text) ==> session.on_message(message).1
                == StepView::Answered(text)
            &&& session.final_text is None && (exists|i: int|
                0 <= i < session.accumulated.len() && !is_white_space(
                    #[trigger] session.accumulated[i],
                )) ==> session.on_message(message).1 == StepView::Answered(session.accumulated)
            &&& session.final_text is None && (forall|i: int|
                0 <= i < session.accumulated.len() ==> is_white_space(
                    #[trigger] session.accumulated[i],
                )) ==> session.on_message(message).1 == StepView::Failed(
                "codex app-server completed without an agent message"@,
            )
        },
        message.method == Some("turn/completed"@) && message.completed_turn_id != Some(turn_id)
            ==> session.on_message(message).0 == session,
        message.method == Some("error"@) ==> session.on_message(message).1 == StepView::Failed(
            "codex app-server notification error: "@ + message.text,
        ),
{
    lemma_methods_differ();
    assert(session.accumulated + Seq::<char>::empty() =~= session.accumulated);
}

/// The replies to the three requests, by their ids: each sends the next request, with the
/// configured directory, model and prompt and with the id that the reply gives; an error, or an
/// id that is missing, ends the conversation and is given as the reason in full.
pub proof fn law_replies_carry_the_opening(
    session: SessionView,
    message: MessageView,
    text: Seq<char>,
)
    requires
        message.id is Some,
    ensures
        session.phase is Initializing && message.id->0.unsigned == Some(1u64) && message.error
            is None ==> session.on_message(message) == (
            SessionView { phase: PhaseView::StartingThread, ..session },
            StepView::Send(thread_start_request(session.workdir, session.model)),
        ),
        session.phase is StartingThread && message.id->0.unsigned == Some(2u64) && message.error
            is None && message.new_thread_id == Some(text) ==> session.on_message(message) == (
            SessionView { phase: PhaseView::StartingTurn, ..session },
            StepView::Send(turn_start_request(text, session.prompt)),
        ),
        session.phase is StartingTurn && message.id->0.unsigned == Some(3u64) && message.error
            is None && message.new_turn_id == Some(text) ==> session.on_message(message) == (
            SessionView { phase: PhaseView::Running(text), ..session },
            StepView::Wait,
        ),
        (session.phase is Initializing && message.id->0.unsigned == Some(1u64)
            || session.phase is StartingThread && message.id->0.unsigned == Some(2u64)
            || session.phase is StartingTurn && message.id->0.unsigned == Some(3u64))
            && message.error == Some(text) ==> session.on_message(message) == (
            SessionView { phase: PhaseView::Closed, ..session },
            StepView::Failed("codex app-server error: "@ + text),
        ),
        session.phase is StartingThread && message.id->0.unsigned == Some(2u64) && message.error
            is None && message.new_thread_id is None && message.result == Some(text)
            ==> session.on_message(message) == (
            SessionView { phase: PhaseView::Closed, ..session },
            StepView::Failed("thread/start did not return a thread id: "@ + text),
        ),
        session.phase is StartingTurn && message.id->0.unsigned == Some(3u64) && message.error
            is None && message.new_turn_id is None && message.result == Some(text)
            ==> session.on_message(message) == (
            SessionView { phase: PhaseView::Closed, ..session },
            StepView::Failed("turn/start did not return a turn id: "@ + text),
        ),
{
}

/// A line that is no JSON ends the conversation at any point, with the parser's words in full; any
/// other line is taken as the message on it.
pub proof fn law_line_is_a_message(session: SessionView, line: Seq<char>)
    ensures
        json_error(line) matches Some(error) ==> session.on_line(line) == (
            SessionView { phase: PhaseView::Closed, ..session },
            StepView::Failed("invalid app-server json: "@ + error),
        ),
        json_error(line) is None ==> session.on_line(line) == session.on_message(message_on(line)),
{
}

} // verus!
