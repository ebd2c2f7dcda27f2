//! The connection to Pi: its commands, its session and its life.
use crate::error::{error_of, protocol, transport, ChatError, ErrorSource, ErrorView};
use crate::json::{fields_with, text, with_field, Json, Tree};
use crate::number::{decimal, decimal_text};
use crate::text::{cat2, copy, same};
use crate::wire::{check_record, record_problem, rejected, rejected_of};
use vstd::prelude::*;

verus! {

/// How long Pi may take to answer a request, in milliseconds.
pub const REQUEST_TIMEOUT: u64 = 30_000;

/// How long Pi may take to shut down, in milliseconds.
pub const SHUTDOWN_TIMEOUT: u64 = 30_000;

/// How many keys are handled before Pi's events are looked at again.
pub const KEYS_AT_ONCE: usize = 8;

pub const STOPPED_SENDING: &'static str = "Stopped while sending RPC command; delivery is uncertain. Reconnect and review before resending";

// ---------------------------------------------------------------------------
// Sessions
// ---------------------------------------------------------------------------

/// The session that a connection opens.
#[derive(Debug)]
pub enum SessionStart {
    New,
    Latest,
    Selected(String),
}

/// What a [`SessionStart`] says.
pub enum StartView {
    New,
    Latest,
    Selected(Seq<char>),
}

impl View for SessionStart {
    type V = StartView;

    open spec fn view(&self) -> StartView {
        match *self {
            SessionStart::New => StartView::New,
            SessionStart::Latest => StartView::Latest,
            SessionStart::Selected(path) => StartView::Selected(path@),
        }
    }
}

impl SessionStart {
    pub fn copy(&self) -> (r: Self)
        ensures
            r@ == self@,
    {
        match self {
            SessionStart::New => SessionStart::New,
            SessionStart::Latest => SessionStart::Latest,
            SessionStart::Selected(path) => SessionStart::Selected(copy(path.as_str())),
        }
    }

    /// The arguments of Pi that open the session.
    pub fn arguments(&self) -> (out: Vec<String>)
        ensures
            crate::lines::texts(out@) == start_arguments(self@),
    {
        let mut out: Vec<String> = Vec::new();
        match self {
            SessionStart::New => {},
            SessionStart::Latest => out.push(copy("--continue")),
            SessionStart::Selected(path) => {
                out.push(copy("--session"));
                out.push(copy(path.as_str()));
            },
        }
        assert(crate::lines::texts(out@) =~= start_arguments(self@));
        out
    }
}

pub open spec fn start_arguments(start: StartView) -> Seq<Seq<char>> {
    match start {
        StartView::New => Seq::empty(),
        StartView::Latest => seq!["--continue"@],
        StartView::Selected(path) => seq!["--session"@, path],
    }
}

/// The session that a later connection resumes: only one that is known by
/// its path.
pub open spec fn resumable(start: StartView) -> StartView {
    match start {
        StartView::Selected(path) => StartView::Selected(path),
        _ => StartView::New,
    }
}

/// The session at a path, or a new one.
pub open spec fn session_at(path: Option<Seq<char>>) -> StartView {
    match path {
        Some(path) => StartView::Selected(path),
        None => StartView::New,
    }
}

fn session_for(path: Option<&str>) -> (r: SessionStart)
    ensures
        r@ == session_at(
            match path {
                Some(path) => Some(path@),
                None => None,
            },
        ),
{
    match path {
        Some(path) => SessionStart::Selected(copy(path)),
        None => SessionStart::New,
    }
}

// ---------------------------------------------------------------------------
// The connection
// ---------------------------------------------------------------------------

/// What is known of a connection.
pub struct Link {
    pub next_id: u64,
    pub resume: SessionStart,
    /// Whether Pi still reads commands.
    pub open: bool,
    pub disconnected: bool,
}

/// What a [`Link`] holds.
#[verifier::ext_equal]
pub struct LinkView {
    pub next_id: u64,
    pub resume: StartView,
    pub open: bool,
    pub disconnected: bool,
}

impl View for Link {
    type V = LinkView;

    open spec fn view(&self) -> LinkView {
        LinkView {
            next_id: self.next_id,
            resume: self.resume@,
            open: self.open,
            disconnected: self.disconnected,
        }
    }
}

/// The identifier of a command.
pub open spec fn command_id(n: nat) -> Seq<char> {
    "hibiscus-"@ + decimal(n)
}

/// A command that is ready to be sent.
pub struct Prepared {
    pub id: String,
    pub kind: String,
    pub command: Json,
}

/// The response that a request waits for.
pub open spec fn answers(e: Tree, id: Seq<char>) -> bool {
    e.says("type"@, "response"@) && e.says("id"@, id)
}

/// What a record means for a request.
pub enum Answer {
    /// The request is done.
    Done(Result<Json, ChatError>),
    /// Something else came; whether it asks a question, which takes its time.
    Other(bool),
}

/// What an [`Answer`] says.
pub enum AnswerView {
    Done(Tree),
    Failed(ErrorView),
    Other(bool),
}

impl View for Answer {
    type V = AnswerView;

    open spec fn view(&self) -> AnswerView {
        match *self {
            Answer::Done(Ok(data)) => AnswerView::Done(data@),
            Answer::Done(Err(error)) => AnswerView::Failed(error@),
            Answer::Other(dialog) => AnswerView::Other(dialog),
        }
    }
}

/// What a record makes of a connection that waits for the answer to
/// `command`. The session to resume follows what Pi says it has open.
pub open spec fn answered(l: LinkView, e: Tree, id: Seq<char>, kind: Seq<char>, command: Tree) -> (
    LinkView,
    AnswerView,
) {
    if record_problem(e) is Some {
        (l, AnswerView::Failed(error_of(ErrorSource::Protocol, record_problem(e)->0)))
    } else if answers(e, id) {
        if !e.flagged("success"@, true) {
            (l, AnswerView::Failed(rejected_of(e, kind, id)))
        } else if kind == "get_state"@ {
            if !e.at("data"@).is_object() {
                (
                    l,
                    AnswerView::Failed(
                        error_of(ErrorSource::Protocol, "Invalid get_state response"@),
                    ),
                )
            } else {
                (
                    LinkView {
                        resume: session_at(e.at("data"@).text_at("sessionFile"@)),
                        ..l
                    },
                    AnswerView::Done(e.at("data"@)),
                )
            }
        } else if kind == "switch_session"@ && !e.at("data"@).flagged("cancelled"@, true) {
            (
                LinkView { resume: session_at(command.text_at("sessionPath"@)), ..l },
                AnswerView::Done(e.at("data"@)),
            )
        } else {
            (l, AnswerView::Done(e.at("data"@)))
        }
    } else {
        (l, AnswerView::Other(e.says("type"@, "extension_ui_request"@)))
    }
}

/// What is done at the end of a connection.
#[derive(Clone, Copy, Debug, PartialEq, Eq, Structural)]
pub enum Closing {
    /// Receiving failed: disconnect, and report that the outcome is uncertain.
    Uncertain,
    /// Nothing is open.
    Nothing,
    /// Disconnect, and report what was known before.
    Disconnect,
    /// Stop sending, and wait until Pi has shut down.
    Wait,
}

/// Where a shutdown stands.
#[derive(Clone, Copy, Debug, PartialEq, Eq, Structural)]
pub enum Shutdown {
    /// It failed or took too long.
    Failed,
    /// Pi has exited and everything it said was read.
    Complete,
    Pending,
}

/// A shutdown is complete only when Pi has exited, its diagnostics were read
/// and its stream ended without a failure; a failure or the deadline comes
/// first.
pub open spec fn shutdown_of(
    failed: bool,
    now: u64,
    deadline: u64,
    exited: bool,
    drained: bool,
    clean: bool,
) -> Shutdown {
    if failed || now >= deadline {
        Shutdown::Failed
    } else if exited && drained && clean {
        Shutdown::Complete
    } else {
        Shutdown::Pending
    }
}

pub fn shutdown_step(
    failed: bool,
    now: u64,
    deadline: u64,
    exited: bool,
    drained: bool,
    clean: bool,
) -> (r: Shutdown)
    ensures
        r == shutdown_of(failed, now, deadline, exited, drained, clean),
{
    if failed || now >= deadline {
        Shutdown::Failed
    } else if exited && drained && clean {
        Shutdown::Complete
    } else {
        Shutdown::Pending
    }
}

impl Link {
    /// A connection that opens the session `start`.
    pub fn new(start: &SessionStart) -> (r: Self)
        ensures
            r@ == (LinkView {
                next_id: 0,
                resume: resumable(start@),
                open: true,
                disconnected: false,
            }),
    {
        let resume = match start {
            SessionStart::Selected(path) => SessionStart::Selected(copy(path.as_str())),
            _ => SessionStart::New,
        };
        Link { next_id: 0, resume, open: true, disconnected: false }
    }

    /// A command under a new identifier. A command has a type, and Pi must
    /// still read commands.
    pub fn prepare(&mut self, command: &Json) -> (r: Result<Prepared, ChatError>)
        requires
            old(self)@.next_id < u64::MAX,
            command@ is Object,
        ensures
            final(self)@ == (LinkView { next_id: (old(self)@.next_id + 1) as u64, ..old(self)@ }),
            match r {
                Ok(prepared) => {
                    &&& old(self)@.open
                    &&& prepared.id@ == command_id((old(self)@.next_id + 1) as nat)
                    &&& prepared.command@ == Tree::Object(
                        fields_with(command@->Object_0, "id"@, Tree::Text(prepared.id@)),
                    )
                    &&& prepared.command@.text_at("type"@) == Some(prepared.kind@)
                },
                Err(error) => if Tree::Object(
                    fields_with(
                        command@->Object_0,
                        "id"@,
                        Tree::Text(command_id((old(self)@.next_id + 1) as nat)),
                    ),
                ).text_at("type"@) is None {
                    error@ == error_of(ErrorSource::Local, "RPC command missing type"@)
                } else {
                    !old(self)@.open && error@ == error_of(
                        ErrorSource::Transport,
                        "Pi connection failed: "@ + "stdin unavailable"@,
                    )
                },
            },
    {
        self.next_id = self.next_id + 1;
        assert(self@ =~= (LinkView { next_id: (old(self)@.next_id + 1) as u64, ..old(self)@ }));
        let id = cat2("hibiscus-", decimal_text(self.next_id).as_str());
        let command = with_field(command, "id", text(id.as_str()));
        let kind = match command.text_at("type") {
            Some(kind) => copy(kind),
            None => {
                return Err(crate::error::local("RPC command missing type"));
            },
        };
        if !self.open {
            return Err(transport("stdin unavailable"));
        }
        Ok(Prepared { id, kind, command })
    }

    /// A command is done; after a new session nothing older is resumed.
    pub fn completed(&mut self, kind: &str, ok: bool)
        ensures
            final(self)@ == if kind@ == "new_session"@ && ok {
                LinkView { resume: StartView::New, ..old(self)@ }
            } else {
                old(self)@
            },
    {
        if same(kind, "new_session") && ok {
            self.resume = SessionStart::New;
            assert(self@ =~= (LinkView { resume: StartView::New, ..old(self)@ }));
        }
    }

    /// What a record means for the request `id` of the kind `kind`.
    pub fn on_record(&mut self, record: &Json, id: &str, kind: &str, command: &Json) -> (r: Answer)
        ensures
            (final(self)@, r@) == answered(old(self)@, record@, id@, kind@, command@),
    {
        if let Err(error) = check_record(record) {
            return Answer::Done(Err(error));
        }
        if !(record.says("type", "response") && record.says("id", id)) {
            return Answer::Other(record.says("type", "extension_ui_request"));
        }
        if !record.flagged("success", true) {
            return Answer::Done(Err(rejected(record, kind, id)));
        }
        let data = record.at("data");
        if same(kind, "get_state") {
            if !data.is_object() {
                return Answer::Done(Err(protocol("Invalid get_state response")));
            }
            self.resume = session_for(data.text_at("sessionFile"));
            assert(self@ =~= (LinkView {
                resume: session_at(data@.text_at("sessionFile"@)),
                ..old(self)@
            }));
        } else if same(kind, "switch_session") && !data.flagged("cancelled", true) {
            self.resume = session_for(command.text_at("sessionPath"));
            assert(self@ =~= (LinkView {
                resume: session_at(command@.text_at("sessionPath"@)),
                ..old(self)@
            }));
        }
        Answer::Done(Ok(data.copy()))
    }

    pub fn is_connected(&self) -> (r: bool)
        ensures
            r == (!self@.disconnected && self@.open),
    {
        !self.disconnected && self.open
    }

    pub fn has_saved_session(&self) -> (r: bool)
        ensures
            r == (self@.resume is Selected),
    {
        match self.resume {
            SessionStart::Selected(_) => true,
            _ => false,
        }
    }

    /// Give the connection up. Whether Pi must be killed: when it could still
    /// be writing the session.
    pub fn disconnect(&mut self, running: bool) -> (kill: bool)
        ensures
            kill == (old(self)@.open || running),
            final(self)@ == (LinkView { open: false, disconnected: true, ..old(self)@ }),
    {
        let kill = self.open || running;
        self.open = false;
        self.disconnected = true;
        assert(self@ =~= (LinkView { open: false, disconnected: true, ..old(self)@ }));
        kill
    }

    /// Nothing more is sent.
    pub fn shut_input(&mut self)
        ensures
            final(self)@ == (LinkView { open: false, ..old(self)@ }),
    {
        self.open = false;
        assert(self@ =~= (LinkView { open: false, ..old(self)@ }));
    }

    /// How to close an idle connection, given whether receiving failed.
    pub fn close(&self, failed: bool) -> (r: Closing)
        ensures
            r == if failed {
                Closing::Uncertain
            } else if !self@.open {
                Closing::Nothing
            } else {
                Closing::Wait
            },
    {
        if failed {
            Closing::Uncertain
        } else if !self.open {
            Closing::Nothing
        } else {
            Closing::Wait
        }
    }

    /// How to end the program's connection, given whether receiving failed
    /// and whether the chat did.
    pub fn finish(&self, failed: bool, outcome_failed: bool) -> (r: Closing)
        ensures
            r == if self@.disconnected {
                Closing::Disconnect
            } else if failed {
                Closing::Uncertain
            } else if outcome_failed {
                Closing::Disconnect
            } else {
                Closing::Wait
            },
    {
        if self.disconnected {
            Closing::Disconnect
        } else if failed {
            Closing::Uncertain
        } else if outcome_failed {
            Closing::Disconnect
        } else {
            Closing::Wait
        }
    }

    /// Whether another session may be opened: only once this one is closed.
    pub fn may_reopen(&self) -> (r: bool)
        ensures
            r == !self@.open,
    {
        !self.open
    }
}

/// An error with the command that it belongs to.
pub fn attributed(error: ChatError, id: &str) -> (r: ChatError)
    ensures
        r@ == (ErrorView { command_id: Some(id@), ..error@ }),
{
    let mut error = error;
    error.command_id = Some(copy(id));
    error
}

/// Pi did not answer in time.
pub fn request_timed_out() -> (r: ChatError)
    ensures
        r@ == error_of(
            ErrorSource::Transport,
            "Pi connection failed: "@
                + "Pi command response timed out; connection state is uncertain"@,
        ),
{
    transport("Pi command response timed out; connection state is uncertain")
}

/// Pi closed the stream before it answered.
pub fn request_cut_off() -> (r: ChatError)
    ensures
        r@ == error_of(
            ErrorSource::Transport,
            "Pi connection failed: "@ + "stream ended before the command completed"@,
        ),
{
    transport("stream ended before the command completed")
}

// ---------------------------------------------------------------------------
// Laws
// ---------------------------------------------------------------------------

/// Identifiers do not repeat: two commands of a connection never share one.
pub proof fn law_identifiers_differ(m: nat, n: nat)
    requires
        m != n,
    ensures
        command_id(m) != command_id(n),
{
    crate::number::lemma_decimal(m);
    crate::number::lemma_decimal(n);
    if command_id(m) == command_id(n) {
        assert(command_id(m).skip("hibiscus-"@.len() as int) =~= decimal(m));
        assert(command_id(n).skip("hibiscus-"@.len() as int) =~= decimal(n));
    }
}

/// A request is answered by its own response alone: a record with another
/// identifier or type neither ends it nor changes the session to resume.
pub proof fn law_only_the_own_response_answers(
    l: LinkView,
    e: Tree,
    id: Seq<char>,
    kind: Seq<char>,
    command: Tree,
)
    requires
        record_problem(e) is None,
        !answers(e, id),
    ensures
        answered(l, e, id, kind, command).0 == l,
        answered(l, e, id, kind, command).1 is Other,
{
}

/// No record brings a connection back that was given up.
pub proof fn law_records_never_reconnect(l: LinkView, e: Tree, id: Seq<char>, kind: Seq<char>, c: Tree)
    requires
        l.disconnected,
    ensures
        answered(l, e, id, kind, c).0.disconnected,
        answered(l, e, id, kind, c).0.open == l.open,
{
}

/// A response that Pi gives to a request is handed out: its data where it
/// succeeded, and else the error that Pi named.
pub proof fn law_responses_are_handed_out(
    l: LinkView,
    e: Tree,
    id: Seq<char>,
    kind: Seq<char>,
    command: Tree,
)
    requires
        record_problem(e) is None,
        e.says("type"@, "response"@),
        e.says("id"@, id),
    ensures
        e.flagged("success"@, true) && (kind != "get_state"@ || e.at("data"@) is Object)
            ==> answered(l, e, id, kind, command).1 == AnswerView::Done(e.at("data"@)),
        !e.flagged("success"@, true) ==> answered(l, e, id, kind, command).1 is Failed && answered(
            l,
            e,
            id,
            kind,
            command,
        ).0 == l,
{
}

/// The session that is opened again after a failure is the one that Pi named
/// last, or the one that was switched to.
pub proof fn law_the_last_session_is_resumed(
    l: LinkView,
    e: Tree,
    id: Seq<char>,
    command: Tree,
    path: Seq<char>,
)
    requires
        record_problem(e) is None,
        e.says("type"@, "response"@),
        e.says("id"@, id),
        e.flagged("success"@, true),
        e.at("data"@) is Object,
    ensures
        e.at("data"@).says("sessionFile"@, path) ==> answered(
            l,
            e,
            id,
            "get_state"@,
            command,
        ).0.resume == StartView::Selected(path),
        !e.at("data"@).flagged("cancelled"@, true) && command.says("sessionPath"@, path)
            ==> answered(l, e, id, "switch_session"@, command).0.resume == StartView::Selected(
            path,
        ),
        e.at("data"@).flagged("cancelled"@, true) ==> answered(
            l,
            e,
            id,
            "switch_session"@,
            command,
        ).0 == l,
        start_arguments(StartView::Selected(path)) == seq!["--session"@, path],
        start_arguments(StartView::New).len() == 0,
{
    reveal_strlit("get_state");
    reveal_strlit("switch_session");
    assert("get_state"@.len() == 9 && "switch_session"@.len() == 14);
}

/// A shutdown is over only when Pi has exited, its streams are drained and
/// nothing failed in time.
pub proof fn law_shutdowns_are_complete(
    failed: bool,
    now: u64,
    deadline: u64,
    exited: bool,
    drained: bool,
    clean: bool,
)
    ensures
        shutdown_of(failed, now, deadline, exited, drained, clean) == Shutdown::Complete <==> !failed
            && now < deadline && exited && drained && clean,
        shutdown_of(failed, now, deadline, exited, drained, clean) == Shutdown::Failed <==> failed
            || now >= deadline,
{
}

/// Only a session that is known by its path is opened again.
pub proof fn law_known_sessions_are_opened_again(path: Seq<char>)
    ensures
        start_arguments(resumable(StartView::Selected(path))) == seq!["--session"@, path],
        start_arguments(resumable(StartView::Latest)).len() == 0,
        start_arguments(resumable(StartView::New)).len() == 0,
        start_arguments(StartView::Latest) == seq!["--continue"@],
{
}

}
