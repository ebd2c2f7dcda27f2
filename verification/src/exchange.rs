//! One command and everything that Pi says until it is done. The exchange
//! decides; what it shows and sends is carried out by its caller.
use crate::error::{
    error_of, error_text, protocol, recovery_of, transport, ChatError, ErrorCategory, ErrorSource,
    ErrorView, RecoveryAction,
};
use crate::json::{add_field, encode, object, printed, text, Json, Tree};
use crate::lines::{fields, rows, split_fields};
use crate::number::{decimal, decimal_text, parse_chars, parse_spec};
use crate::queue::{DraftSubmission, DraftView, QueueMode};
use crate::run::{observed, outcome_of, OutcomeView, RunOutcome, RunState, RunView};
use crate::table::{
    distinct, keys_of, lemma_name_index, lemma_put_distinct, lemma_remove_distinct, name_index,
    names_of, place_of, put,
};
use crate::text::{cat2, cat3, cat4, cat5, chars_of, copy, same};
use crate::tools::{
    edit_diff_of, label_path, label_path_of, safe_detail, safe_detail_of, show_edit_diff,
    tool_label, tool_label_of,
};
use crate::ui::{assistant_of, info_of, Ui};
use crate::wire::{
    check_record, record_problem, rejected, rejected_of, wire_of, write_command,
};
use vstd::prelude::*;

verus! {

/// How many messages may wait at once.
pub const MAX_QUEUED: usize = 16;

/// How long a cancellation may take, in milliseconds.
pub const CANCELLATION_LIMIT: u64 = 10_000;

// ---------------------------------------------------------------------------
// What is shown
// ---------------------------------------------------------------------------

/// Something for the display to do.
pub enum Effect {
    /// What Pi is at.
    Work(String),
    ThinkingStart,
    /// Reasoning is over; the text is for a display without a timeline.
    ThinkingEnd(String),
    SplitTimeline,
    Write(String),
    Flush,
    /// A tool starts: its call, name and file, and the text for a display
    /// without a timeline.
    ToolStart(String, String, String, String),
    /// A tool is done: its call, name and file, whether it failed, its diff,
    /// and the text for a display without a timeline.
    ToolEnd(String, String, String, bool, Option<String>, String),
    Goal(Json),
    /// A line for the diagnostic stream.
    Notice(String),
    QueueUpdate(Json),
    ClearQueue,
    Queued(DraftSubmission),
    RejectedQueue(DraftSubmission, String),
    Dialog(Json),
}

/// What an [`Effect`] says.
pub enum Show {
    Work(Seq<char>),
    ThinkingStart,
    ThinkingEnd(Seq<char>),
    SplitTimeline,
    Write(Seq<char>),
    Flush,
    ToolStart(Seq<char>, Seq<char>, Seq<char>, Seq<char>),
    ToolEnd(Seq<char>, Seq<char>, Seq<char>, bool, Option<Seq<char>>, Seq<char>),
    Goal(Tree),
    Notice(Seq<char>),
    QueueUpdate(Tree),
    ClearQueue,
    Queued(DraftView),
    RejectedQueue(DraftView, Seq<char>),
    Dialog(Tree),
}

impl View for Effect {
    type V = Show;

    open spec fn view(&self) -> Show {
        match *self {
            Effect::Work(text) => Show::Work(text@),
            Effect::ThinkingStart => Show::ThinkingStart,
            Effect::ThinkingEnd(text) => Show::ThinkingEnd(text@),
            Effect::SplitTimeline => Show::SplitTimeline,
            Effect::Write(text) => Show::Write(text@),
            Effect::Flush => Show::Flush,
            Effect::ToolStart(id, name, path, text) => Show::ToolStart(id@, name@, path@, text@),
            Effect::ToolEnd(id, name, path, failed, diff, text) => Show::ToolEnd(
                id@,
                name@,
                path@,
                failed,
                crate::error::text_view(diff),
                text@,
            ),
            Effect::Goal(goal) => Show::Goal(goal@),
            Effect::Notice(text) => Show::Notice(text@),
            Effect::QueueUpdate(event) => Show::QueueUpdate(event@),
            Effect::ClearQueue => Show::ClearQueue,
            Effect::Queued(draft) => Show::Queued(draft@),
            Effect::RejectedQueue(draft, reason) => Show::RejectedQueue(draft@, reason@),
            Effect::Dialog(event) => Show::Dialog(event@),
        }
    }
}

pub open spec fn shows(effects: Seq<Effect>) -> Seq<Show> {
    Seq::new(effects.len(), |i: int| effects[i]@)
}

// ---------------------------------------------------------------------------
// State
// ---------------------------------------------------------------------------

pub struct Exchange {
    pub id: String,
    pub kind: String,
    pub ui: Ui,
    /// The running tool calls, and the label of each.
    pub active_tools: Vec<(String, String)>,
    pub reasoning_since: Option<u64>,
    pub accepted: bool,
    pub settled: bool,
    pub printed_text: bool,
    pub pending_newline: bool,
    pub run: RunState,
    pub interrupted: bool,
    pub clear_id: Option<String>,
    pub clear_done: bool,
    pub abort_id: Option<String>,
    pub abort_done: bool,
    pub rejection: Option<ChatError>,
    pub cancellation_started: Option<u64>,
    /// Submissions that were sent and not yet answered.
    pub pending_queued: Vec<(String, DraftSubmission)>,
    pub next_queue_id: u64,
    /// How many messages Pi itself holds back.
    pub queued_count: usize,
    /// What the display has to do, in order.
    pub shown: Vec<Effect>,
}

/// What an [`Exchange`] holds.
#[verifier::ext_equal]
pub struct Turn {
    pub id: Seq<char>,
    pub kind: Seq<char>,
    pub ui: Ui,
    pub active_tools: Seq<(Seq<char>, Seq<char>)>,
    pub reasoning_since: Option<u64>,
    pub accepted: bool,
    pub settled: bool,
    pub printed_text: bool,
    pub pending_newline: bool,
    pub run: RunView,
    pub interrupted: bool,
    pub clear_id: Option<Seq<char>>,
    pub clear_done: bool,
    pub abort_id: Option<Seq<char>>,
    pub abort_done: bool,
    pub rejection: Option<ErrorView>,
    pub cancellation_started: Option<u64>,
    pub pending_queued: Seq<(Seq<char>, DraftView)>,
    pub next_queue_id: u64,
    pub queued_count: usize,
    pub shown: Seq<Show>,
}

pub open spec fn labels_view(tools: Seq<(String, String)>) -> Seq<(Seq<char>, Seq<char>)> {
    Seq::new(tools.len(), |i: int| (tools[i].0@, tools[i].1@))
}

pub open spec fn pending_view(pending: Seq<(String, DraftSubmission)>) -> Seq<
    (Seq<char>, DraftView),
> {
    Seq::new(pending.len(), |i: int| (pending[i].0@, pending[i].1@))
}

impl View for Exchange {
    type V = Turn;

    open spec fn view(&self) -> Turn {
        Turn {
            id: self.id@,
            kind: self.kind@,
            ui: self.ui,
            active_tools: labels_view(self.active_tools@),
            reasoning_since: self.reasoning_since,
            accepted: self.accepted,
            settled: self.settled,
            printed_text: self.printed_text,
            pending_newline: self.pending_newline,
            run: self.run@,
            interrupted: self.interrupted,
            clear_id: crate::error::text_view(self.clear_id),
            clear_done: self.clear_done,
            abort_id: crate::error::text_view(self.abort_id),
            abort_done: self.abort_done,
            rejection: crate::run::error_view(self.rejection),
            cancellation_started: self.cancellation_started,
            pending_queued: pending_view(self.pending_queued@),
            next_queue_id: self.next_queue_id,
            queued_count: self.queued_count,
            shown: shows(self.shown@),
        }
    }
}

/// How an exchange ends: done, whether by an interruption or not, or failed.
pub enum Ending {
    Done(bool),
    Failed(ErrorView),
}

pub open spec fn ending_view(end: Option<Result<bool, ChatError>>) -> Option<Ending> {
    match end {
        Some(Ok(stopped)) => Some(Ending::Done(stopped)),
        Some(Err(error)) => Some(Ending::Failed(error@)),
        None => None,
    }
}

impl Turn {
    /// No two running tool calls have the same identifier, and no two
    /// submissions without an answer.
    pub open spec fn wf(self) -> bool {
        distinct(self.active_tools) && distinct(self.pending_queued)
    }

    pub open spec fn prompt(self) -> bool {
        self.kind == "prompt"@
    }

    /// The turn with one more thing to show.
    pub open spec fn show(self, what: Show) -> Turn {
        Turn { shown: self.shown.push(what), ..self }
    }

    pub open spec fn work(self, what: Seq<char>) -> Turn {
        self.show(Show::Work(what))
    }

    pub open spec fn write(self, text: Seq<char>) -> Turn {
        self.show(Show::Write(text))
    }

    pub open spec fn info(self, text: Seq<char>) -> Turn {
        self.write(info_of(self.ui, text))
    }

    /// Both parts of a cancellation were acknowledged.
    pub open spec fn cancelled(self) -> bool {
        self.abort_done && self.clear_done
    }

    /// Nothing waits, here or in Pi.
    pub open spec fn idle(self) -> bool {
        self.pending_queued.len() == 0 && self.queued_count == 0
    }

    /// The turn is over: the prompt was accepted, the agent has settled,
    /// nothing waits, and an interruption was acknowledged.
    pub open spec fn ready(self) -> bool {
        &&& self.prompt()
        &&& self.accepted
        &&& self.settled
        &&& self.idle()
        &&& !self.interrupted || self.cancelled()
    }
}

// ---------------------------------------------------------------------------
// Steps
// ---------------------------------------------------------------------------

/// The number at the end of a queue identifier.
pub open spec fn stamp(id: Seq<char>) -> nat {
    match parse_spec(fields(id, '-').last(), u64::MAX as nat) {
        Some(n) => n,
        None => 0,
    }
}

/// The place of the submission that was sent last.
pub open spec fn newest(pending: Seq<(Seq<char>, DraftView)>) -> int
    decreases pending.len(),
{
    if pending.len() <= 1 {
        0
    } else {
        let best = newest(pending.drop_last());
        if stamp(pending.last().0) >= stamp(pending[best].0) {
            pending.len() - 1
        } else {
            best
        }
    }
}

/// The connection failed: the newest submission without an answer is handed
/// back for review, and nothing is sent again.
pub open spec fn preserved(t: Turn) -> Turn {
    if t.pending_queued.len() == 0 {
        t
    } else {
        let i = newest(t.pending_queued);
        Turn { pending_queued: t.pending_queued.remove(i), ..t }.show(
            Show::RejectedQueue(
                t.pending_queued[i].1,
                "Delivery uncertain: RPC connection failed; check history before resending"@,
            ),
        )
    }
}

/// The reasoning, if any, is over.
pub open spec fn reasoned(t: Turn, now: u64) -> Turn {
    match t.reasoning_since {
        None => t,
        Some(start) => {
            let t = Turn { reasoning_since: None, ..t };
            if t.ui.interactive {
                let seconds = (if now >= start {
                    (now - start) as nat
                } else {
                    0
                }) / 1000;
                let duration = if seconds == 0 {
                    "<1s"@
                } else {
                    decimal(seconds) + "s"@
                };
                t.show(Show::ThinkingEnd(info_of(t.ui, "reasoning · "@ + duration))).show(
                    Show::Flush,
                )
            } else {
                t
            }
        },
    }
}

/// What comes before the first text of an answer.
pub open spec fn opened(t: Turn) -> Turn {
    let t = if t.pending_newline {
        Turn { pending_newline: false, ..t.write("\n"@) }
    } else {
        t
    };
    if t.printed_text {
        t
    } else {
        let t = t.show(Show::SplitTimeline);
        if t.ui.interactive {
            t.write(assistant_of(t.ui)).show(Show::Flush)
        } else {
            t
        }
    }
}

/// The end of a turn.
pub open spec fn finished(t: Turn) -> (Turn, Option<Ending>) {
    let t = if t.printed_text || t.pending_newline {
        t.write("\n"@)
    } else {
        t
    };
    match outcome_of(t.run, t.interrupted) {
        OutcomeView::Failed(error) => (t, Some(Ending::Failed(error))),
        _ => {
            let t = if t.interrupted {
                t.info("Stopped. You can keep chatting."@)
            } else {
                t
            };
            let t = if t.ui.interactive {
                t.write("\n"@)
            } else {
                t
            };
            (t, Some(Ending::Done(t.interrupted)))
        },
    }
}

/// Whether the turn goes on after an event. A rejection that waited for the
/// cancellation comes first.
pub open spec fn concluded(t: Turn) -> (Turn, Option<Ending>) {
    if t.cancelled() && t.rejection is Some {
        (t, Some(Ending::Failed(t.rejection->0)))
    } else if t.ready() {
        finished(t)
    } else {
        (t, None)
    }
}

/// The answer to a submission. An acceptance may come late, and begins no run:
/// a turn that has settled stays so.
pub open spec fn acknowledged(t: Turn, e: Tree, i: int) -> Turn {
    let queued = t.pending_queued[i].1;
    let t = Turn { pending_queued: t.pending_queued.remove(i), ..t };
    let t = if e.flagged("success"@, true) && t.interrupted {
        t.show(
            Show::RejectedQueue(
                queued,
                "Pi is stopping; queue delivery is uncertain. Check history before resending"@,
            ),
        )
    } else if e.flagged("success"@, true) {
        t.show(Show::Queued(queued))
    } else {
        t.show(Show::RejectedQueue(queued, e.text_or("error"@, "unknown error"@)))
    };
    t.show(Show::Flush)
}

/// The place of the submission that an event answers.
pub open spec fn answered(t: Turn, e: Tree) -> Option<int> {
    if t.prompt() && e.says("type"@, "response"@) && e.text_at("id"@) is Some {
        name_index(names_of(t.pending_queued), e.text_at("id"@)->0)
    } else {
        None
    }
}

/// Pi turned a cancellation down.
pub open spec fn cancellation_rejected(t: Turn, e: Tree) -> bool {
    &&& e.text_at("id"@) is Some
    &&& t.clear_id == e.text_at("id"@) || t.abort_id == e.text_at("id"@)
    &&& !e.flagged("success"@, true)
}

/// What a response says of the cancellation.
pub open spec fn cancellation_noted(t: Turn, e: Tree) -> Turn {
    let t = if t.clear_id == e.text_at("id"@) {
        Turn { clear_done: true, queued_count: 0, ..t.show(Show::ClearQueue) }
    } else {
        t
    };
    if t.abort_id == e.text_at("id"@) {
        Turn { abort_done: true, ..t }
    } else {
        t
    }
}

/// The response to the command itself.
pub open spec fn responded(t: Turn, e: Tree) -> (Turn, Option<Ending>) {
    if !e.flagged("success"@, true) {
        let error = rejected_of(e, t.kind, t.id);
        if !t.interrupted || t.cancelled() {
            (t, Some(Ending::Failed(error)))
        } else {
            (Turn { rejection: Some(error), ..t }, None)
        }
    } else {
        let t = Turn { accepted: true, ..t };
        if !t.prompt() {
            if e.at("data"@).flagged("cancelled"@, true) {
                (
                    t,
                    Some(
                        Ending::Failed(
                            ErrorView {
                                category: ErrorCategory::Cancelled,
                                ..error_of(ErrorSource::Command, "Cancelled "@ + t.kind)
                            },
                        ),
                    ),
                )
            } else {
                (t, Some(Ending::Done(false)))
            }
        } else if t.ready() {
            finished(t)
        } else {
            concluded(t)
        }
    }
}

/// How many entries a list has, and none where it is no list.
pub open spec fn count(list: Tree) -> nat {
    match list.list() {
        Some(items) => items.len(),
        None => 0,
    }
}

/// A number of entries, as far as a counter reaches.
pub open spec fn capped(n: nat) -> usize {
    if n > usize::MAX {
        usize::MAX
    } else {
        n as usize
    }
}

/// A piece of a message arrived.
pub open spec fn streamed(t: Turn, update: Tree, now: u64) -> Turn {
    if update.says("type"@, "thinking_start"@) || update.says("type"@, "thinking_delta"@) {
        let t = if t.reasoning_since is None {
            let t = Turn { reasoning_since: Some(now), ..t };
            if t.ui.interactive {
                t.show(Show::ThinkingStart)
            } else {
                t
            }
        } else {
            t
        };
        t.work("Thinking…"@)
    } else if update.says("type"@, "thinking_end"@) {
        reasoned(t, now).work("Preparing response…"@)
    } else if update.says("type"@, "toolcall_start"@) {
        t.work("Preparing "@ + safe_detail_of(update.text_or("toolName"@, "tool"@)) + "…"@)
    } else if update.says("type"@, "text_delta"@) {
        let t = t.work("Writing reply…"@);
        match update.text_at("delta"@) {
            None => t,
            Some(delta) => {
                let t = if !t.printed_text {
                    reasoned(t, now)
                } else {
                    t
                };
                Turn { printed_text: true, ..opened(t).write(delta).show(Show::Flush) }
            },
        }
    } else {
        t
    }
}

/// The turn after the texts among some blocks of a message.
pub open spec fn blocks_shown(t: Turn, blocks: Seq<Tree>) -> Turn
    decreases blocks.len(),
{
    if blocks.len() == 0 {
        t
    } else {
        let t = blocks_shown(t, blocks.drop_last());
        let block = blocks.last();
        if block.says("type"@, "text"@) && block.text_at("text"@) is Some {
            Turn { printed_text: true, ..opened(t).write(block.text_at("text"@)->0) }
        } else {
            t
        }
    }
}

/// A message of the assistant is complete. Where no piece of it was shown,
/// its texts are.
pub open spec fn message_ended(t: Turn, message: Tree, now: u64) -> Turn {
    let t = reasoned(t, now);
    let t = if !t.printed_text && message.at("content"@).list() is Some {
        blocks_shown(t, message.at("content"@).list()->0).show(Show::Flush)
    } else {
        t
    };
    if t.printed_text {
        Turn { pending_newline: true, printed_text: false, ..t }
    } else {
        t
    }
}

pub open spec fn tool_started(t: Turn, e: Tree, now: u64) -> Turn {
    let t = reasoned(t, now);
    let name = e.text_or("toolName"@, "unknown"@);
    let label = tool_label_of(name, e.at("args"@));
    let t = match e.text_at("toolCallId"@) {
        Some(id) => Turn { active_tools: put(t.active_tools, id, label), ..t },
        None => t,
    };
    let t = t.work("Running "@ + label + "…"@);
    if t.ui.interactive {
        let t = if t.printed_text || t.pending_newline {
            Turn { pending_newline: false, ..t.write("\n"@) }
        } else {
            t
        };
        let t = if name != "goal"@ {
            t.show(
                Show::ToolStart(
                    e.text_or("toolCallId"@, ""@),
                    name,
                    label_path_of(label),
                    info_of(t.ui, "↳ "@ + label + " …"@),
                ),
            )
        } else {
            t
        };
        t.show(Show::Flush)
    } else {
        t.show(Show::Notice("[tool: "@ + name + "]"@))
    }
}

/// The place of the label of the call that an event speaks of.
pub open spec fn call_index(t: Turn, e: Tree) -> Option<int> {
    match e.text_at("toolCallId"@) {
        Some(id) => name_index(names_of(t.active_tools), id),
        None => None,
    }
}

pub open spec fn tool_ended(t: Turn, e: Tree) -> Turn {
    let name = e.text_or("toolName"@, "tool"@);
    let failed = e.flagged("isError"@, true);
    let (t, label) = match call_index(t, e) {
        Some(i) => (
            Turn { active_tools: t.active_tools.remove(i), ..t },
            t.active_tools[i].1,
        ),
        None => (t, safe_detail_of(name)),
    };
    let t = t.work("Working…"@);
    let t = if name == "goal"@ && !failed {
        t.show(Show::Goal(e.at("result"@).at("details"@)))
    } else {
        t
    };
    if t.ui.interactive && name != "goal"@ {
        let line = info_of(
            t.ui,
            (if failed {
                "✗ failed"@
            } else {
                "✓ done"@
            }) + " · "@ + label,
        );
        let edited = name == "edit"@ && !failed;
        t.show(
            Show::ToolEnd(
                e.text_or("toolCallId"@, ""@),
                name,
                label_path_of(label),
                failed,
                if edited {
                    e.at("result"@).at("details"@).text_at("diff"@)
                } else {
                    None
                },
                if edited {
                    line + edit_diff_of(t.ui, label, e.at("result"@))
                } else {
                    line
                },
            ),
        ).show(Show::Flush)
    } else {
        t
    }
}

/// A compaction that the run does not depend on is over.
pub open spec fn compaction_ended(t: Turn, e: Tree) -> Turn {
    match e.text_at("errorMessage"@) {
        Some(message) => {
            let error = error_text(error_of(ErrorSource::Compaction, message));
            if t.ui.interactive {
                t.write("\n"@).info("Warning: "@ + error)
            } else {
                t.show(Show::Notice("pi: "@ + error))
            }
        },
        None => if e.flagged("aborted"@, true) && t.ui.interactive && !t.interrupted {
            t.info("Context compaction cancelled; chat remains available."@)
        } else {
            t
        },
    }
}

/// The natural number of a field, or zero.
pub open spec fn natural_or_zero(e: Tree, key: Seq<char>) -> nat {
    match e.at(key).natural() {
        Some(n) => n as nat,
        None => 0,
    }
}

pub open spec fn retrying(t: Turn, e: Tree) -> Turn {
    t.work(
        "Pi retry "@ + decimal(natural_or_zero(e, "attempt"@)) + "/"@ + decimal(
            natural_or_zero(e, "maxAttempts"@),
        ) + " in "@ + decimal(natural_or_zero(e, "delayMs"@) / 1000) + "s…"@,
    )
}

/// A user's message that Pi has delivered.
pub open spec fn user_delivery(t: Turn, e: Tree) -> bool {
    t.prompt() && e.says("type"@, "message_start"@) && e.at("message"@).says("role"@, "user"@)
}

/// Every other event.
pub open spec fn noted(t: Turn, e: Tree, delivered: bool, now: u64) -> Turn {
    if t.prompt() && e.says("type"@, "agent_start"@) {
        Turn { settled: false, ..t }
    } else if user_delivery(t, e) {
        if delivered {
            Turn { printed_text: false, pending_newline: false, ..t.show(Show::Flush) }
        } else {
            t
        }
    } else if t.prompt() && e.says("type"@, "queue_update"@) {
        Turn {
            queued_count: capped(count(e.at("steering"@)) + count(e.at("followUp"@))),
            ..t.show(Show::QueueUpdate(e))
        }
    } else if t.prompt() && e.says("type"@, "message_update"@) {
        streamed(t, e.at("assistantMessageEvent"@), now)
    } else if t.prompt() && e.says("type"@, "message_end"@) && e.at("message"@).says(
        "role"@,
        "assistant"@,
    ) {
        message_ended(t, e.at("message"@), now)
    } else if t.prompt() && e.says("type"@, "tool_execution_start"@) {
        tool_started(t, e, now)
    } else if t.prompt() && e.says("type"@, "tool_execution_end"@) {
        tool_ended(t, e)
    } else if t.prompt() && e.says("type"@, "compaction_start"@) {
        t.work("Compacting context…"@)
    } else if e.says("type"@, "compaction_end"@) && !e.says("reason"@, "overflow"@) {
        compaction_ended(t, e)
    } else if t.prompt() && (e.says("type"@, "auto_retry_start"@) || e.says(
        "type"@,
        "summarization_retry_scheduled"@,
    )) {
        retrying(t, e)
    } else if t.prompt() && e.says("type"@, "summarization_retry_attempt_start"@) {
        t.work("Retrying context summary…"@)
    } else if e.says("type"@, "extension_ui_request"@) || e.says("type"@, "extension_error"@) {
        t.show(Show::Dialog(e)).show(Show::Flush)
    } else {
        t
    }
}

/// What an event makes of a turn. `delivered` says whether the display shows
/// a user's message that Pi has delivered as a message of its own.
pub open spec fn stepped(t: Turn, e: Tree, delivered: bool, now: u64) -> (Turn, Option<Ending>) {
    match record_problem(e) {
        Some(message) => (
            preserved(t),
            Some(Ending::Failed(error_of(ErrorSource::Protocol, message))),
        ),
        None => {
            let t = Turn { run: observed(t.run, e), ..t };
            match answered(t, e) {
                Some(i) => concluded(acknowledged(t, e, i)),
                None => if e.says("type"@, "response"@) {
                    if cancellation_rejected(t, e) {
                        (
                            t,
                            Some(
                                Ending::Failed(
                                    error_of(
                                        ErrorSource::Protocol,
                                        "Pi rejected cancellation; run state is uncertain"@,
                                    ),
                                ),
                            ),
                        )
                    } else if e.says("id"@, t.id) {
                        responded(cancellation_noted(t, e), e)
                    } else {
                        concluded(cancellation_noted(t, e))
                    }
                } else if t.prompt() && e.says("type"@, "agent_settled"@) {
                    let t = Turn { settled: true, ..reasoned(t, now) };
                    if t.ready() {
                        finished(t)
                    } else {
                        concluded(t)
                    }
                } else {
                    concluded(noted(t, e, delivered, now))
                },
            }
        },
    }
}


/// The terminal is asked for keys.
pub open spec fn listening(t: Turn) -> bool {
    t.prompt() && !t.interrupted && !(t.settled && t.idle())
}

/// A command that is its type and an identifier.
pub open spec fn identified_of(id: Seq<char>, kind: Seq<char>) -> Tree {
    Tree::Object(seq![("id"@, Tree::Text(id)), ("type"@, Tree::Text(kind))])
}

/// What stops the command `id`: the queue is cleared, then the run aborted.
pub open spec fn interruption(id: Seq<char>) -> Seq<char> {
    printed(identified_of(id + "-clear"@, "clear_queue"@)) + "\n"@ + printed(
        identified_of(id + "-abort"@, "abort"@),
    ) + "\n"@
}

pub open spec fn interrupted_turn(t: Turn) -> Turn {
    Turn {
        interrupted: true,
        clear_id: Some(t.id + "-clear"@),
        abort_id: Some(t.id + "-abort"@),
        ..t
    }
}

/// The turn once the time of an interruption is noted.
pub open spec fn timed(t: Turn, now: u64) -> Turn {
    if t.interrupted && t.cancellation_started is None {
        Turn { cancellation_started: Some(now), ..t }
    } else {
        t
    }
}

/// An interruption has taken too long.
pub open spec fn late(t: Turn, now: u64) -> bool {
    t.interrupted && (t.cancellation_started matches Some(start) && now - start
        > CANCELLATION_LIMIT)
}

/// What becomes of a submission.
pub enum Submission {
    /// It is kept until the prompt was accepted.
    Hold(DraftSubmission),
    /// It is handed back, with the reason.
    Reject(DraftSubmission, String),
    /// It is sent: its identifier and its line.
    Send(String, String, DraftSubmission),
}

/// What a [`Submission`] says.
pub enum SubmissionView {
    Hold(DraftView),
    Reject(DraftView, Seq<char>),
    Send(Seq<char>, Seq<char>, DraftView),
}

impl View for Submission {
    type V = SubmissionView;

    open spec fn view(&self) -> SubmissionView {
        match *self {
            Submission::Hold(draft) => SubmissionView::Hold(draft@),
            Submission::Reject(draft, reason) => SubmissionView::Reject(draft@, reason@),
            Submission::Send(id, line, draft) => SubmissionView::Send(id@, line@, draft@),
        }
    }
}

/// The command for a message that waits.
pub open spec fn queue_command(id: Seq<char>, draft: DraftView) -> Tree {
    Tree::Object(
        seq![
            ("id"@, Tree::Text(id)),
            ("type"@, Tree::Text("prompt"@)),
            ("message"@, Tree::Text(draft.text)),
            (
                "streamingBehavior"@,
                Tree::Text(
                    match draft.mode {
                        QueueMode::Steer => "steer"@,
                        QueueMode::FollowUp => "followUp"@,
                    },
                ),
            ),
        ],
    )
}

/// A message that is submitted while Pi works is kept until the prompt was
/// accepted, handed back where too many wait, and else sent under a new
/// identifier.
pub open spec fn submitted(t: Turn, draft: DraftView) -> (Turn, SubmissionView) {
    if !t.accepted {
        (t, SubmissionView::Hold(draft))
    } else if t.pending_queued.len() + t.queued_count >= MAX_QUEUED {
        (t, SubmissionView::Reject(draft, "Too many pending queue requests"@))
    } else {
        let t = Turn { next_queue_id: (t.next_queue_id + 1) as u64, ..t };
        let id = t.id + "-queued-"@ + decimal(t.next_queue_id as nat);
        (t, SubmissionView::Send(id, wire_of(queue_command(id, draft), draft.images)->0, draft))
    }
}

// ---------------------------------------------------------------------------
// The exchange
// ---------------------------------------------------------------------------

fn count_of(list: &Json) -> (n: usize)
    ensures
        n == count(list@),
{
    match list.as_list() {
        Some(items) => items.len(),
        None => 0,
    }
}

fn natural_of(event: &Json, key: &str) -> (n: u64)
    ensures
        n == natural_or_zero(event@, key@),
{
    match event.at(key).as_natural() {
        Some(n) => n,
        None => 0,
    }
}

pub(crate) fn identified(id: &str, kind: &str) -> (r: Json)
    ensures
        r@ == identified_of(id@, kind@),
{
    let mut parts: Vec<(String, Json)> = Vec::new();
    assert(crate::json::fields_view(parts@) =~= Seq::empty());
    add_field(&mut parts, "id", text(id));
    add_field(&mut parts, "type", text(kind));
    let r = object(parts);
    assert(r@->Object_0 =~= identified_of(id@, kind@)->Object_0);
    r
}

fn stamp_of(id: &str) -> (n: u64)
    ensures
        n == stamp(id@),
{
    let chars = chars_of(id);
    let parts = split_fields(chars.as_slice(), '-');
    proof {
        assert(rows(parts@).len() > 0);
    }
    let n: usize = parts.len();
    assert(rows(parts@).last() == parts@[n - 1]@);
    match parse_chars(parts[n - 1].as_slice(), u64::MAX) {
        Some(n) => n,
        None => 0,
    }
}

impl Exchange {
    /// An exchange for the command `id` of the kind `kind`.
    pub fn new(id: &str, kind: &str, ui: Ui) -> (r: Self)
        ensures
            r@ == (Turn {
                id: id@,
                kind: kind@,
                ui,
                active_tools: Seq::empty(),
                reasoning_since: None,
                accepted: false,
                settled: false,
                printed_text: false,
                pending_newline: false,
                run: RunView { assistant_error: None, compaction_error: None },
                interrupted: false,
                clear_id: None,
                clear_done: false,
                abort_id: None,
                abort_done: false,
                rejection: None,
                cancellation_started: None,
                pending_queued: Seq::empty(),
                next_queue_id: 0,
                queued_count: 0,
                shown: Seq::empty(),
            }),
            r@.wf(),
    {
        let r = Exchange {
            id: copy(id),
            kind: copy(kind),
            ui,
            active_tools: Vec::new(),
            reasoning_since: None,
            accepted: false,
            settled: false,
            printed_text: false,
            pending_newline: false,
            run: RunState::new(),
            interrupted: false,
            clear_id: None,
            clear_done: false,
            abort_id: None,
            abort_done: false,
            rejection: None,
            cancellation_started: None,
            pending_queued: Vec::new(),
            next_queue_id: 0,
            queued_count: 0,
            shown: Vec::new(),
        };
        assert(r@.active_tools =~= Seq::empty());
        assert(r@.pending_queued =~= Seq::empty());
        assert(r@.shown =~= Seq::empty());
        r
    }

    /// What the display has to do, in order; each thing is handed out once.
    pub fn take_shown(&mut self) -> (out: Vec<Effect>)
        ensures
            shows(out@) == old(self)@.shown,
            final(self)@ == (Turn { shown: Seq::empty(), ..old(self)@ }),
            old(self)@.wf() ==> final(self)@.wf(),
    {
        let mut out: Vec<Effect> = Vec::new();
        std::mem::swap(&mut out, &mut self.shown);
        assert(self@ =~= (Turn { shown: Seq::empty(), ..old(self)@ }));
        out
    }

    fn show(&mut self, effect: Effect)
        ensures
            final(self)@ == old(self)@.show(effect@),
    {
        self.shown.push(effect);
        assert(self@ =~= old(self)@.show(effect@));
    }

    fn work(&mut self, what: &str)
        ensures
            final(self)@ == old(self)@.work(what@),
    {
        self.show(Effect::Work(copy(what)));
    }

    fn write(&mut self, what: &str)
        ensures
            final(self)@ == old(self)@.write(what@),
    {
        self.show(Effect::Write(copy(what)));
    }

    fn info(&mut self, what: &str)
        ensures
            final(self)@ == old(self)@.info(what@),
    {
        let text = self.ui.info(what);
        self.show(Effect::Write(text));
    }

    pub fn is_prompt(&self) -> (r: bool)
        ensures
            r == self@.prompt(),
    {
        same(self.kind.as_str(), "prompt")
    }

    fn is_ready(&self) -> (r: bool)
        ensures
            r == self@.ready(),
    {
        self.is_prompt() && self.accepted && self.settled && self.pending_queued.len() == 0
            && self.queued_count == 0 && (!self.interrupted || (self.abort_done && self.clear_done))
    }

    fn preserve(&mut self)
        ensures
            final(self)@ == preserved(old(self)@),
    {
        if self.pending_queued.len() == 0 {
            return;
        }
        let ghost all = self@.pending_queued;
        let mut best: usize = 0;
        let mut top: u64 = stamp_of(self.pending_queued[0].0.as_str());
        let mut i: usize = 1;
        assert(all.take(1).len() == 1);
        while i < self.pending_queued.len()
            invariant
                1 <= i <= self.pending_queued@.len(),
                all == pending_view(self.pending_queued@),
                best < i,
                best == newest(all.take(i as int)),
                top == stamp(all[best as int].0),
                *self == *old(self),
            decreases self.pending_queued@.len() - i,
        {
            let n: u64 = stamp_of(self.pending_queued[i].0.as_str());
            proof {
                assert(all.take(i + 1).drop_last() =~= all.take(i as int));
                assert(all.take(i + 1).last() == all[i as int]);
            }
            if n >= top {
                best = i;
                top = n;
            }
            i = i + 1;
        }
        assert(all.take(i as int) =~= all);
        let (_, submission) = self.pending_queued.remove(best);
        assert(self@ =~= (Turn { pending_queued: all.remove(best as int), ..old(self)@ }));
        self.show(
            Effect::RejectedQueue(
                submission,
                copy("Delivery uncertain: RPC connection failed; check history before resending"),
            ),
        );
    }

    fn show_reasoning(&mut self, now: u64)
        ensures
            final(self)@ == reasoned(old(self)@, now),
    {
        if let Some(start) = self.reasoning_since {
            self.reasoning_since = None;
            assert(self@ =~= (Turn { reasoning_since: None, ..old(self)@ }));
            if self.ui.interactive {
                let seconds: u64 = if now >= start {
                    (now - start) / 1000
                } else {
                    0
                };
                let duration = if seconds == 0 {
                    copy("<1s")
                } else {
                    cat2(decimal_text(seconds).as_str(), "s")
                };
                let line = self.ui.info(cat2("reasoning · ", duration.as_str()).as_str());
                self.show(Effect::ThinkingEnd(line));
                self.show(Effect::Flush);
            }
        }
    }

    fn open_answer(&mut self)
        ensures
            final(self)@ == opened(old(self)@),
    {
        if self.pending_newline {
            self.write("\n");
            let ghost before = self@;
            self.pending_newline = false;
            assert(self@ =~= (Turn { pending_newline: false, ..before }));
        }
        if !self.printed_text {
            self.show(Effect::SplitTimeline);
            if self.ui.interactive {
                let start = self.ui.assistant();
                self.show(Effect::Write(start));
                self.show(Effect::Flush);
            }
        }
    }

    fn finish(&mut self) -> (end: Option<Result<bool, ChatError>>)
        ensures
            (final(self)@, ending_view(end)) == finished(old(self)@),
    {
        if self.printed_text || self.pending_newline {
            self.write("\n");
        }
        match self.run.outcome(self.interrupted) {
            RunOutcome::Failed(error) => Some(Err(error)),
            _ => {
                if self.interrupted {
                    self.info("Stopped. You can keep chatting.");
                }
                if self.ui.interactive {
                    self.write("\n");
                }
                Some(Ok(self.interrupted))
            },
        }
    }

    fn conclude(&mut self) -> (end: Option<Result<bool, ChatError>>)
        ensures
            (final(self)@, ending_view(end)) == concluded(old(self)@),
    {
        if self.abort_done && self.clear_done {
            if let Some(error) = &self.rejection {
                return Some(Err(error.copy()));
            }
        }
        if self.is_ready() {
            self.finish()
        } else {
            None
        }
    }

    fn acknowledge(&mut self, event: &Json, i: usize)
        requires
            i < old(self)@.pending_queued.len(),
        ensures
            final(self)@ == acknowledged(old(self)@, event@, i as int),
    {
        let ghost start = self@;
        let (_, queued) = self.pending_queued.remove(i);
        assert(self@ =~= (Turn { pending_queued: start.pending_queued.remove(i as int), ..start }));
        if event.flagged("success", true) {
            if self.interrupted {
                self.show(
                    Effect::RejectedQueue(
                        queued,
                        copy(
                            "Pi is stopping; queue delivery is uncertain. Check history before resending",
                        ),
                    ),
                );
            } else {
                self.show(Effect::Queued(queued));
            }
        } else {
            self.show(
                Effect::RejectedQueue(queued, copy(event.text_or("error", "unknown error"))),
            );
        }
        self.show(Effect::Flush);
    }

    fn answered_place(&self, event: &Json) -> (r: Option<usize>)
        ensures
            r matches Some(i) ==> i < self@.pending_queued.len() && answered(self@, event@)
                == Some(i as int),
            r is None ==> answered(self@, event@) is None,
    {
        if !self.is_prompt() || !event.says("type", "response") {
            return None;
        }
        assert(keys_of(self.pending_queued@) =~= names_of(self@.pending_queued));
        match event.text_at("id") {
            Some(id) => place_of(&self.pending_queued, id),
            None => None,
        }
    }

    fn same_id(id: &Option<String>, event: &Json) -> (r: bool)
        ensures
            r == (crate::error::text_view(*id) == event@.text_at("id"@)),
    {
        match (id, event.text_at("id")) {
            (Some(a), Some(b)) => same(a.as_str(), b),
            (None, None) => true,
            _ => false,
        }
    }

    fn note_cancellation(&mut self, event: &Json)
        ensures
            final(self)@ == cancellation_noted(old(self)@, event@),
    {
        if Self::same_id(&self.clear_id, event) {
            self.show(Effect::ClearQueue);
            let ghost before = self@;
            self.clear_done = true;
            self.queued_count = 0;
            assert(self@ =~= (Turn { clear_done: true, queued_count: 0, ..before }));
        }
        if Self::same_id(&self.abort_id, event) {
            let ghost before = self@;
            self.abort_done = true;
            assert(self@ =~= (Turn { abort_done: true, ..before }));
        }
    }

    fn respond(&mut self, event: &Json) -> (end: Option<Result<bool, ChatError>>)
        ensures
            (final(self)@, ending_view(end)) == responded(old(self)@, event@),
    {
        if !event.flagged("success", true) {
            let error = rejected(event, self.kind.as_str(), self.id.as_str());
            if !self.interrupted || (self.abort_done && self.clear_done) {
                return Some(Err(error));
            }
            // The cancellation was sent already. Its acknowledgements are
            // drained before another prompt can be submitted.
            self.rejection = Some(error);
            assert(self@ =~= (Turn { rejection: Some(error@), ..old(self)@ }));
            return None;
        }
        self.accepted = true;
        assert(self@ =~= (Turn { accepted: true, ..old(self)@ }));
        if !self.is_prompt() {
            if event.at("data").flagged("cancelled", true) {
                return Some(Err(ChatError::cancelled(self.kind.as_str())));
            }
            return Some(Ok(false));
        }
        if self.is_ready() {
            self.finish()
        } else {
            self.conclude()
        }
    }

    fn stream(&mut self, update: &Json, now: u64)
        ensures
            final(self)@ == streamed(old(self)@, update@, now),
    {
        if update.says("type", "thinking_start") || update.says("type", "thinking_delta") {
            if self.reasoning_since.is_none() {
                self.reasoning_since = Some(now);
                assert(self@ =~= (Turn { reasoning_since: Some(now), ..old(self)@ }));
                if self.ui.interactive {
                    self.show(Effect::ThinkingStart);
                }
            }
            self.work("Thinking…");
        } else if update.says("type", "thinking_end") {
            self.show_reasoning(now);
            self.work("Preparing response…");
        } else if update.says("type", "toolcall_start") {
            let name = safe_detail(update.text_or("toolName", "tool"));
            self.work(cat3("Preparing ", name.as_str(), "…").as_str());
        } else if update.says("type", "text_delta") {
            self.work("Writing reply…");
            if let Some(delta) = update.text_at("delta") {
                if !self.printed_text {
                    self.show_reasoning(now);
                }
                self.open_answer();
                self.write(delta);
                self.show(Effect::Flush);
                let ghost before = self@;
                self.printed_text = true;
                assert(self@ =~= (Turn { printed_text: true, ..before }));
            }
        }
    }

    fn show_blocks(&mut self, blocks: &Vec<Json>, all: &Json)
        requires
            all@.list() is Some,
            all@.list()->0.len() == blocks@.len(),
            forall|i: int| 0 <= i < blocks@.len() ==> (#[trigger] blocks@[i])@ == all@.list()->0[i],
        ensures
            final(self)@ == blocks_shown(old(self)@, all@.list()->0),
    {
        let mut i: usize = 0;
        let ghost trees = all@.list()->0;
        assert(trees.take(0) =~= Seq::<Tree>::empty());
        while i < blocks.len()
            invariant
                i <= blocks@.len(),
                trees.len() == blocks@.len(),
                forall|j: int| 0 <= j < blocks@.len() ==> (#[trigger] blocks@[j])@ == trees[j],
                self@ == blocks_shown(old(self)@, trees.take(i as int)),
            decreases blocks@.len() - i,
        {
            proof {
                assert(trees.take(i + 1).drop_last() =~= trees.take(i as int));
                assert(trees.take(i + 1).last() == trees[i as int]);
            }
            let block = &blocks[i];
            if block.says("type", "text") {
                if let Some(words) = block.text_at("text") {
                    self.open_answer();
                    self.write(words);
                    let ghost before = self@;
                    self.printed_text = true;
                    assert(self@ =~= (Turn { printed_text: true, ..before }));
                }
            }
            i = i + 1;
        }
        assert(trees.take(i as int) =~= trees);
    }

    fn end_message(&mut self, message: &Json, now: u64)
        ensures
            final(self)@ == message_ended(old(self)@, message@, now),
    {
        self.show_reasoning(now);
        if !self.printed_text {
            if let Some(blocks) = message.at("content").as_list() {
                self.show_blocks(blocks, message.at("content"));
                self.show(Effect::Flush);
            }
        }
        if self.printed_text {
            let ghost before = self@;
            self.pending_newline = true;
            self.printed_text = false;
            assert(self@ =~= (Turn { pending_newline: true, printed_text: false, ..before }));
        }
    }

    fn add_label(&mut self, id: &str, label: &str)
        ensures
            final(self)@ == (Turn {
                active_tools: put(old(self)@.active_tools, id@, label@),
                ..old(self)@
            }),
    {
        let ghost start = self@;
        assert(keys_of(self.active_tools@) =~= names_of(self@.active_tools));
        match place_of(&self.active_tools, id) {
            Some(i) => {
                self.active_tools.set(i, (copy(id), copy(label)));
            },
            None => {
                self.active_tools.push((copy(id), copy(label)));
            },
        }
        assert(self@.active_tools =~= put(start.active_tools, id@, label@));
        assert(self@ =~= (Turn { active_tools: self@.active_tools, ..start }));
    }

    fn start_tool(&mut self, event: &Json, now: u64)
        ensures
            final(self)@ == tool_started(old(self)@, event@, now),
    {
        self.show_reasoning(now);
        let name = event.text_or("toolName", "unknown");
        let label = tool_label(name, event.at("args"));
        if let Some(id) = event.text_at("toolCallId") {
            self.add_label(id, label.as_str());
        }
        self.work(cat3("Running ", label.as_str(), "…").as_str());
        if self.ui.interactive {
            if self.printed_text || self.pending_newline {
                self.write("\n");
                let ghost before = self@;
                self.pending_newline = false;
                assert(self@ =~= (Turn { pending_newline: false, ..before }));
            }
            if !same(name, "goal") {
                let line = self.ui.info(cat3("↳ ", label.as_str(), " …").as_str());
                self.show(
                    Effect::ToolStart(
                        copy(event.text_or("toolCallId", "")),
                        copy(name),
                        label_path(label.as_str()),
                        line,
                    ),
                );
            }
            self.show(Effect::Flush);
        } else {
            self.show(Effect::Notice(cat3("[tool: ", name, "]")));
        }
    }

    fn take_label(&mut self, event: &Json, name: &str) -> (label: String)
        ensures
            match call_index(old(self)@, event@) {
                Some(i) => label@ == old(self)@.active_tools[i].1 && final(self)@ == (Turn {
                    active_tools: old(self)@.active_tools.remove(i),
                    ..old(self)@
                }),
                None => label@ == safe_detail_of(name@) && final(self)@ == old(self)@,
            },
    {
        let ghost start = self@;
        assert(keys_of(self.active_tools@) =~= names_of(self@.active_tools));
        let place = match event.text_at("toolCallId") {
            Some(id) => place_of(&self.active_tools, id),
            None => None,
        };
        match place {
            Some(i) => {
                let (_, label) = self.active_tools.remove(i);
                assert(self@ =~= (Turn {
                    active_tools: start.active_tools.remove(i as int),
                    ..start
                }));
                label
            },
            None => safe_detail(name),
        }
    }

    fn end_tool(&mut self, event: &Json)
        ensures
            final(self)@ == tool_ended(old(self)@, event@),
    {
        let name = event.text_or("toolName", "tool");
        let failed = event.flagged("isError", true);
        let label = self.take_label(event, name);
        self.work("Working…");
        if same(name, "goal") {
            if !failed {
                self.show(Effect::Goal(event.at("result").at("details").copy()));
            }
        } else if self.ui.interactive {
            let outcome = if failed {
                "✗ failed"
            } else {
                "✓ done"
            };
            let mut line = self.ui.info(cat3(outcome, " · ", label.as_str()).as_str());
            let edited = same(name, "edit") && !failed;
            let mut diff: Option<String> = None;
            if edited {
                let result = event.at("result");
                if let Some(part) = result.at("details").text_at("diff") {
                    diff = Some(copy(part));
                }
                line.append(show_edit_diff(&self.ui, label.as_str(), result).as_str());
            }
            self.show(
                Effect::ToolEnd(
                    copy(event.text_or("toolCallId", "")),
                    copy(name),
                    label_path(label.as_str()),
                    failed,
                    diff,
                    line,
                ),
            );
            self.show(Effect::Flush);
        }
    }

    fn end_compaction(&mut self, event: &Json)
        ensures
            final(self)@ == compaction_ended(old(self)@, event@),
    {
        if let Some(message) = event.text_at("errorMessage") {
            let error = ChatError::new(ErrorSource::Compaction, message).display();
            if self.ui.interactive {
                self.write("\n");
                self.info(cat2("Warning: ", error.as_str()).as_str());
            } else {
                self.show(Effect::Notice(cat2("pi: ", error.as_str())));
            }
        } else if event.flagged("aborted", true) && self.ui.interactive && !self.interrupted {
            self.info("Context compaction cancelled; chat remains available.");
        }
    }

    fn retry(&mut self, event: &Json)
        ensures
            final(self)@ == retrying(old(self)@, event@),
    {
        let attempt = decimal_text(natural_of(event, "attempt"));
        let max = decimal_text(natural_of(event, "maxAttempts"));
        let delay = decimal_text(natural_of(event, "delayMs") / 1000);
        let mut what = cat5("Pi retry ", attempt.as_str(), "/", max.as_str(), " in ");
        what.append(delay.as_str());
        what.append("s…");
        self.work(what.as_str());
    }

    /// Whether the display has to say if it shows the message of `event`,
    /// which Pi has delivered, as a message of its own.
    pub fn delivers(&self, event: &Json) -> (r: bool)
        ensures
            r == user_delivery(self@, event@),
    {
        self.is_prompt() && event.says("type", "message_start") && event.at("message").says(
            "role",
            "user",
        )
    }

    fn note(&mut self, event: &Json, delivered: bool, now: u64)
        ensures
            final(self)@ == noted(old(self)@, event@, delivered, now),
    {
        let prompt = self.is_prompt();
        if prompt && event.says("type", "agent_start") {
            self.settled = false;
            assert(self@ =~= (Turn { settled: false, ..old(self)@ }));
        } else if self.delivers(event) {
            if delivered {
                self.show(Effect::Flush);
                let ghost before = self@;
                self.printed_text = false;
                self.pending_newline = false;
                assert(self@ =~= (Turn { printed_text: false, pending_newline: false, ..before }));
            }
        } else if prompt && event.says("type", "queue_update") {
            self.show(Effect::QueueUpdate(event.copy()));
            let ghost before = self@;
            let steering: usize = count_of(event.at("steering"));
            self.queued_count = steering.saturating_add(count_of(event.at("followUp")));
            assert(self@ =~= (Turn { queued_count: self.queued_count, ..before }));
        } else if prompt && event.says("type", "message_update") {
            self.stream(event.at("assistantMessageEvent"), now);
        } else if prompt && event.says("type", "message_end") && event.at("message").says(
            "role",
            "assistant",
        ) {
            self.end_message(event.at("message"), now);
        } else if prompt && event.says("type", "tool_execution_start") {
            self.start_tool(event, now);
        } else if prompt && event.says("type", "tool_execution_end") {
            self.end_tool(event);
        } else if prompt && event.says("type", "compaction_start") {
            self.work("Compacting context…");
        } else if event.says("type", "compaction_end") && !event.says("reason", "overflow") {
            self.end_compaction(event);
        } else if prompt && (event.says("type", "auto_retry_start") || event.says(
            "type",
            "summarization_retry_scheduled",
        )) {
            self.retry(event);
        } else if prompt && event.says("type", "summarization_retry_attempt_start") {
            self.work("Retrying context summary…");
        } else if event.says("type", "extension_ui_request") || event.says(
            "type",
            "extension_error",
        ) {
            self.show(Effect::Dialog(event.copy()));
            self.show(Effect::Flush);
        }
    }

    /// What an event makes of the exchange, and whether it ends it.
    pub fn on_event(&mut self, event: &Json, delivered: bool, now: u64) -> (end: Option<
        Result<bool, ChatError>,
    >)
        ensures
            (final(self)@, ending_view(end)) == stepped(old(self)@, event@, delivered, now),
            old(self)@.wf() ==> final(self)@.wf(),
    {
        let ghost start = self@;
        let end = self.step(event, delivered, now);
        proof {
            if start.wf() {
                law_identifiers_stay_distinct(start, event@, delivered, now);
            }
        }
        end
    }

    fn step(&mut self, event: &Json, delivered: bool, now: u64) -> (end: Option<
        Result<bool, ChatError>,
    >)
        ensures
            (final(self)@, ending_view(end)) == stepped(old(self)@, event@, delivered, now),
    {
        if let Err(error) = check_record(event) {
            self.preserve();
            return Some(Err(error));
        }
        self.run.observe(event);
        assert(self@ =~= (Turn { run: observed(old(self)@.run, event@), ..old(self)@ }));
        if let Some(i) = self.answered_place(event) {
            self.acknowledge(event, i);
            return self.conclude();
        }
        if event.says("type", "response") {
            if event.text_at("id").is_some() && (Self::same_id(&self.clear_id, event)
                || Self::same_id(&self.abort_id, event)) && !event.flagged("success", true) {
                return Some(Err(protocol("Pi rejected cancellation; run state is uncertain")));
            }
            self.note_cancellation(event);
            if event.says("id", self.id.as_str()) {
                return self.respond(event);
            }
            return self.conclude();
        }
        if self.is_prompt() && event.says("type", "agent_settled") {
            self.show_reasoning(now);
            let ghost before = self@;
            self.settled = true;
            assert(self@ =~= (Turn { settled: true, ..before }));
            if self.is_ready() {
                return self.finish();
            }
            return self.conclude();
        }
        self.note(event, delivered, now);
        self.conclude()
    }

    /// Whether the terminal is asked for keys: while a prompt works and was
    /// not interrupted.
    pub fn wants_input(&self) -> (r: bool)
        ensures
            r == listening(self@),
    {
        self.is_prompt() && !self.interrupted && !(self.settled && self.pending_queued.len() == 0
            && self.queued_count == 0)
    }

    /// Stop the prompt: what to send, in order, on two lines.
    pub fn interrupt(&mut self) -> (out: String)
        ensures
            final(self)@ == interrupted_turn(old(self)@),
            out@ == interruption(old(self)@.id),
            old(self)@.wf() ==> final(self)@.wf(),
    {
        self.interrupted = true;
        let clear = cat2(self.id.as_str(), "-clear");
        let abort = cat2(self.id.as_str(), "-abort");
        let first = encode(&identified(clear.as_str(), "clear_queue"));
        let second = encode(&identified(abort.as_str(), "abort"));
        self.clear_id = Some(clear);
        self.abort_id = Some(abort);
        assert(self@ =~= interrupted_turn(old(self)@));
        cat4(first.as_str(), "\n", second.as_str(), "\n")
    }

    /// The error, once an interruption has taken too long.
    pub fn overdue(&mut self, now: u64) -> (r: Option<ChatError>)
        ensures
            final(self)@ == timed(old(self)@, now),
            match r {
                Some(error) => late(timed(old(self)@, now), now) && error@ == error_of(
                    ErrorSource::Transport,
                    "Pi connection failed: "@
                        + "Cancellation did not settle within 10 seconds; outcome is uncertain"@,
                ),
                None => !late(timed(old(self)@, now), now),
            },
            old(self)@.wf() ==> final(self)@.wf(),
    {
        if !self.interrupted {
            return None;
        }
        let start: u64 = match self.cancellation_started {
            Some(start) => start,
            None => now,
        };
        self.cancellation_started = Some(start);
        assert(self@ =~= timed(old(self)@, now));
        if now > start && now - start > CANCELLATION_LIMIT {
            Some(transport("Cancellation did not settle within 10 seconds; outcome is uncertain"))
        } else {
            None
        }
    }

    /// Receiving failed with `error`.
    pub fn on_failure(&mut self, error: ChatError) -> (end: Result<bool, ChatError>)
        ensures
            final(self)@ == preserved(old(self)@),
            end matches Err(e) && e@ == error@,
            old(self)@.wf() ==> final(self)@.wf(),
    {
        proof {
            lemma_preserved_distinct(self@);
        }
        self.preserve();
        Err(error)
    }

    /// Pi closed the stream.
    pub fn on_closed(&mut self) -> (end: Result<bool, ChatError>)
        ensures
            final(self)@ == preserved(old(self)@),
            end matches Err(e) && e@ == error_of(
                ErrorSource::Transport,
                "Pi connection failed: "@ + "stream ended before the command completed"@,
            ),
            old(self)@.wf() ==> final(self)@.wf(),
    {
        proof {
            lemma_preserved_distinct(self@);
        }
        self.preserve();
        Err(transport("stream ended before the command completed"))
    }

    /// What becomes of a message that was submitted while Pi works.
    pub fn submit(&mut self, submission: DraftSubmission) -> (r: Submission)
        requires
            old(self)@.next_queue_id < u64::MAX,
        ensures
            (final(self)@, r@) == submitted(old(self)@, submission@),
            old(self)@.wf() ==> final(self)@.wf(),
    {
        if !self.accepted {
            return Submission::Hold(submission);
        }
        let waiting: usize = self.pending_queued.len();
        if waiting.saturating_add(self.queued_count) >= MAX_QUEUED {
            return Submission::Reject(submission, copy("Too many pending queue requests"));
        }
        self.next_queue_id = self.next_queue_id + 1;
        assert(self@ =~= (Turn {
            next_queue_id: (old(self)@.next_queue_id + 1) as u64,
            ..old(self)@
        }));
        let number = decimal_text(self.next_queue_id);
        let id = cat3(self.id.as_str(), "-queued-", number.as_str());
        let behavior = match submission.mode {
            QueueMode::Steer => "steer",
            QueueMode::FollowUp => "followUp",
        };
        let mut parts: Vec<(String, Json)> = Vec::new();
        assert(crate::json::fields_view(parts@) =~= Seq::empty());
        add_field(&mut parts, "id", text(id.as_str()));
        add_field(&mut parts, "type", text("prompt"));
        add_field(&mut parts, "message", text(submission.text.as_str()));
        add_field(&mut parts, "streamingBehavior", text(behavior));
        let command = object(parts);
        assert(command@ == queue_command(id@, submission@)) by {
            assert(command@->Object_0 =~= queue_command(id@, submission@)->Object_0);
        }
        match write_command(&command, &submission.images) {
            Some(line) => Submission::Send(id, line, submission),
            None => Submission::Hold(submission),
        }
    }

    /// The submission was sent under the identifier `id`.
    pub fn sent(&mut self, id: String, submission: DraftSubmission)
        ensures
            final(self)@ == (Turn {
                pending_queued: put(old(self)@.pending_queued, id@, submission@),
                ..old(self)@
            }),
            old(self)@.wf() ==> final(self)@.wf(),
    {
        let ghost start = self@;
        assert(keys_of(self.pending_queued@) =~= names_of(self@.pending_queued));
        proof {
            if start.wf() {
                lemma_put_distinct(start.pending_queued, id@, submission@);
            }
        }
        let ghost (name, draft) = (id@, submission@);
        match place_of(&self.pending_queued, id.as_str()) {
            Some(i) => {
                self.pending_queued.set(i, (id, submission));
            },
            None => {
                self.pending_queued.push((id, submission));
            },
        }
        assert(self@.pending_queued =~= put(start.pending_queued, name, draft));
        assert(self@ =~= (Turn { pending_queued: self@.pending_queued, ..start }));
    }

    /// Sending the submission failed: it is handed back for review.
    pub fn unsent(&mut self, submission: DraftSubmission)
        ensures
            final(self)@ == old(self)@.show(
                Show::RejectedQueue(
                    submission@,
                    "Delivery uncertain: sending failed; check history before resending"@,
                ),
            ),
            old(self)@.wf() ==> final(self)@.wf(),
    {
        self.show(
            Effect::RejectedQueue(
                submission,
                copy("Delivery uncertain: sending failed; check history before resending"),
            ),
        );
    }
}

// ---------------------------------------------------------------------------
// Laws
// ---------------------------------------------------------------------------

proof fn lemma_finished(t: Turn)
    ensures
        finished(t).0 == (Turn { shown: finished(t).0.shown, ..t }),
        finished(t).1 matches Some(Ending::Done(stopped)) ==> stopped == t.interrupted,
{
}

/// A prompt is done only when it was accepted, the agent has settled, nothing
/// waits here or in Pi, and both parts of an interruption were acknowledged;
/// and the result says whether it was interrupted.
pub proof fn law_prompt_ends_only_when_settled(t: Turn, e: Tree, delivered: bool, now: u64)
    requires
        t.prompt(),
    ensures
        stepped(t, e, delivered, now).1 matches Some(Ending::Done(stopped)) ==> {
            let end = stepped(t, e, delivered, now).0;
            &&& end.accepted
            &&& end.settled
            &&& end.pending_queued.len() == 0
            &&& end.queued_count == 0
            &&& end.interrupted ==> end.abort_done && end.clear_done
            &&& stopped == end.interrupted
        },
{
    lemma_noted_keeps(Turn { run: observed(t.run, e), ..t }, e, delivered, now);
    let u = Turn { run: observed(t.run, e), ..t };
    lemma_finished(cancellation_noted(u, e));
    lemma_finished(Turn { accepted: true, ..cancellation_noted(u, e) });
    lemma_finished(Turn { settled: true, ..reasoned(u, now) });
    lemma_finished(noted(u, e, delivered, now));
    if answered(u, e) is Some {
        lemma_finished(acknowledged(u, e, answered(u, e)->0));
    }
}

proof fn lemma_blocks_keep(t: Turn, blocks: Seq<Tree>)
    ensures
        blocks_shown(t, blocks) == (Turn {
            shown: blocks_shown(t, blocks).shown,
            printed_text: blocks_shown(t, blocks).printed_text,
            pending_newline: blocks_shown(t, blocks).pending_newline,
            ..t
        }),
    decreases blocks.len(),
{
    if blocks.len() > 0 {
        lemma_blocks_keep(t, blocks.drop_last());
    }
}

/// What decides about the queue and an interruption is the same.
spec fn keeps(t: Turn, u: Turn) -> bool {
    &&& u.pending_queued == t.pending_queued
    &&& u.next_queue_id == t.next_queue_id
    &&& u.interrupted == t.interrupted
    &&& u.id == t.id
    &&& u.kind == t.kind
}

proof fn lemma_streamed_keeps(t: Turn, update: Tree, now: u64)
    ensures
        keeps(t, streamed(t, update, now)),
{
}

proof fn lemma_message_ended_keeps(t: Turn, message: Tree, now: u64)
    ensures
        keeps(t, message_ended(t, message, now)),
{
    let content = message.at("content"@);
    if content.list() is Some {
        lemma_blocks_keep(reasoned(t, now), content.list()->0);
    }
}

proof fn lemma_tools_keep(t: Turn, e: Tree, now: u64)
    ensures
        keeps(t, tool_started(t, e, now)),
        keeps(t, tool_ended(t, e)),
{
}

proof fn lemma_noted_keeps(t: Turn, e: Tree, delivered: bool, now: u64)
    ensures
        keeps(t, noted(t, e, delivered, now)),
{
    lemma_streamed_keeps(t, e.at("assistantMessageEvent"@), now);
    lemma_message_ended_keeps(t, e.at("message"@), now);
    lemma_tools_keep(t, e, now);
    assert(keeps(t, compaction_ended(t, e)));
    assert(keeps(t, retrying(t, e)));
}

proof fn lemma_newest(pending: Seq<(Seq<char>, DraftView)>)
    requires
        pending.len() > 0,
    ensures
        0 <= newest(pending) < pending.len(),
    decreases pending.len(),
{
    if pending.len() > 1 {
        lemma_newest(pending.drop_last());
    }
}

proof fn lemma_preserved_distinct(t: Turn)
    ensures
        t.wf() ==> preserved(t).wf(),
{
    if t.wf() && t.pending_queued.len() > 0 {
        lemma_newest(t.pending_queued);
        lemma_remove_distinct(t.pending_queued, newest(t.pending_queued));
    }
}

proof fn lemma_noted_distinct(t: Turn, e: Tree, delivered: bool, now: u64)
    requires
        t.wf(),
    ensures
        noted(t, e, delivered, now).wf(),
{
    lemma_noted_keeps(t, e, delivered, now);
    let content = e.at("message"@).at("content"@);
    if content.list() is Some {
        lemma_blocks_keep(reasoned(t, now), content.list()->0);
    }
    if e.text_at("toolCallId"@) is Some {
        let id = e.text_at("toolCallId"@)->0;
        let label = tool_label_of(e.text_or("toolName"@, "unknown"@), e.at("args"@));
        lemma_put_distinct(t.active_tools, id, label);
        lemma_name_index(t.active_tools, id);
        if call_index(t, e) is Some {
            lemma_remove_distinct(t.active_tools, call_index(t, e)->0);
        }
    }
    assert(streamed(t, e.at("assistantMessageEvent"@), now).active_tools == t.active_tools);
    assert(message_ended(t, e.at("message"@), now).active_tools == t.active_tools);
    assert(tool_started(t, e, now).wf());
    assert(tool_ended(t, e).wf());
}

/// The tool calls and the submissions are the same.
spec fn same_lists(t: Turn, u: Turn) -> bool {
    u.active_tools == t.active_tools && u.pending_queued == t.pending_queued
}

proof fn lemma_concluded_lists(t: Turn)
    ensures
        same_lists(t, concluded(t).0),
        same_lists(t, finished(t).0),
{
    lemma_finished(t);
}

proof fn lemma_responded_lists(t: Turn, e: Tree)
    ensures
        same_lists(t, cancellation_noted(t, e)),
        same_lists(t, responded(t, e).0),
{
    lemma_concluded_lists(Turn { accepted: true, ..t });
}

/// The tool calls and the submissions after an event that breaks nothing.
proof fn lemma_stepped_lists(t: Turn, e: Tree, delivered: bool, now: u64)
    requires
        record_problem(e) is None,
    ensures
        ({
            let u = Turn { run: observed(t.run, e), ..t };
            let v = stepped(t, e, delivered, now).0;
            match answered(u, e) {
                Some(i) => v.active_tools == t.active_tools && v.pending_queued
                    == t.pending_queued.remove(i),
                None => same_lists(t, v) || same_lists(noted(u, e, delivered, now), v),
            }
        }),
{
    let u = Turn { run: observed(t.run, e), ..t };
    if answered(u, e) is Some {
        lemma_concluded_lists(acknowledged(u, e, answered(u, e)->0));
    } else if e.says("type"@, "response"@) {
        lemma_responded_lists(u, e);
        lemma_responded_lists(cancellation_noted(u, e), e);
        lemma_concluded_lists(cancellation_noted(u, e));
    } else if u.prompt() && e.says("type"@, "agent_settled"@) {
        lemma_concluded_lists(Turn { settled: true, ..reasoned(u, now) });
    } else {
        lemma_concluded_lists(noted(u, e, delivered, now));
    }
}

/// Whatever comes, no two running tool calls share an identifier, and no two
/// submissions without an answer.
pub proof fn law_identifiers_stay_distinct(t: Turn, e: Tree, delivered: bool, now: u64)
    requires
        t.wf(),
    ensures
        stepped(t, e, delivered, now).0.wf(),
        preserved(t).wf(),
        forall|id: Seq<char>, d: DraftView| distinct(#[trigger] put(t.pending_queued, id, d)),
{
    let u = Turn { run: observed(t.run, e), ..t };
    let v = stepped(t, e, delivered, now).0;
    assert(v.wf()) by {
        assert(preserved(t).wf()) by {
            lemma_preserved_distinct(t);
        }
        assert(noted(u, e, delivered, now).wf()) by {
            lemma_noted_distinct(u, e, delivered, now);
        }
        assert(answered(u, e) is Some ==> distinct(
            t.pending_queued.remove(answered(u, e)->0),
        )) by {
            if answered(u, e) is Some {
                lemma_name_index(t.pending_queued, e.text_at("id"@)->0);
                lemma_remove_distinct(t.pending_queued, answered(u, e)->0);
            }
        }
        if record_problem(e) is None {
            lemma_stepped_lists(t, e, delivered, now);
        }
    }
    lemma_preserved_distinct(t);
    assert forall|id: Seq<char>, d: DraftView| distinct(
        #[trigger] put(t.pending_queued, id, d),
    ) by {
        lemma_put_distinct(t.pending_queued, id, d);
    }
}

/// An event never sends anything again: no submission is added, none gets a
/// new identifier, and at most one leaves, answered or handed back.
pub proof fn law_events_resend_nothing(t: Turn, e: Tree, delivered: bool, now: u64)
    ensures
        stepped(t, e, delivered, now).0.next_queue_id == t.next_queue_id,
        stepped(t, e, delivered, now).0.pending_queued == t.pending_queued || exists|i: int|
            stepped(t, e, delivered, now).0.pending_queued == #[trigger] t.pending_queued.remove(i),
{
    let u = Turn { run: observed(t.run, e), ..t };
    lemma_noted_keeps(u, e, delivered, now);
    lemma_finished(cancellation_noted(u, e));
    lemma_finished(Turn { accepted: true, ..cancellation_noted(u, e) });
    lemma_finished(Turn { settled: true, ..reasoned(u, now) });
    lemma_finished(noted(u, e, delivered, now));
    if answered(u, e) is Some {
        lemma_finished(acknowledged(u, e, answered(u, e)->0));
    }
}

/// A record that breaks the protocol ends the exchange, and asks for a new
/// connection.
pub proof fn law_broken_records_disconnect(t: Turn, e: Tree, delivered: bool, now: u64)
    requires
        record_problem(e) is Some,
    ensures
        stepped(t, e, delivered, now).1 matches Some(Ending::Failed(error)) && recovery_of(
            error.source,
        ) == RecoveryAction::Reconnect,
{
}

/// An interruption that was sent is drained before a rejected command is
/// reported: while an acknowledgement is missing, the rejection waits.
pub proof fn law_rejection_waits_for_cancellation(t: Turn, e: Tree, delivered: bool, now: u64)
    requires
        t.interrupted,
        record_problem(e) is None,
        e.says("type"@, "response"@),
        e.says("id"@, t.id),
        e.flagged("success"@, false),
        answered(t, e) is None,
        t.clear_id != Some(t.id),
        t.abort_id != Some(t.id),
        !(t.abort_done && t.clear_done),
    ensures
        stepped(t, e, delivered, now).1 is None,
        stepped(t, e, delivered, now).0.rejection == Some(rejected_of(e, t.kind, t.id)),
{
    let u = Turn { run: observed(t.run, e), ..t };
    assert(answered(u, e) is None);
}

/// A turn that has settled ends with the last answer to its submissions,
/// however late that comes.
pub proof fn law_late_answers_end_the_turn(t: Turn, e: Tree, delivered: bool, now: u64)
    requires
        t.prompt(),
        t.accepted,
        t.settled,
        !t.interrupted,
        t.queued_count == 0,
        t.pending_queued.len() == 1,
        record_problem(e) is None,
        answered(t, e) == Some(0int),
    ensures
        stepped(t, e, delivered, now).1 is Some,
        stepped(t, e, delivered, now).0.pending_queued.len() == 0,
{
    let u = Turn { run: observed(t.run, e), ..t };
    assert(answered(u, e) == Some(0int));
    let v = acknowledged(u, e, 0);
    assert(v.pending_queued =~= Seq::empty());
    lemma_finished(v);
}

/// At most 16 messages wait: one more is handed back at once.
pub proof fn law_queue_is_bounded(t: Turn, d: DraftView)
    requires
        t.accepted,
    ensures
        t.pending_queued.len() + t.queued_count >= MAX_QUEUED ==> submitted(t, d).1 is Reject,
        submitted(t, d).1 is Send ==> t.pending_queued.len() + 1 + t.queued_count <= MAX_QUEUED,
{
}

}
