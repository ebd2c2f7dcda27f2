//! Compacting the context on request.
use crate::error::{error_of, protocol, transport, ChatError, ErrorCategory, ErrorSource, ErrorView};
use crate::exchange::{identified, identified_of, CANCELLATION_LIMIT};
use crate::json::{add_field, encode, object, printed, text, Json, Tree};
use crate::text::{cat2, copy};
use crate::wire::{check_record, record_problem, rejected, rejected_of};
use vstd::prelude::*;

verus! {

/// The command that compacts the context.
pub open spec fn compact_command_of(instructions: Option<Seq<char>>) -> Tree {
    Tree::Object(
        match instructions {
            Some(words) => seq![
                ("type"@, Tree::Text("compact"@)),
                ("customInstructions"@, Tree::Text(words)),
            ],
            None => seq![("type"@, Tree::Text("compact"@))],
        },
    )
}

pub fn compact_command(instructions: Option<&str>) -> (r: Json)
    ensures
        r@ == compact_command_of(
            match instructions {
                Some(words) => Some(words@),
                None => None,
            },
        ),
{
    let mut parts: Vec<(String, Json)> = Vec::new();
    assert(crate::json::fields_view(parts@) =~= Seq::empty());
    add_field(&mut parts, "type", text("compact"));
    match instructions {
        Some(words) => {
            add_field(&mut parts, "customInstructions", text(words));
        },
        None => {},
    }
    let command = object(parts);
    assert(command@->Object_0 =~= compact_command_of(
        match instructions {
            Some(words) => Some(words@),
            None => None,
        },
    )->Object_0);
    command
}

/// A compaction that was asked for.
pub struct Compaction {
    pub id: String,
    /// The command that stops it, once it was sent.
    pub abort_id: Option<String>,
    pub abort_done: bool,
    pub stopped: Option<u64>,
    /// Pi's answer.
    pub outcome: Option<Result<Json, ChatError>>,
}

/// Pi's answer to a compaction.
pub enum OutcomeView {
    Done(Tree),
    Failed(ErrorView),
}

/// What a [`Compaction`] holds.
#[verifier::ext_equal]
pub struct CompactionView {
    pub id: Seq<char>,
    pub abort_id: Option<Seq<char>>,
    pub abort_done: bool,
    pub stopped: Option<u64>,
    pub outcome: Option<OutcomeView>,
}

pub open spec fn outcome_view(outcome: Option<Result<Json, ChatError>>) -> Option<OutcomeView> {
    match outcome {
        Some(Ok(data)) => Some(OutcomeView::Done(data@)),
        Some(Err(error)) => Some(OutcomeView::Failed(error@)),
        None => None,
    }
}

impl View for Compaction {
    type V = CompactionView;

    open spec fn view(&self) -> CompactionView {
        CompactionView {
            id: self.id@,
            abort_id: crate::error::text_view(self.abort_id),
            abort_done: self.abort_done,
            stopped: self.stopped,
            outcome: outcome_view(self.outcome),
        }
    }
}

/// The error for a compaction that was stopped.
pub open spec fn stopped_error() -> ErrorView {
    ErrorView {
        category: ErrorCategory::Cancelled,
        ..error_of(ErrorSource::Command, "Cancelled "@ + "compact"@)
    }
}

impl CompactionView {
    pub open spec fn begun(id: Seq<char>) -> CompactionView {
        CompactionView { id, abort_id: None, abort_done: false, stopped: None, outcome: None }
    }

    /// Where it stands: over once Pi has answered and an order to stop was
    /// acknowledged too.
    pub open spec fn ended(self) -> Option<OutcomeView> {
        if self.abort_id is Some && !self.abort_done {
            None
        } else {
            match self.outcome {
                Some(OutcomeView::Failed(error)) => if self.abort_id is Some {
                    Some(OutcomeView::Failed(stopped_error()))
                } else {
                    Some(OutcomeView::Failed(error))
                },
                outcome => outcome,
            }
        }
    }

    /// The compaction once its end, if it has come, was handed out: the answer
    /// is handed out once.
    pub open spec fn closed(self) -> CompactionView {
        if self.ended() is Some {
            CompactionView { outcome: None, ..self }
        } else {
            self
        }
    }

    /// What a record means: the compaction, how it ended, and whether the
    /// record is for someone else.
    pub open spec fn received(self, e: Tree) -> (CompactionView, Option<OutcomeView>, bool) {
        match record_problem(e) {
            Some(message) => (
                self,
                Some(OutcomeView::Failed(error_of(ErrorSource::Protocol, message))),
                false,
            ),
            None => if !e.says("type"@, "response"@) {
                (self, None, true)
            } else if e.says("id"@, self.id) {
                let c = CompactionView {
                    outcome: Some(
                        if e.flagged("success"@, true) {
                            OutcomeView::Done(e.at("data"@))
                        } else {
                            OutcomeView::Failed(rejected_of(e, "compact"@, self.id))
                        },
                    ),
                    ..self
                };
                (c.closed(), c.ended(), false)
            } else if e.text_at("id"@) is Some && e.text_at("id"@) == self.abort_id {
                if e.flagged("success"@, true) {
                    let c = CompactionView { abort_done: true, ..self };
                    (c.closed(), c.ended(), false)
                } else {
                    (
                        self,
                        Some(
                            OutcomeView::Failed(
                                error_of(
                                    ErrorSource::Protocol,
                                    "Pi rejected cancellation; run state is uncertain"@,
                                ),
                            ),
                        ),
                        false,
                    )
                }
            } else {
                (self, None, true)
            },
        }
    }
}

impl Compaction {
    /// The compaction with the command `id` was asked for.
    pub fn new(id: &str) -> (r: Self)
        ensures
            r@ == CompactionView::begun(id@),
    {
        Compaction {
            id: copy(id),
            abort_id: None,
            abort_done: false,
            stopped: None,
            outcome: None,
        }
    }

    /// Stop it: what to send. It is sent once, and only while Pi has not
    /// answered.
    pub fn stop(&mut self, now: u64) -> (r: Option<String>)
        ensures
            if old(self)@.abort_id is None && old(self)@.outcome is None {
                r is Some && r->0@ == printed(identified_of(old(self)@.id + "-abort"@, "abort"@))
                    + "\n"@ && final(self)@ == (CompactionView {
                    abort_id: Some(old(self)@.id + "-abort"@),
                    stopped: Some(now),
                    ..old(self)@
                })
            } else {
                r is None && final(self)@ == old(self)@
            },
    {
        if self.abort_id.is_some() || self.outcome.is_some() {
            return None;
        }
        let abort = cat2(self.id.as_str(), "-abort");
        let line = encode(&identified(abort.as_str(), "abort"));
        self.abort_id = Some(abort);
        self.stopped = Some(now);
        assert(self@ =~= (CompactionView {
            abort_id: Some(old(self)@.id + "-abort"@),
            stopped: Some(now),
            ..old(self)@
        }));
        Some(cat2(line.as_str(), "\n"))
    }

    /// The error, once stopping has taken too long.
    pub fn overdue(&self, now: u64) -> (r: Option<ChatError>)
        ensures
            match r {
                Some(error) => self@.stopped is Some && now - self@.stopped->0
                    > CANCELLATION_LIMIT && error@ == error_of(
                    ErrorSource::Transport,
                    "Pi connection failed: "@
                        + "Cancellation did not settle within 10 seconds; outcome is uncertain"@,
                ),
                None => self@.stopped is None || now - self@.stopped->0 <= CANCELLATION_LIMIT,
            },
    {
        match self.stopped {
            Some(start) => if now > start && now - start > CANCELLATION_LIMIT {
                Some(
                    transport(
                        "Cancellation did not settle within 10 seconds; outcome is uncertain",
                    ),
                )
            } else {
                None
            },
            None => None,
        }
    }

    fn end(&mut self) -> (r: Option<Result<Json, ChatError>>)
        ensures
            outcome_view(r) == old(self)@.ended(),
            final(self)@ == old(self)@.closed(),
    {
        if self.abort_id.is_some() && !self.abort_done {
            return None;
        }
        let outcome = self.outcome.take();
        assert(self@ =~= (CompactionView { outcome: None, ..old(self)@ }));
        match outcome {
            Some(Ok(data)) => Some(Ok(data)),
            Some(Err(error)) => if self.abort_id.is_some() {
                Some(Err(ChatError::cancelled("compact")))
            } else {
                Some(Err(error))
            },
            None => None,
        }
    }

    /// What a record means: how the compaction ended, and whether the record
    /// is for someone else.
    pub fn on_record(&mut self, event: &Json) -> (r: (Option<Result<Json, ChatError>>, bool))
        ensures
            ({
                let (c, end, other) = old(self)@.received(event@);
                &&& outcome_view(r.0) == end
                &&& r.1 == other
                &&& final(self)@ == c
            }),
    {
        if let Err(error) = check_record(event) {
            return (Some(Err(error)), false);
        }
        if !event.says("type", "response") {
            return (None, true);
        }
        if event.says("id", self.id.as_str()) {
            let ghost before = self@;
            self.outcome = Some(
                if event.flagged("success", true) {
                    Ok(event.at("data").copy())
                } else {
                    Err(rejected(event, "compact", self.id.as_str()))
                },
            );
            assert(self@ =~= (CompactionView { outcome: self@.outcome, ..before }));
            return (self.end(), false);
        }
        let stops = match &self.abort_id {
            Some(id) => event.says("id", id.as_str()),
            None => false,
        };
        if !stops {
            return (None, true);
        }
        if !event.flagged("success", true) {
            return (
                Some(Err(protocol("Pi rejected cancellation; run state is uncertain"))),
                false,
            );
        }
        self.abort_done = true;
        assert(self@ =~= (CompactionView { abort_done: true, ..old(self)@ }));
        (self.end(), false)
    }
}

// ---------------------------------------------------------------------------
// Laws
// ---------------------------------------------------------------------------

/// A compaction that was stopped is over only once Pi has acknowledged that,
/// whatever it answers before.
pub proof fn law_stopping_waits_for_its_acknowledgement(c: CompactionView, e: Tree)
    requires
        c.abort_id is Some,
        !c.abort_done,
        record_problem(e) is None,
        e.text_at("id"@) != c.abort_id,
    ensures
        c.received(e).1 is None,
{
}

/// What Pi turned down because it was stopped is a cancellation, after which
/// the connection is kept.
pub proof fn law_a_stopped_compaction_keeps_the_connection(c: CompactionView)
    requires
        c.abort_id is Some,
        c.abort_done,
        c.outcome is Some,
        c.outcome->0 is Failed,
    ensures
        c.ended() matches Some(OutcomeView::Failed(error)) && error.category
            == ErrorCategory::Cancelled && crate::error::recovery_of(error.source)
            == crate::error::RecoveryAction::KeepChatting,
{
}

/// A compaction that is not stopped ends with its own response: with its data
/// where it succeeded, and else with what Pi objected to.
pub proof fn law_compactions_end_with_their_response(c: CompactionView, e: Tree)
    requires
        c.abort_id is None,
        record_problem(e) is None,
        e.says("type"@, "response"@),
        e.says("id"@, c.id),
    ensures
        e.flagged("success"@, true) ==> c.received(e).1 == Some(OutcomeView::Done(e.at("data"@))),
        !e.flagged("success"@, true) ==> c.received(e).1 == Some(
            OutcomeView::Failed(rejected_of(e, "compact"@, c.id)),
        ),
        !c.received(e).2,
{
}

/// Of a compaction that is stopped the response and the acknowledgement may
/// come in either order: the outcome is the same, and it comes with the second.
pub proof fn law_either_order_ends_a_stopped_compaction(
    c: CompactionView,
    result: Tree,
    acknowledgement: Tree,
)
    requires
        c.abort_id is Some,
        c.abort_id != Some(c.id),
        !c.abort_done,
        c.outcome is None,
        record_problem(result) is None,
        record_problem(acknowledgement) is None,
        result.says("type"@, "response"@),
        result.says("id"@, c.id),
        acknowledgement.says("type"@, "response"@),
        acknowledgement.text_at("id"@) == c.abort_id,
        acknowledgement.flagged("success"@, true),
    ensures
        c.received(result).1 is None,
        c.received(acknowledgement).1 is None,
        c.received(result).0.received(acknowledgement).1 == c.received(
            acknowledgement,
        ).0.received(result).1,
        result.flagged("success"@, true) ==> c.received(result).0.received(acknowledgement).1
            == Some(OutcomeView::Done(result.at("data"@))),
        !result.flagged("success"@, true) ==> c.received(result).0.received(acknowledgement).1
            == Some(OutcomeView::Failed(stopped_error())),
{
}

/// What belongs to nobody here is handed on, and changes nothing.
pub proof fn law_other_records_are_handed_on(c: CompactionView, e: Tree)
    requires
        record_problem(e) is None,
        !e.says("type"@, "response"@),
    ensures
        c.received(e) == (c, None::<OutcomeView>, true),
{
}

/// Instructions are handed to Pi as they were given.
pub proof fn law_instructions_are_sent(words: Seq<char>)
    ensures
        compact_command_of(Some(words)).says("type"@, "compact"@),
        compact_command_of(Some(words)).says("customInstructions"@, words),
        compact_command_of(None).says("type"@, "compact"@),
        compact_command_of(None).text_at("customInstructions"@) is None,
{
    reveal_strlit("type");
    reveal_strlit("customInstructions");
    assert("type"@.len() == 4 && "customInstructions"@.len() == 18);
    reveal_with_fuel(crate::json::entry, 3);
}

}
