//! Session-level outcome, not a sticky record of whether any attempt failed.
use crate::error::{error_of, ChatError, ErrorSource, ErrorView};
use crate::json::{Json, Tree};
use vstd::prelude::*;

verus! {

/// The errors that stand against the run so far.
pub struct RunState {
    pub assistant_error: Option<ChatError>,
    pub compaction_error: Option<ChatError>,
}

/// What a [`RunState`] holds.
#[verifier::ext_equal]
pub struct RunView {
    pub assistant_error: Option<ErrorView>,
    pub compaction_error: Option<ErrorView>,
}

/// How a run ended.
#[derive(Debug)]
pub enum RunOutcome {
    Completed,
    Cancelled,
    Failed(ChatError),
}

/// What a [`RunOutcome`] says.
pub enum OutcomeView {
    Completed,
    Cancelled,
    Failed(ErrorView),
}

/// What an optional error holds.
pub open spec fn error_view(error: Option<ChatError>) -> Option<ErrorView> {
    match error {
        Some(error) => Some(error@),
        None => None,
    }
}

impl View for RunState {
    type V = RunView;

    open spec fn view(&self) -> RunView {
        RunView {
            assistant_error: error_view(self.assistant_error),
            compaction_error: error_view(self.compaction_error),
        }
    }
}

impl View for RunOutcome {
    type V = OutcomeView;

    open spec fn view(&self) -> OutcomeView {
        match *self {
            RunOutcome::Completed => OutcomeView::Completed,
            RunOutcome::Cancelled => OutcomeView::Cancelled,
            RunOutcome::Failed(error) => OutcomeView::Failed(error@),
        }
    }
}

/// A provider's stream broke off.
pub open spec fn stream_error(e: Tree) -> bool {
    e.says("type"@, "message_update"@) && e.at("assistantMessageEvent"@).says("type"@, "error"@)
}

/// An assistant message is complete.
pub open spec fn assistant_end(e: Tree) -> bool {
    e.says("type"@, "message_end"@) && e.at("message"@).says("role"@, "assistant"@)
}

/// The message did not end well.
pub open spec fn stopped_badly(message: Tree) -> bool {
    message.says("stopReason"@, "error"@) || message.says("stopReason"@, "aborted"@)
}

/// A compaction that the run depends on is over.
pub open spec fn overflow_end(e: Tree) -> bool {
    e.says("type"@, "compaction_end"@) && (e.says("reason"@, "overflow"@) || e.get("reason"@) is None)
}

/// The errors that stand after an event.
pub open spec fn observed(s: RunView, e: Tree) -> RunView {
    if stream_error(e) {
        RunView {
            assistant_error: Some(
                error_of(
                    ErrorSource::Assistant,
                    e.at("assistantMessageEvent"@).at("error"@).text_or(
                        "errorMessage"@,
                        "Provider stream failed"@,
                    ),
                ),
            ),
            ..s
        }
    } else if assistant_end(e) {
        let message = e.at("message"@);
        if stopped_badly(message) {
            RunView {
                assistant_error: Some(
                    error_of(
                        ErrorSource::Assistant,
                        message.text_or("errorMessage"@, "Pi response failed or was aborted"@),
                    ),
                ),
                ..s
            }
        } else {
            RunView { assistant_error: None, compaction_error: None }
        }
    } else if e.says("type"@, "auto_retry_end"@) {
        if e.flagged("success"@, true) {
            RunView { assistant_error: None, ..s }
        } else if e.flagged("success"@, false) {
            RunView {
                assistant_error: Some(
                    error_of(
                        ErrorSource::Assistant,
                        e.text_or("finalError"@, "Pi retries ended without success"@),
                    ),
                ),
                ..s
            }
        } else {
            s
        }
    } else if overflow_end(e) {
        if let Some(message) = e.text_at("errorMessage"@) {
            RunView { compaction_error: Some(error_of(ErrorSource::Compaction, message)), ..s }
        } else if e.flagged("aborted"@, true) {
            RunView {
                compaction_error: Some(
                    error_of(ErrorSource::Compaction, "Context compaction cancelled"@),
                ),
                ..s
            }
        } else if !(e.at("result"@) is Null) {
            RunView { compaction_error: None, ..s }
        } else {
            s
        }
    } else {
        s
    }
}

/// How a run ends in which these errors stand: a failed compaction comes
/// before a failed answer, and an interruption before both.
pub open spec fn outcome_of(s: RunView, interrupted: bool) -> OutcomeView {
    if interrupted {
        OutcomeView::Cancelled
    } else if let Some(error) = s.compaction_error {
        OutcomeView::Failed(error)
    } else if let Some(error) = s.assistant_error {
        OutcomeView::Failed(error)
    } else {
        OutcomeView::Completed
    }
}

impl RunState {
    /// No error stands.
    pub fn new() -> (r: Self)
        ensures
            r@ == (RunView { assistant_error: None, compaction_error: None }),
    {
        RunState { assistant_error: None, compaction_error: None }
    }

    pub fn observe(&mut self, event: &Json)
        ensures
            final(self)@ == observed(old(self)@, event@),
    {
        if event.says("type", "message_update") && event.at("assistantMessageEvent").says(
            "type",
            "error",
        ) {
            self.assistant_error = Some(
                ChatError::new(
                    ErrorSource::Assistant,
                    event.at("assistantMessageEvent").at("error").text_or(
                        "errorMessage",
                        "Provider stream failed",
                    ),
                ),
            );
        } else if event.says("type", "message_end") && event.at("message").says(
            "role",
            "assistant",
        ) {
            let message = event.at("message");
            if message.says("stopReason", "error") || message.says("stopReason", "aborted") {
                self.assistant_error = Some(
                    ChatError::new(
                        ErrorSource::Assistant,
                        message.text_or("errorMessage", "Pi response failed or was aborted"),
                    ),
                );
            } else {
                self.compaction_error = None;
                self.assistant_error = None;
            }
        } else if event.says("type", "auto_retry_end") {
            if event.flagged("success", true) {
                self.assistant_error = None;
            } else if event.flagged("success", false) {
                self.assistant_error = Some(
                    ChatError::new(
                        ErrorSource::Assistant,
                        event.text_or("finalError", "Pi retries ended without success"),
                    ),
                );
            }
        } else if event.says("type", "compaction_end") && (event.says("reason", "overflow")
            || event.get("reason").is_none()) {
            if let Some(message) = event.text_at("errorMessage") {
                self.compaction_error = Some(ChatError::new(ErrorSource::Compaction, message));
            } else if event.flagged("aborted", true) {
                self.compaction_error = Some(
                    ChatError::new(ErrorSource::Compaction, "Context compaction cancelled"),
                );
            } else if !event.at("result").is_null() {
                // An overflow error stays pending until the next attempt succeeds.
                self.compaction_error = None;
            }
        }
        assert(self@ =~= observed(old(self)@, event@));
    }

    /// How the run would end now.
    pub fn outcome(&self, interrupted: bool) -> (r: RunOutcome)
        ensures
            r@ == outcome_of(self@, interrupted),
    {
        let run = RunState {
            assistant_error: match &self.assistant_error {
                Some(error) => Some(error.copy()),
                None => None,
            },
            compaction_error: match &self.compaction_error {
                Some(error) => Some(error.copy()),
                None => None,
            },
        };
        run.finish(interrupted)
    }

    pub fn finish(self, interrupted: bool) -> (r: RunOutcome)
        ensures
            r@ == outcome_of(self@, interrupted),
    {
        if interrupted {
            return RunOutcome::Cancelled;
        }
        match self.compaction_error {
            Some(error) => RunOutcome::Failed(error),
            None => match self.assistant_error {
                Some(error) => RunOutcome::Failed(error),
                None => RunOutcome::Completed,
            },
        }
    }
}

// ---------------------------------------------------------------------------
// Laws
// ---------------------------------------------------------------------------

/// A later success replaces a failed attempt: after a message that ended well
/// no error stands, whatever came before.
pub proof fn law_success_clears_earlier_failures(s: RunView, e: Tree)
    requires
        assistant_end(e),
        !stopped_badly(e.at("message"@)),
    ensures
        outcome_of(observed(s, e), false) == OutcomeView::Completed,
{
    reveal_strlit("message_end");
    reveal_strlit("message_update");
    assert("message_end"@.len() != "message_update"@.len());
}

/// Progress is not success: an event that reports neither the end of a
/// message, of the retries or of a compaction, nor a broken stream, leaves
/// the outcome as it was.
pub proof fn law_progress_changes_nothing(s: RunView, e: Tree, interrupted: bool)
    requires
        !e.says("type"@, "message_update"@),
        !e.says("type"@, "message_end"@),
        !e.says("type"@, "auto_retry_end"@),
        !e.says("type"@, "compaction_end"@),
    ensures
        observed(s, e) == s,
        outcome_of(observed(s, e), interrupted) == outcome_of(s, interrupted),
{
}

/// An interruption is never reported as a failure.
pub proof fn law_interruption_cancels(s: RunView)
    ensures
        outcome_of(s, true) == OutcomeView::Cancelled,
{
}

/// A failed compaction that the run depends on stands until a compaction
/// that succeeds or a message that ends well.
pub proof fn law_compaction_failure_stands(s: RunView, e: Tree)
    requires
        s.compaction_error is Some,
        !(assistant_end(e) && !stopped_badly(e.at("message"@))),
        !overflow_end(e),
    ensures
        observed(s, e).compaction_error == s.compaction_error,
        outcome_of(observed(s, e), false) is Failed,
{
}

/// A message that ended badly fails the run with what was said of it, until
/// something ends well.
pub proof fn law_failures_are_reported(s: RunView, e: Tree, message: Seq<char>)
    requires
        e.says("type"@, "message_end"@),
        e.at("message"@).says("role"@, "assistant"@),
        e.at("message"@).says("stopReason"@, "error"@) || e.at("message"@).says(
            "stopReason"@,
            "aborted"@,
        ),
        e.at("message"@).says("errorMessage"@, message),
    ensures
        observed(s, e).assistant_error == Some(error_of(ErrorSource::Assistant, message)),
        s.compaction_error is None ==> outcome_of(observed(s, e), false) == OutcomeView::Failed(
            error_of(ErrorSource::Assistant, message),
        ),
{
    reveal_strlit("message_end");
    reveal_strlit("message_update");
    assert("message_end"@.len() == 11 && "message_update"@.len() == 14);
}

/// Retries that succeed clear the error, and those that end without success
/// leave the last one.
pub proof fn law_retries_decide(s: RunView, e: Tree, message: Seq<char>)
    requires
        e.says("type"@, "auto_retry_end"@),
    ensures
        e.flagged("success"@, true) ==> observed(s, e).assistant_error is None && observed(
            s,
            e,
        ).compaction_error == s.compaction_error,
        e.flagged("success"@, false) && e.says("finalError"@, message) ==> observed(
            s,
            e,
        ).assistant_error == Some(error_of(ErrorSource::Assistant, message)),
{
    reveal_strlit("auto_retry_end");
    reveal_strlit("message_end");
    reveal_strlit("message_update");
    assert("auto_retry_end"@.len() == 14 && "message_end"@.len() == 11 && "message_update"@.len()
        == 14);
    assert("auto_retry_end"@[0] == 'a' && "message_update"@[0] == 'm');
}

/// A run in which nothing stands against it is completed.
pub proof fn law_runs_without_errors_complete(s: RunView)
    ensures
        outcome_of(s, false) is Completed <==> s.assistant_error is None && s.compaction_error
            is None,
        s.compaction_error matches Some(error) ==> outcome_of(s, false) == OutcomeView::Failed(
            error,
        ),
{
}

}
