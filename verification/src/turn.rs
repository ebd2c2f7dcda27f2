//! What holds of a turn as a whole: what it writes, and when it ends.
use crate::exchange::{
    acknowledged, answered, blocks_shown, cancellation_noted, compaction_ended, concluded,
    finished, interrupted_turn, interruption, message_ended, late, listening, newest, noted,
    opened, preserved, reasoned, stamp, stepped, streamed, submitted, timed, tool_ended,
    tool_started, Ending, Show, SubmissionView, Turn,
};
use crate::error::{error_of, error_text, ErrorSource, ErrorView};
use crate::json::{entry, printed, Tree};
use crate::number::{decimal, lemma_decimal};
use crate::queue::{DraftView, QueueMode};
use crate::run::{observed, outcome_of, OutcomeView};
use crate::table::{lemma_name_index, name_index, names_of};
use crate::ui::{assistant_of, info_of};
use crate::wire::{record_problem, wire_of};
use vstd::prelude::*;

verus! {

/// The text that is written, in order.
pub open spec fn written(shown: Seq<Show>) -> Seq<char>
    decreases shown.len(),
{
    if shown.len() == 0 {
        Seq::empty()
    } else {
        match shown.last() {
            Show::Write(text) => written(shown.drop_last()) + text,
            _ => written(shown.drop_last()),
        }
    }
}

/// Texts one after the other.
pub open spec fn joined(texts: Seq<Seq<char>>) -> Seq<char>
    decreases texts.len(),
{
    if texts.len() == 0 {
        Seq::empty()
    } else {
        joined(texts.drop_last()) + texts.last()
    }
}

/// What stands before the first text of a message.
pub open spec fn lead(t: Turn) -> Seq<char> {
    (if t.pending_newline {
        seq!['\n']
    } else {
        Seq::empty()
    }) + (if t.ui.interactive {
        assistant_of(t.ui)
    } else {
        Seq::empty()
    })
}

/// A prompt that Pi works on.
pub open spec fn working(t: Turn) -> bool {
    t.prompt() && !t.settled && t.rejection is None
}

/// An event that brings a piece of text.
pub open spec fn brings(e: Tree, delta: Seq<char>) -> bool {
    &&& e.says("type"@, "message_update"@)
    &&& e.at("assistantMessageEvent"@).says("type"@, "text_delta"@)
    &&& e.at("assistantMessageEvent"@).says("delta"@, delta)
}

/// An event that ends a message of the assistant.
pub open spec fn ends_message(e: Tree) -> bool {
    &&& e.says("type"@, "message_end"@)
    &&& e.at("message"@).says("role"@, "assistant"@)
    &&& e.at("message"@).text_at("stopReason"@) is Some
}

/// The turn after an event.
#[verifier::opaque]
pub open spec fn next(t: Turn, e: Tree, now: u64) -> Turn {
    stepped(t, e, false, now).0
}

/// The turn after some events.
pub open spec fn after(t: Turn, events: Seq<Tree>, now: u64) -> Turn
    decreases events.len(),
{
    if events.len() == 0 {
        t
    } else {
        next(after(t, events.drop_last(), now), events.last(), now)
    }
}

proof fn lemma_written_push(shown: Seq<Show>, what: Show)
    ensures
        written(shown.push(what)) == (match what {
            Show::Write(text) => written(shown) + text,
            _ => written(shown),
        }),
{
    assert(shown.push(what).drop_last() =~= shown);
}

proof fn lemma_shows(t: Turn, what: Show)
    ensures
        written(t.show(what).shown) == (match what {
            Show::Write(text) => written(t.shown) + text,
            _ => written(t.shown),
        }),
{
    lemma_written_push(t.shown, what);
}

/// The names of the events differ.
proof fn lemma_names()
    ensures
        "message_end"@ != "response"@,
        "message_end"@ != "agent_settled"@,
        "message_end"@ != "agent_start"@,
        "message_end"@ != "message_start"@,
        "message_end"@ != "queue_update"@,
        "message_end"@ != "message_update"@,
        "message_update"@ != "response"@,
        "message_update"@ != "agent_settled"@,
        "message_update"@ != "agent_start"@,
        "message_update"@ != "message_start"@,
        "message_update"@ != "queue_update"@,
        "text_delta"@ != "thinking_start"@,
        "text_delta"@ != "thinking_delta"@,
        "text_delta"@ != "thinking_end"@,
        "text_delta"@ != "toolcall_start"@,
        "agent_settled"@ != "response"@,
        "message_update"@ != "message_end"@,
{
    reveal_strlit("message_end");
    reveal_strlit("response");
    reveal_strlit("agent_settled");
    reveal_strlit("agent_start");
    reveal_strlit("message_start");
    reveal_strlit("queue_update");
    reveal_strlit("message_update");
    reveal_strlit("text_delta");
    reveal_strlit("thinking_start");
    reveal_strlit("thinking_delta");
    reveal_strlit("thinking_end");
    reveal_strlit("toolcall_start");
    assert("message_end"@.len() == 11 && "message_end"@[0] == 'm' && "message_end"@[1] == 'e'
        && "message_end"@[8] == 'e');
    assert("response"@.len() == 8);
    assert("agent_settled"@.len() == 13 && "agent_settled"@[0] == 'a' && "agent_settled"@[1] == 'g'
        && "agent_settled"@[8] == 't');
    assert("agent_start"@.len() == 11 && "agent_start"@[0] == 'a' && "agent_start"@[1] == 'g'
        && "agent_start"@[8] == 'a');
    assert("message_start"@.len() == 13 && "message_start"@[0] == 'm' && "message_start"@[1] == 'e'
        && "message_start"@[8] == 's');
    assert("queue_update"@.len() == 12 && "queue_update"@[0] == 'q' && "queue_update"@[1] == 'u'
        && "queue_update"@[8] == 'd');
    assert("message_update"@.len() == 14 && "message_update"@[0] == 'm' && "message_update"@[1] == 'e'
        && "message_update"@[8] == 'u');
    assert("text_delta"@.len() == 10 && "text_delta"@[0] == 't' && "text_delta"@[1] == 'e'
        && "text_delta"@[8] == 't');
    assert("thinking_start"@.len() == 14 && "thinking_start"@[0] == 't' && "thinking_start"@[1] == 'h'
        && "thinking_start"@[8] == '_');
    assert("thinking_delta"@.len() == 14 && "thinking_delta"@[0] == 't' && "thinking_delta"@[1] == 'h'
        && "thinking_delta"@[8] == '_');
    assert("thinking_end"@.len() == 12 && "thinking_end"@[0] == 't' && "thinking_end"@[1] == 'h'
        && "thinking_end"@[8] == '_');
    assert("toolcall_start"@.len() == 14 && "toolcall_start"@[0] == 't' && "toolcall_start"@[1] == 'o'
        && "toolcall_start"@[8] == '_');
}

/// What an event of a message makes of a working turn.
proof fn lemma_message_step(t: Turn, e: Tree, now: u64)
    requires
        working(t),
    ensures
        e.says("type"@, "message_update"@) ==> stepped(t, e, false, now).0 == streamed(
            Turn { run: observed(t.run, e), ..t },
            e.at("assistantMessageEvent"@),
            now,
        ),
        ends_message(e) ==> stepped(t, e, false, now).0 == message_ended(
            Turn { run: observed(t.run, e), ..t },
            e.at("message"@),
            now,
        ),
        e.says("type"@, "message_update"@) || ends_message(e) ==> stepped(t, e, false, now).1
            is None && working(stepped(t, e, false, now).0),
{
    lemma_names();
    let u = Turn { run: observed(t.run, e), ..t };
    let content = e.at("message"@).at("content"@);
    if content.list() is Some {
        lemma_blocks_keep(reasoned(u, now), content.list()->0);
    }
}

proof fn lemma_blocks_keep(t: Turn, blocks: Seq<Tree>)
    ensures
        blocks_shown(t, blocks) == (Turn {
            shown: blocks_shown(t, blocks).shown,
            printed_text: blocks_shown(t, blocks).printed_text,
            pending_newline: blocks_shown(t, blocks).pending_newline,
            ..t
        }),
    decreases blocks.len(),
{
    if blocks.len() > 0 {
        lemma_blocks_keep(t, blocks.drop_last());
    }
}

proof fn lemma_reasoned(t: Turn, now: u64)
    ensures
        written(reasoned(t, now).shown) == written(t.shown),
        reasoned(t, now) == (Turn {
            shown: reasoned(t, now).shown,
            reasoning_since: reasoned(t, now).reasoning_since,
            ..t
        }),
{
    if t.reasoning_since is Some && t.ui.interactive {
        let u = Turn { reasoning_since: None, ..t };
        let shown = reasoned(t, now).shown;
        let what = shown[t.shown.len() as int];
        lemma_shows(u, what);
        lemma_shows(u.show(what), Show::Flush);
    }
}

proof fn lemma_opened(t: Turn)
    ensures
        written(opened(t).shown) == written(t.shown) + (if t.printed_text {
            if t.pending_newline {
                seq!['\n']
            } else {
                Seq::empty()
            }
        } else {
            lead(t)
        }),
        opened(t) == (Turn { shown: opened(t).shown, pending_newline: false, ..t }),
{
    reveal_strlit("\n");
    assert("\n"@ =~= seq!['\n']);
    lemma_shows(t, Show::Write("\n"@));
    let u = if t.pending_newline {
        Turn { pending_newline: false, ..t.write("\n"@) }
    } else {
        t
    };
    if !t.printed_text {
        let v = u.show(Show::SplitTimeline);
        lemma_shows(u, Show::SplitTimeline);
        if t.ui.interactive {
            lemma_shows(v, Show::Write(assistant_of(t.ui)));
            lemma_shows(v.write(assistant_of(t.ui)), Show::Flush);
        }
    }
    assert(written(opened(t).shown) =~= written(t.shown) + (if t.printed_text {
        if t.pending_newline {
            seq!['\n']
        } else {
            Seq::empty()
        }
    } else {
        lead(t)
    }));
}

/// A piece of text is written at once and as it came. Before the first piece
/// of a message stands the line feed that is due and the name of the
/// assistant, before a later one nothing.
pub proof fn law_text_is_written_as_it_comes(t: Turn, e: Tree, delta: Seq<char>, now: u64)
    requires
        working(t),
        brings(e, delta),
        t.printed_text ==> !t.pending_newline,
    ensures
        ({
            let u = stepped(t, e, false, now).0;
            &&& written(u.shown) == written(t.shown) + (if t.printed_text {
                Seq::empty()
            } else {
                lead(t)
            }) + delta
            &&& u.printed_text
            &&& !u.pending_newline
            &&& u.ui == t.ui
            &&& working(u)
            &&& stepped(t, e, false, now).1 is None
        }),
{
    lemma_message_step(t, e, now);
    lemma_names();
    let u = Turn { run: observed(t.run, e), ..t };
    let v = u.work("Writing reply…"@);
    lemma_shows(u, Show::Work("Writing reply…"@));
    lemma_reasoned(v, now);
    let w = if v.printed_text {
        v
    } else {
        reasoned(v, now)
    };
    lemma_opened(w);
    lemma_shows(opened(w), Show::Write(delta));
    lemma_shows(opened(w).write(delta), Show::Flush);
    assert(written(stepped(t, e, false, now).0.shown) =~= written(t.shown) + (if t.printed_text {
        Seq::empty()
    } else {
        lead(t)
    }) + delta);
}

/// What was written as it came is not written again when its message ends.
pub proof fn law_streamed_text_is_not_repeated(t: Turn, e: Tree, now: u64)
    requires
        working(t),
        ends_message(e),
        t.printed_text,
    ensures
        ({
            let u = stepped(t, e, false, now).0;
            &&& written(u.shown) == written(t.shown)
            &&& !u.printed_text
            &&& u.pending_newline
            &&& u.ui == t.ui
            &&& working(u)
            &&& stepped(t, e, false, now).1 is None
        }),
{
    lemma_message_step(t, e, now);
    lemma_reasoned(Turn { run: observed(t.run, e), ..t }, now);
}

/// The texts among some blocks, one after the other.
pub open spec fn said(blocks: Seq<Tree>) -> Seq<char>
    decreases blocks.len(),
{
    if blocks.len() == 0 {
        Seq::empty()
    } else if blocks.last().says("type"@, "text"@) {
        said(blocks.drop_last()) + blocks.last().text_or("text"@, Seq::empty())
    } else {
        said(blocks.drop_last())
    }
}

/// One of the blocks is a text.
pub open spec fn speaks(blocks: Seq<Tree>) -> bool {
    exists|i: int|
        0 <= i < blocks.len() && (#[trigger] blocks[i]).says("type"@, "text"@) && blocks[i].text_at(
            "text"@,
        ) is Some
}

proof fn lemma_speaks(blocks: Seq<Tree>)
    requires
        blocks.len() > 0,
    ensures
        speaks(blocks) == (speaks(blocks.drop_last()) || (blocks.last().says("type"@, "text"@)
            && blocks.last().text_at("text"@) is Some)),
{
    let front = blocks.drop_last();
    if speaks(front) {
        let i = choose|i: int|
            0 <= i < front.len() && (#[trigger] front[i]).says("type"@, "text"@)
                && front[i].text_at("text"@) is Some;
        assert(blocks[i] == front[i]);
    }
    if speaks(blocks) {
        let i = choose|i: int|
            0 <= i < blocks.len() && (#[trigger] blocks[i]).says("type"@, "text"@)
                && blocks[i].text_at("text"@) is Some;
        if i < front.len() {
            assert(front[i] == blocks[i]);
        }
    }
    if blocks.last().says("type"@, "text"@) && blocks.last().text_at("text"@) is Some {
        assert(blocks[blocks.len() - 1] == blocks.last());
    }
}

proof fn lemma_silent(blocks: Seq<Tree>)
    requires
        !speaks(blocks),
    ensures
        said(blocks).len() == 0,
    decreases blocks.len(),
{
    if blocks.len() > 0 {
        lemma_speaks(blocks);
        lemma_silent(blocks.drop_last());
    }
}

proof fn lemma_blocks(t: Turn, blocks: Seq<Tree>)
    requires
        !t.printed_text,
    ensures
        written(blocks_shown(t, blocks).shown) == written(t.shown) + (if speaks(blocks) {
            lead(t)
        } else {
            Seq::empty()
        }) + said(blocks),
        blocks_shown(t, blocks).printed_text == speaks(blocks),
        blocks_shown(t, blocks).pending_newline == (t.pending_newline && !speaks(blocks)),
    decreases blocks.len(),
{
    if blocks.len() > 0 {
        let front = blocks.drop_last();
        let block = blocks.last();
        let u = blocks_shown(t, front);
        lemma_blocks(t, front);
        lemma_blocks_keep(t, front);
        lemma_speaks(blocks);
        if block.says("type"@, "text"@) && block.text_at("text"@) is Some {
            let text = block.text_at("text"@)->0;
            lemma_opened(u);
            lemma_shows(opened(u), Show::Write(text));
            if !speaks(front) {
                lemma_silent(front);
                assert(lead(u) == lead(t));
            }
        }
    } else {
        assert(!speaks(blocks));
    }
    assert(written(blocks_shown(t, blocks).shown) =~= written(t.shown) + (if speaks(blocks) {
        lead(t)
    } else {
        Seq::empty()
    }) + said(blocks));
}

/// Where nothing of a message was written as it came, its texts are written
/// when it ends: all of them, once and in order.
pub proof fn law_silent_messages_are_written_in_the_end(t: Turn, e: Tree, now: u64)
    requires
        working(t),
        ends_message(e),
        !t.printed_text,
        e.at("message"@).at("content"@).list() is Some,
    ensures
        ({
            let u = stepped(t, e, false, now).0;
            let blocks = e.at("message"@).at("content"@).list()->0;
            &&& written(u.shown) == written(t.shown) + (if speaks(blocks) {
                lead(t)
            } else {
                Seq::empty()
            }) + said(blocks)
            &&& u.pending_newline == (t.pending_newline || speaks(blocks))
            &&& !u.printed_text
            &&& working(u)
            &&& stepped(t, e, false, now).1 is None
        }),
{
    lemma_message_step(t, e, now);
    let blocks = e.at("message"@).at("content"@).list()->0;
    let u = Turn { run: observed(t.run, e), ..t };
    let v = reasoned(u, now);
    lemma_reasoned(u, now);
    lemma_blocks(v, blocks);
    lemma_blocks_keep(v, blocks);
    lemma_shows(blocks_shown(v, blocks), Show::Flush);
}

proof fn lemma_next_piece(t: Turn, e: Tree, delta: Seq<char>, now: u64)
    requires
        working(t),
        brings(e, delta),
        t.printed_text ==> !t.pending_newline,
    ensures
        written(next(t, e, now).shown) == written(t.shown) + (if t.printed_text {
            Seq::empty()
        } else {
            lead(t)
        }) + delta,
        next(t, e, now).printed_text,
        !next(t, e, now).pending_newline,
        next(t, e, now).ui == t.ui,
        working(next(t, e, now)),
{
    reveal(next);
    law_text_is_written_as_it_comes(t, e, delta, now);
}

proof fn lemma_pieces(t: Turn, events: Seq<Tree>, deltas: Seq<Seq<char>>, now: u64)
    requires
        working(t),
        !t.printed_text,
        events.len() == deltas.len(),
        forall|i: int| 0 <= i < events.len() ==> brings(#[trigger] events[i], deltas[i]),
    ensures
        ({
            let u = after(t, events, now);
            &&& working(u)
            &&& u.ui == t.ui
            &&& u.printed_text == (events.len() > 0)
            &&& events.len() > 0 ==> !u.pending_newline
            &&& events.len() == 0 ==> u == t
            &&& written(u.shown) == written(t.shown) + (if events.len() > 0 {
                lead(t)
            } else {
                Seq::empty()
            }) + joined(deltas)
        }),
    decreases events.len(),
{
    if events.len() > 0 {
        let u = after(t, events.drop_last(), now);
        assert forall|i: int| 0 <= i < events.drop_last().len() implies brings(
            #[trigger] events.drop_last()[i],
            deltas.drop_last()[i],
        ) by {
            assert(brings(events[i], deltas[i]));
        }
        lemma_pieces(t, events.drop_last(), deltas.drop_last(), now);
        assert(brings(events[events.len() - 1], deltas.last()));
        lemma_next_piece(u, events.last(), deltas.last(), now);
    }
    assert(written(after(t, events, now).shown) =~= written(t.shown) + (if events.len() > 0 {
        lead(t)
    } else {
        Seq::empty()
    }) + joined(deltas));
}

proof fn lemma_next_end(t: Turn, e: Tree, now: u64)
    requires
        working(t),
        ends_message(e),
        t.printed_text,
    ensures
        written(next(t, e, now).shown) == written(t.shown),
        next(t, e, now).pending_newline,
{
    reveal(next);
    law_streamed_text_is_not_repeated(t, e, now);
}

/// An answer that came in pieces is written exactly once: its pieces, in
/// order, and nothing of what its end repeats.
pub proof fn law_answers_are_written_once(
    t: Turn,
    events: Seq<Tree>,
    deltas: Seq<Seq<char>>,
    end: Tree,
    now: u64,
)
    requires
        working(t),
        !t.printed_text,
        events.len() > 0,
        events.len() == deltas.len(),
        forall|i: int| 0 <= i < events.len() ==> brings(#[trigger] events[i], deltas[i]),
        ends_message(end),
    ensures
        written(after(t, events.push(end), now).shown) == written(t.shown) + lead(t) + joined(
            deltas,
        ),
        after(t, events.push(end), now).pending_newline,
{
    lemma_pieces(t, events, deltas, now);
    assert(events.push(end).drop_last() =~= events);
    lemma_next_end(after(t, events, now), end, now);
}

// ---------------------------------------------------------------------------
// The end of a turn
// ---------------------------------------------------------------------------

/// A prompt that was accepted ends as soon as Pi has settled and nothing
/// waits: well, where no error stands, and else with that error. The line that
/// was begun is ended.
pub proof fn law_settled_prompts_end(t: Turn, e: Tree, now: u64)
    requires
        t.prompt(),
        t.accepted,
        !t.interrupted,
        t.rejection is None,
        t.pending_queued.len() == 0,
        t.queued_count == 0,
        e.says("type"@, "agent_settled"@),
        t.ui.interactive == false,
        observed(t.run, e) == t.run,
    ensures
        t.run.assistant_error is None && t.run.compaction_error is None ==> stepped(
            t,
            e,
            false,
            now,
        ).1 == Some(Ending::Done(false)),
        t.run.compaction_error is None && t.run.assistant_error is Some ==> stepped(
            t,
            e,
            false,
            now,
        ).1 == Some(Ending::Failed(t.run.assistant_error->0)),
        t.run.compaction_error is Some ==> stepped(t, e, false, now).1 is Some
            && stepped(t, e, false, now).1->0 is Failed,
        written(stepped(t, e, false, now).0.shown) == written(t.shown) + (if t.printed_text
            || t.pending_newline {
            seq!['\n']
        } else {
            Seq::empty()
        }),
{
    lemma_names();
    reveal_strlit("\n");
    assert("\n"@ =~= seq!['\n']);
    let u = Turn { run: observed(t.run, e), ..t };
    lemma_reasoned(u, now);
    let v = Turn { settled: true, ..reasoned(u, now) };
    lemma_shows(v, Show::Write("\n"@));
    assert(written(stepped(t, e, false, now).0.shown) =~= written(t.shown) + (if t.printed_text
        || t.pending_newline {
        seq!['\n']
    } else {
        Seq::empty()
    }));
}

// ---------------------------------------------------------------------------
// Messages that are submitted meanwhile
// ---------------------------------------------------------------------------

/// A message that is submitted while Pi works is sent as it was typed, with
/// its attachments, and Pi is told whether to steer with it or to follow up.
pub proof fn law_submissions_are_sent_as_typed(t: Turn, d: DraftView)
    requires
        t.accepted,
        t.next_queue_id < u64::MAX,
        t.pending_queued.len() + t.queued_count < 16,
    ensures
        submitted(t, d).1 is Send,
        submitted(t, d).1->Send_2 == d,
        exists|command: Tree|
            {
                &&& command.says("type"@, "prompt"@)
                &&& command.says("id"@, submitted(t, d).1->Send_0)
                &&& command.says("message"@, d.text)
                &&& command.says(
                    "streamingBehavior"@,
                    match d.mode {
                        QueueMode::Steer => "steer"@,
                        QueueMode::FollowUp => "followUp"@,
                    },
                )
                &&& #[trigger] wire_of(command, d.images) == Some(submitted(t, d).1->Send_1)
            },
        submitted(t, d).0 == (Turn { next_queue_id: (t.next_queue_id + 1) as u64, ..t }),
{
    let id = submitted(t, d).1->Send_0;
    let command = crate::exchange::queue_command(id, d);
    reveal_strlit("type");
    reveal_strlit("id");
    reveal_strlit("message");
    reveal_strlit("streamingBehavior");
    assert("type"@.len() == 4 && "id"@.len() == 2 && "message"@.len() == 7
        && "streamingBehavior"@.len() == 17);
    reveal_with_fuel(entry, 5);
    assert(wire_of(command, d.images) == Some(submitted(t, d).1->Send_1));
}

/// Two messages of a turn are sent under different identifiers.
pub proof fn law_submissions_are_told_apart(t: Turn, u: Turn, d: DraftView, f: DraftView)
    requires
        t.accepted,
        u.accepted,
        t.id == u.id,
        t.next_queue_id < u64::MAX,
        u.next_queue_id < u64::MAX,
        t.next_queue_id != u.next_queue_id,
        submitted(t, d).1 is Send,
        submitted(u, f).1 is Send,
    ensures
        submitted(t, d).1->Send_0 != submitted(u, f).1->Send_0,
{
    let a = decimal((t.next_queue_id + 1) as nat);
    let b = decimal((u.next_queue_id + 1) as nat);
    lemma_decimal((t.next_queue_id + 1) as nat);
    lemma_decimal((u.next_queue_id + 1) as nat);
    let head = t.id + "-queued-"@;
    let x = submitted(t, d).1->Send_0;
    let y = submitted(u, f).1->Send_0;
    assert(x.skip(head.len() as int) =~= a);
    assert(y.skip(head.len() as int) =~= b);
}

/// A message is held back until the prompt was accepted: nothing is sent.
pub proof fn law_submissions_wait_for_the_prompt(t: Turn, d: DraftView)
    requires
        !t.accepted,
    ensures
        submitted(t, d) == (t, SubmissionView::Hold(d)),
{
}

/// The answer to a submission is about that one alone. It is shown as queued
/// where Pi took it, and comes back with the reason where Pi did not, or may
/// not have because the turn is being stopped.
pub proof fn law_answers_settle_their_submission(t: Turn, e: Tree, i: int, now: u64)
    requires
        t.wf(),
        t.prompt(),
        0 <= i < t.pending_queued.len(),
        record_problem(e) is None,
        e.says("type"@, "response"@),
        e.says("id"@, t.pending_queued[i].0),
    ensures
        ({
            let u = stepped(t, e, false, now).0;
            let d = t.pending_queued[i].1;
            let what = u.shown[t.shown.len() as int];
            &&& u.pending_queued == t.pending_queued.remove(i)
            &&& u.shown.len() > t.shown.len()
            &&& e.flagged("success"@, true) && !t.interrupted ==> what == Show::Queued(d)
            &&& e.flagged("success"@, true) && t.interrupted ==> what is RejectedQueue
                && what->RejectedQueue_0 == d
            &&& !e.flagged("success"@, true) && e.text_at("error"@) is Some ==> what
                == Show::RejectedQueue(d, e.text_at("error"@)->0)
        }),
{
    let u = Turn { run: observed(t.run, e), ..t };
    let id = t.pending_queued[i].0;
    lemma_name_index(t.pending_queued, id);
    let k = name_index(names_of(t.pending_queued), id)->0;
    if name_index(names_of(t.pending_queued), id) is Some {
        if k < i {
            assert(t.pending_queued[k].0 != t.pending_queued[i].0);
        } else if i < k {
            assert(t.pending_queued[i].0 != t.pending_queued[k].0);
        }
    }
    assert(answered(u, e) == Some(i));
    let v = acknowledged(u, e, i);
    lemma_concluded(v);
}

proof fn lemma_concluded(t: Turn)
    ensures
        concluded(t).0 == (Turn { shown: concluded(t).0.shown, ..t }),
        concluded(t).0.shown.len() >= t.shown.len(),
        forall|k: int|
            0 <= k < t.shown.len() ==> #[trigger] concluded(t).0.shown[k] == t.shown[k],
{
}

/// How many messages wait in Pi is what Pi said last.
pub proof fn law_queue_is_counted(t: Turn, e: Tree, now: u64)
    requires
        working(t),
        e.says("type"@, "queue_update"@),
        e.at("steering"@).list() is Some,
        e.at("followUp"@).list() is Some,
        e.at("steering"@).list()->0.len() + e.at("followUp"@).list()->0.len() <= usize::MAX,
    ensures
        stepped(t, e, false, now).0.queued_count == e.at("steering"@).list()->0.len() + e.at(
            "followUp"@,
        ).list()->0.len(),
        stepped(t, e, false, now).0.pending_queued == t.pending_queued,
{
    reveal_strlit("queue_update");
    reveal_strlit("response");
    reveal_strlit("agent_settled");
    reveal_strlit("agent_start");
    reveal_strlit("message_start");
    assert("queue_update"@.len() == 12 && "response"@.len() == 8 && "agent_settled"@.len() == 13
        && "agent_start"@.len() == 11 && "message_start"@.len() == 13);
    reveal_strlit("message_end");
    assert("message_end"@.len() == 11);
}

/// The submission that comes back when the connection fails was sent last;
/// all others stay as they are.
pub proof fn law_the_newest_submission_comes_back(t: Turn)
    requires
        t.pending_queued.len() > 0,
    ensures
        exists|i: int|
            {
                &&& 0 <= i < t.pending_queued.len()
                &&& preserved(t).pending_queued == #[trigger] t.pending_queued.remove(i)
                &&& preserved(t).shown.len() == t.shown.len() + 1
                &&& preserved(t).shown.last() is RejectedQueue
                &&& preserved(t).shown.last()->RejectedQueue_0 == t.pending_queued[i].1
                &&& forall|j: int|
                    0 <= j < t.pending_queued.len() ==> stamp((#[trigger] t.pending_queued[j]).0)
                        <= stamp(t.pending_queued[i].0)
            },
{
    lemma_newest(t.pending_queued);
    let i = newest(t.pending_queued);
    assert(preserved(t).pending_queued == t.pending_queued.remove(i));
}

proof fn lemma_newest(pending: Seq<(Seq<char>, DraftView)>)
    requires
        pending.len() > 0,
    ensures
        0 <= newest(pending) < pending.len(),
        forall|j: int|
            0 <= j < pending.len() ==> stamp((#[trigger] pending[j]).0) <= stamp(
                pending[newest(pending)].0,
            ),
    decreases pending.len(),
{
    if pending.len() > 1 {
        let front = pending.drop_last();
        lemma_newest(front);
        assert forall|j: int| 0 <= j < pending.len() implies stamp((#[trigger] pending[j]).0)
            <= stamp(pending[newest(pending)].0) by {
            if j < front.len() {
                assert(front[j] == pending[j]);
            }
        }
    }
}

// ---------------------------------------------------------------------------
// Stopping
// ---------------------------------------------------------------------------

/// Stopping empties the queue of Pi first and then aborts the run, under two
/// identifiers of its own, and is noted; nothing else changes.
pub proof fn law_stopping_clears_then_aborts(t: Turn)
    ensures
        exists|clear: Tree, abort: Tree|
            {
                &&& clear.says("type"@, "clear_queue"@)
                &&& abort.says("type"@, "abort"@)
                &&& clear.text_at("id"@) == interrupted_turn(t).clear_id
                &&& abort.text_at("id"@) == interrupted_turn(t).abort_id
                &&& interruption(t.id) == #[trigger] printed(clear) + seq!['\n']
                    + #[trigger] printed(abort) + seq!['\n']
            },
        interrupted_turn(t).interrupted,
        interrupted_turn(t).clear_id != interrupted_turn(t).abort_id,
        interrupted_turn(t) == (Turn {
            interrupted: true,
            clear_id: interrupted_turn(t).clear_id,
            abort_id: interrupted_turn(t).abort_id,
            ..t
        }),
{
    let clear = crate::exchange::identified_of(t.id + "-clear"@, "clear_queue"@);
    let abort = crate::exchange::identified_of(t.id + "-abort"@, "abort"@);
    reveal_strlit("type");
    reveal_strlit("id");
    reveal_strlit("-clear");
    reveal_strlit("-abort");
    reveal_strlit("\n");
    assert("type"@.len() == 4 && "id"@.len() == 2);
    assert("\n"@ =~= seq!['\n']);
    reveal_with_fuel(entry, 3);
    assert((t.id + "-clear"@)[t.id.len() as int + 1] == 'c');
    assert((t.id + "-abort"@)[t.id.len() as int + 1] == 'a');
    assert(interruption(t.id) == printed(clear) + seq!['\n'] + printed(abort) + seq!['\n']);
}

/// A prompt that was stopped ends once Pi has settled and acknowledged both
/// commands: as interrupted, and not as failed.
pub proof fn law_stopped_prompts_end(t: Turn, e: Tree, now: u64)
    requires
        t.prompt(),
        t.accepted,
        t.settled,
        t.interrupted,
        t.clear_done,
        !t.abort_done,
        t.rejection is None,
        t.pending_queued.len() == 0,
        t.queued_count == 0,
        t.abort_id is Some,
        t.abort_id != Some(t.id),
        t.clear_id != t.abort_id,
        record_problem(e) is None,
        e.says("type"@, "response"@),
        e.text_at("id"@) == t.abort_id,
        e.flagged("success"@, true),
    ensures
        stepped(t, e, false, now).1 == Some(Ending::Done(true)),
{
    let u = Turn { run: observed(t.run, e), ..t };
    lemma_name_index(t.pending_queued, e.text_at("id"@)->0);
    assert(answered(u, e) is None);
}

// ---------------------------------------------------------------------------
// Tools
// ---------------------------------------------------------------------------

/// The call of a tool is shown with its identifier and its name.
pub proof fn law_tool_calls_are_shown(t: Turn, e: Tree, now: u64)
    requires
        t.ui.interactive,
        e.text_at("toolCallId"@) is Some,
        e.text_at("toolName"@) is Some,
        !e.says("toolName"@, "goal"@),
    ensures
        exists|k: int|
            {
                &&& t.shown.len() <= k < tool_started(t, e, now).shown.len()
                &&& (#[trigger] tool_started(t, e, now).shown[k]) is ToolStart
                &&& tool_started(t, e, now).shown[k]->ToolStart_0 == e.text_at("toolCallId"@)->0
                &&& tool_started(t, e, now).shown[k]->ToolStart_1 == e.text_at("toolName"@)->0
            },
{
    let u = tool_started(t, e, now);
    assert(u.shown[u.shown.len() - 2] is ToolStart);
}

/// The end of a call is shown with its identifier and its name, as failed
/// exactly where it failed, and with the diff of an edit that did not.
pub proof fn law_tool_results_are_shown(t: Turn, e: Tree)
    requires
        t.ui.interactive,
        e.text_at("toolCallId"@) is Some,
        e.text_at("toolName"@) is Some,
        !e.says("toolName"@, "goal"@),
    ensures
        exists|k: int|
            {
                let what = tool_ended(t, e).shown[k];
                &&& t.shown.len() <= k < tool_ended(t, e).shown.len()
                &&& (#[trigger] tool_ended(t, e).shown[k]) is ToolEnd
                &&& what->ToolEnd_0 == e.text_at("toolCallId"@)->0
                &&& what->ToolEnd_1 == e.text_at("toolName"@)->0
                &&& what->ToolEnd_3 == e.flagged("isError"@, true)
                &&& e.says("toolName"@, "edit"@) && !e.flagged("isError"@, true)
                    ==> what->ToolEnd_4 == e.at("result"@).at("details"@).text_at("diff"@)
            },
{
    let u = tool_ended(t, e);
    assert(u.shown[u.shown.len() - 2] is ToolEnd);
}

/// A command that is no prompt is done with its own response: well where Pi
/// took it, and else with what Pi said.
pub proof fn law_commands_end_with_their_response(t: Turn, e: Tree, now: u64)
    requires
        !t.prompt(),
        !t.interrupted,
        t.clear_id is None,
        t.abort_id is None,
        record_problem(e) is None,
        e.says("type"@, "response"@),
        e.says("id"@, t.id),
    ensures
        e.flagged("success"@, true) && !e.at("data"@).flagged("cancelled"@, true) ==> stepped(
            t,
            e,
            false,
            now,
        ).1 == Some(Ending::Done(false)),
        !e.flagged("success"@, true) || e.at("data"@).flagged("cancelled"@, true) ==> stepped(
            t,
            e,
            false,
            now,
        ).1 is Some && stepped(t, e, false, now).1->0 is Failed,
{
}

proof fn lemma_event_names()
    ensures
        "tool_execution_start"@ != "message_start"@,
        "tool_execution_start"@ != "agent_start"@,
        "tool_execution_start"@ != "queue_update"@,
        "tool_execution_start"@ != "message_update"@,
        "tool_execution_start"@ != "message_end"@,
        "tool_execution_end"@ != "message_start"@,
        "tool_execution_end"@ != "agent_start"@,
        "tool_execution_end"@ != "queue_update"@,
        "tool_execution_end"@ != "message_update"@,
        "tool_execution_end"@ != "message_end"@,
        "tool_execution_end"@ != "tool_execution_start"@,
        "auto_retry_start"@ != "agent_start"@,
        "auto_retry_start"@ != "message_start"@,
        "auto_retry_start"@ != "queue_update"@,
        "auto_retry_start"@ != "message_update"@,
        "auto_retry_start"@ != "message_end"@,
        "auto_retry_start"@ != "tool_execution_start"@,
        "auto_retry_start"@ != "tool_execution_end"@,
        "auto_retry_start"@ != "compaction_start"@,
        "auto_retry_start"@ != "compaction_end"@,
        "thinking_end"@ != "thinking_start"@,
        "thinking_end"@ != "thinking_delta"@,
{
    reveal_strlit("tool_execution_start");
    reveal_strlit("tool_execution_end");
    reveal_strlit("auto_retry_start");
    reveal_strlit("compaction_start");
    reveal_strlit("compaction_end");
    reveal_strlit("message_end");
    reveal_strlit("agent_start");
    reveal_strlit("message_start");
    reveal_strlit("queue_update");
    reveal_strlit("message_update");
    reveal_strlit("thinking_start");
    reveal_strlit("thinking_delta");
    reveal_strlit("thinking_end");
    assert("tool_execution_start"@.len() == 20);
    assert("tool_execution_end"@.len() == 18);
    assert("auto_retry_start"@.len() == 16 && "auto_retry_start"@[0] == 'a');
    assert("compaction_start"@.len() == 16 && "compaction_start"@[0] == 'c');
    assert("compaction_end"@.len() == 14);
    assert("message_end"@.len() == 11);
    assert("agent_start"@.len() == 11);
    assert("message_start"@.len() == 13);
    assert("queue_update"@.len() == 12);
    assert("message_update"@.len() == 14);
    assert("thinking_start"@.len() == 14);
    assert("thinking_delta"@.len() == 14);
    assert("thinking_end"@.len() == 12);
}

/// The start and the end of a tool's call are taken as such, and a retry is
/// announced with its number, how many there are and how long it waits.
pub proof fn law_events_of_a_prompt_are_shown(
    t: Turn,
    e: Tree,
    delivered: bool,
    now: u64,
    attempt: u64,
    most: u64,
    delay: u64,
)
    requires
        t.prompt(),
    ensures
        e.says("type"@, "tool_execution_start"@) ==> noted(t, e, delivered, now) == tool_started(
            t,
            e,
            now,
        ),
        e.says("type"@, "tool_execution_end"@) ==> noted(t, e, delivered, now) == tool_ended(t, e),
        e.says("type"@, "auto_retry_start"@) && e.at("attempt"@).natural() == Some(attempt) && e.at(
            "maxAttempts"@,
        ).natural() == Some(most) && e.at("delayMs"@).natural() == Some(delay) ==> noted(
            t,
            e,
            delivered,
            now,
        ).shown == t.shown.push(
            Show::Work(
                "Pi retry "@ + decimal(attempt as nat) + "/"@ + decimal(most as nat) + " in "@
                    + decimal(delay as nat / 1000) + "s…"@,
            ),
        ),
{
    lemma_event_names();
}

/// Reasoning is shown while it lasts, and then how long it lasted.
pub proof fn law_reasoning_is_timed(t: Turn, begin: Tree, end: Tree, first: u64, last: u64)
    requires
        t.ui.interactive,
        t.reasoning_since is None,
        begin.says("type"@, "thinking_start"@),
        end.says("type"@, "thinking_end"@),
        first <= last,
    ensures
        ({
            let a = streamed(t, begin, first);
            let b = streamed(a, end, last);
            let seconds = (last - first) as nat / 1000;
            &&& a.shown == t.shown.push(Show::ThinkingStart).push(Show::Work("Thinking…"@))
            &&& b.reasoning_since is None
            &&& seconds == 0 ==> b.shown == a.shown.push(
                Show::ThinkingEnd(info_of(t.ui, "reasoning · "@ + "<1s"@)),
            ).push(Show::Flush).push(Show::Work("Preparing response…"@))
            &&& seconds > 0 ==> b.shown == a.shown.push(
                Show::ThinkingEnd(info_of(t.ui, "reasoning · "@ + (decimal(seconds) + "s"@))),
            ).push(Show::Flush).push(Show::Work("Preparing response…"@))
        }),
{
    lemma_event_names();
}

/// More reasoning goes on with what has begun: its beginning is shown once, and
/// the time is counted from there.
pub proof fn law_reasoning_begins_once(t: Turn, e: Tree, now: u64)
    requires
        t.reasoning_since is Some,
        e.says("type"@, "thinking_delta"@) || e.says("type"@, "thinking_start"@),
    ensures
        streamed(t, e, now).reasoning_since == t.reasoning_since,
        streamed(t, e, now).shown == t.shown.push(Show::Work("Thinking…"@)),
{
}

/// What an extension asks or complains of is handed over.
pub proof fn law_dialogs_are_handed_over(t: Turn, e: Tree, delivered: bool, now: u64)
    requires
        e.says("type"@, "extension_ui_request"@),
    ensures
        noted(t, e, delivered, now).shown == t.shown.push(Show::Dialog(e)).push(Show::Flush),
{
    reveal_strlit("extension_ui_request");
    reveal_strlit("tool_execution_start");
    reveal_strlit("tool_execution_end");
    reveal_strlit("auto_retry_start");
    reveal_strlit("summarization_retry_scheduled");
    reveal_strlit("summarization_retry_attempt_start");
    reveal_strlit("compaction_start");
    reveal_strlit("compaction_end");
    reveal_strlit("message_end");
    reveal_strlit("agent_start");
    reveal_strlit("message_start");
    reveal_strlit("queue_update");
    reveal_strlit("message_update");
    assert("extension_ui_request"@.len() == 20 && "extension_ui_request"@[0] == 'e');
    assert("tool_execution_start"@[0] == 't' && "tool_execution_end"@.len() == 18);
    assert("auto_retry_start"@.len() == 16 && "compaction_start"@.len() == 16);
    assert("compaction_end"@.len() == 14 && "message_end"@.len() == 11);
    assert("agent_start"@.len() == 11 && "message_start"@.len() == 13);
    assert("queue_update"@.len() == 12 && "message_update"@.len() == 14);
    assert("summarization_retry_scheduled"@.len() == 29);
    assert("summarization_retry_attempt_start"@.len() == 33);
}

/// A prompt that Pi takes up again is not settled any more.
pub proof fn law_resumed_prompts_go_on(t: Turn, e: Tree, delivered: bool, now: u64)
    requires
        t.prompt(),
        t.rejection is None,
        record_problem(e) is None,
        e.says("type"@, "agent_start"@),
    ensures
        !stepped(t, e, delivered, now).0.settled,
        stepped(t, e, delivered, now).1 is None,
{
    lemma_names();
    reveal_strlit("agent_start");
    reveal_strlit("response");
    reveal_strlit("agent_settled");
    assert("agent_start"@.len() == 11 && "response"@.len() == 8 && "agent_settled"@.len() == 13);
}

/// A stop that Pi does not acknowledge is given up after ten seconds, and no
/// sooner.
pub proof fn law_stops_have_a_limit(t: Turn, first: u64, now: u64)
    requires
        t.cancellation_started is None,
        first <= now,
    ensures
        late(timed(t, first), now) <==> t.interrupted && now - first > 10_000,
        timed(timed(t, first), now) == timed(t, first),
{
}

/// A prompt whose run failed ends with that failure, and not as if it were
/// done.
pub proof fn law_failed_prompts_end_with_the_failure(t: Turn, error: ErrorView)
    requires
        t.ready(),
        !t.interrupted,
        t.rejection is None,
        outcome_of(t.run, false) == OutcomeView::Failed(error),
    ensures
        concluded(t).1 == Some(Ending::Failed(error)),
{
}

/// Each acknowledgement of a stop counts for its own command: that of the
/// queue leaves nothing waiting, and that of the run leaves the queue alone.
pub proof fn law_acknowledgements_are_counted(t: Turn, e: Tree)
    requires
        t.clear_id is Some,
        t.abort_id is Some,
        t.clear_id != t.abort_id,
    ensures
        e.text_at("id"@) == t.clear_id ==> ({
            let u = cancellation_noted(t, e);
            &&& u.clear_done
            &&& u.queued_count == 0
            &&& u.abort_done == t.abort_done
            &&& u.shown == t.shown.push(Show::ClearQueue)
        }),
        e.text_at("id"@) == t.abort_id ==> ({
            let u = cancellation_noted(t, e);
            &&& u.abort_done
            &&& u.clear_done == t.clear_done
            &&& u.queued_count == t.queued_count
            &&& u.shown == t.shown
        }),
        e.text_at("id"@) != t.clear_id && e.text_at("id"@) != t.abort_id ==> cancellation_noted(
            t,
            e,
        ) == t,
{
}

/// A compaction that failed is reported, and one that was cancelled too, unless
/// the user stopped the turn.
pub proof fn law_failed_compactions_are_reported(t: Turn, e: Tree, message: Seq<char>)
    ensures
        e.says("errorMessage"@, message) && t.ui.interactive ==> compaction_ended(t, e).shown
            == t.shown.push(Show::Write("\n"@)).push(
            Show::Write(
                info_of(t.ui, "Warning: "@ + error_text(error_of(ErrorSource::Compaction, message))),
            ),
        ),
        e.says("errorMessage"@, message) && !t.ui.interactive ==> compaction_ended(t, e).shown
            == t.shown.push(
            Show::Notice("pi: "@ + error_text(error_of(ErrorSource::Compaction, message))),
        ),
        e.text_at("errorMessage"@) is None && e.flagged("aborted"@, true) && t.ui.interactive
            && !t.interrupted ==> compaction_ended(t, e).shown.len() == t.shown.len() + 1,
        e.text_at("errorMessage"@) is None && t.interrupted ==> compaction_ended(t, e) == t,
        e.text_at("errorMessage"@) is None && !e.flagged("aborted"@, true) ==> compaction_ended(
            t,
            e,
        ) == t,
{
}

/// A prompt takes messages until it is stopped, or settled with nothing waiting.
pub proof fn law_prompts_take_messages(t: Turn)
    requires
        t.prompt(),
    ensures
        t.interrupted ==> !listening(t),
        !t.interrupted && !t.settled ==> listening(t),
        !t.interrupted && t.pending_queued.len() > 0 ==> listening(t),
        !t.interrupted && t.queued_count > 0 ==> listening(t),
        t.settled && t.pending_queued.len() == 0 && t.queued_count == 0 ==> !listening(t),
{
}

/// A prompt that was stopped says so in the end, and no other one does.
pub proof fn law_stopped_prompts_say_so(t: Turn)
    requires
        t.ui.interactive,
        outcome_of(t.run, t.interrupted) is Completed || outcome_of(t.run, t.interrupted)
            is Cancelled,
        !t.printed_text,
        !t.pending_newline,
    ensures
        t.interrupted ==> finished(t).0.shown == t.shown.push(
            Show::Write(info_of(t.ui, "Stopped. You can keep chatting."@)),
        ).push(Show::Write("\n"@)),
        !t.interrupted ==> finished(t).0.shown == t.shown.push(Show::Write("\n"@)),
        finished(t).1 == Some(Ending::Done(t.interrupted)),
{
}

}
