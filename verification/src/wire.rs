//! Records on the wire: framing of commands and validity of events.
use crate::error::{error_of, protocol, ChatError, ErrorSource, ErrorView};
use crate::json::{encode, printed, Json, Tree};
use crate::lines::join;
use crate::queue::{image_trees, SharedImage};
use crate::text::{cat4, chars_of, contains, copy, occurs_at, starts, text_of};
use vstd::prelude::*;

verus! {

/// The texts of some values.
pub open spec fn printed_all(values: Seq<Tree>) -> Seq<Seq<char>> {
    Seq::new(values.len(), |i: int| printed(values[i]))
}

/// A command with its attachments as one line. The attachments, if any,
/// follow the fields of the command, which must be an object.
pub open spec fn wire_of(command: Tree, images: Seq<Tree>) -> Option<Seq<char>> {
    match command {
        Tree::Object(fields) => Some(
            if images.len() == 0 {
                printed(command) + "\n"@
            } else {
                printed(command).drop_last() + (if fields.len() == 0 {
                    ""@
                } else {
                    ","@
                }) + "\"images\":["@ + join(printed_all(images), ","@) + "]}\n"@
            },
        ),
        _ => None,
    }
}

/// No line ends within a text.
pub open spec fn unbroken(text: Seq<char>) -> bool {
    forall|i: int| 0 <= i < text.len() ==> #[trigger] text[i] != '\n'
}

/// A text is one line, and ends with its line feed.
pub open spec fn is_line(text: Seq<char>) -> bool {
    text.len() > 0 && text.last() == '\n' && unbroken(text.drop_last())
}

/// The texts of the attachments, separated by commas.
fn image_texts(images: &Vec<SharedImage>) -> (out: String)
    ensures
        out@ == join(printed_all(image_trees(images@)), ","@),
        unbroken(out@),
{
    let mut out = copy("");
    let mut i: usize = 0;
    let ghost all = printed_all(image_trees(images@));
    proof {
        reveal_strlit("");
        assert(all.take(0) =~= Seq::<Seq<char>>::empty());
        assert(out@ =~= join(all.take(0), ","@));
    }
    while i < images.len()
        invariant
            i <= images@.len(),
            all == printed_all(image_trees(images@)),
            out@ == join(all.take(i as int), ","@),
            unbroken(out@),
        decreases images@.len() - i,
    {
        proof {
            assert(all.take(i + 1).drop_last() =~= all.take(i as int));
            assert(all.take(i + 1).last() == all[i as int]);
        }
        if i > 0 {
            proof {
                reveal_strlit(",");
            }
            out.append(",");
        }
        let text = encode(&*images[i]);
        out.append(text.as_str());
        proof {
            if i == 0 {
                assert(out@ =~= all.take(1)[0]);
            }
        }
        i = i + 1;
    }
    assert(all.take(i as int) =~= all);
    out
}

/// A command with its attachments as one line to send; none, where the
/// command is not an object.
pub fn write_command(command: &Json, images: &Vec<SharedImage>) -> (r: Option<String>)
    ensures
        match r {
            Some(line) => wire_of(command@, image_trees(images@)) == Some(line@) && is_line(line@),
            None => wire_of(command@, image_trees(images@)) is None,
        },
{
    let empty = match command {
        Json::Object(fields) => fields.len() == 0,
        _ => {
            return None;
        },
    };
    let text = encode(command);
    proof {
        reveal_strlit("\n");
        reveal_strlit("");
        reveal_strlit(",");
        reveal_strlit("\"images\":[");
        reveal_strlit("]}\n");
    }
    if images.len() == 0 {
        let line = crate::text::cat2(text.as_str(), "\n");
        assert(line@.drop_last() =~= text@);
        return Some(line);
    }
    let mut chars = chars_of(text.as_str());
    let _ = chars.pop();
    let open = text_of(chars.as_slice());
    assert(open@ =~= text@.drop_last());
    let mut out = cat4(
        open.as_str(),
        if empty {
            ""
        } else {
            ","
        },
        "\"images\":[",
        image_texts(images).as_str(),
    );
    let ghost head = out@;
    out.append("]}\n");
    assert(out@.drop_last() =~= head + seq![']', '}']);
    Some(out)
}

/// What is wrong with a record, if anything.
pub open spec fn record_problem(e: Tree) -> Option<Seq<char>> {
    if e.text_at("type"@) is None {
        Some("Pi record has no event type"@)
    } else if e.says("type"@, "response"@) && !(e.at("success"@) is Flag) {
        Some("Pi response has no success flag"@)
    } else if e.says("type"@, "response"@) && e.says("command"@, "parse"@) && e.flagged(
        "success"@,
        false,
    ) {
        Some("Pi rejected RPC framing"@)
    } else if e.says("type"@, "message_end"@) && e.at("message"@).says("role"@, "assistant"@)
        && e.at("message"@).text_at("stopReason"@) is None {
        Some("Assistant message missing stopReason"@)
    } else {
        None
    }
}

/// A record that breaks the protocol is an error; one of an unknown type is
/// not.
pub fn check_record(event: &Json) -> (r: Result<(), ChatError>)
    ensures
        match r {
            Ok(_) => record_problem(event@) is None,
            Err(error) => record_problem(event@) matches Some(message) && error@ == error_of(
                ErrorSource::Protocol,
                message,
            ),
        },
{
    if event.text_at("type").is_none() {
        return Err(protocol("Pi record has no event type"));
    }
    let response = event.says("type", "response");
    if response && !event.has_flag("success") {
        return Err(protocol("Pi response has no success flag"));
    }
    if response && event.says("command", "parse") && event.flagged("success", false) {
        return Err(protocol("Pi rejected RPC framing"));
    }
    if event.says("type", "message_end") && event.at("message").says("role", "assistant")
        && event.at("message").text_at("stopReason").is_none() {
        return Err(protocol("Assistant message missing stopReason"));
    }
    Ok(())
}

/// The error for a command that Pi turned down.
pub open spec fn rejected_of(e: Tree, kind: Seq<char>, id: Seq<char>) -> ErrorView {
    ErrorView {
        command_id: Some(id),
        ..error_of(
            ErrorSource::Command,
            "Pi rejected "@ + kind + ": "@ + e.text_or("error"@, "Unknown error"@),
        )
    }
}

pub fn rejected(event: &Json, kind: &str, id: &str) -> (r: ChatError)
    ensures
        r@ == rejected_of(event@, kind@, id@),
{
    let text = cat4("Pi rejected ", kind, ": ", event.text_or("error", "Unknown error"));
    let mut error = ChatError::new(ErrorSource::Command, text.as_str());
    error.command_id = Some(copy(id));
    error
}

proof fn lemma_joined(parts: Seq<Seq<char>>, i: int)
    requires
        0 <= i < parts.len(),
    ensures
        contains(join(parts, ","@), parts[i]),
    decreases parts.len(),
{
    let all = join(parts, ","@);
    if parts.len() == 1 {
        assert(all.subrange(0, all.len() as int) =~= parts[0]);
        assert(occurs_at(all, parts[0], 0));
    } else if i == parts.len() - 1 {
        let k = all.len() - parts.last().len();
        assert(all.subrange(k, all.len() as int) =~= parts.last());
        assert(occurs_at(all, parts[i], k));
    } else {
        let front = parts.drop_last();
        lemma_joined(front, i);
        let before = join(front, ","@);
        let k = choose|k: int| occurs_at(before, front[i], k);
        assert(all.subrange(k, k + parts[i].len()) =~= before.subrange(k, k + front[i].len()));
        assert(occurs_at(all, parts[i], k));
    }
}

/// A command is sent with all of its fields, and every attachment with it.
pub proof fn law_commands_are_sent_whole(command: Tree, images: Seq<Tree>, i: int)
    requires
        command is Object,
        printed(command).len() > 0,
    ensures
        images.len() == 0 ==> wire_of(command, images) == Some(printed(command) + seq!['\n']),
        wire_of(command, images) is Some,
        starts(wire_of(command, images)->0, printed(command).drop_last()),
        0 <= i < images.len() ==> contains(wire_of(command, images)->0, printed(images[i])),
{
    reveal_strlit("\n");
    assert("\n"@ =~= seq!['\n']);
    let line = wire_of(command, images)->0;
    let head = printed(command).drop_last();
    assert(line.subrange(0, head.len() as int) =~= head);
    if 0 <= i < images.len() {
        let all = printed_all(images);
        lemma_joined(all, i);
        let inner = join(all, ","@);
        let k = choose|k: int| occurs_at(inner, all[i], k);
        let before = head + (if command->Object_0.len() == 0 {
            ""@
        } else {
            ","@
        }) + "\"images\":["@;
        let at = before.len() + k;
        assert(line =~= before + inner + "]}\n"@);
        assert(line.subrange(at, at + all[i].len()) =~= inner.subrange(k, k + all[i].len()));
        assert(occurs_at(line, printed(images[i]), at));
    }
}

}
