//! Questions that an extension of Pi asks.
use crate::error::{
    error_of, error_text, safe_message, safe_text, text_view, ChatError, ErrorSource,
};
use crate::json::{add_field, encode, fields_view, object, printed, text, Json, Tree};
use crate::number::{decimal, decimal_text, parse_index, parse_usize};
use crate::text::{
    cat2, cat3, cat5, chars_of, copy, starts, starts_text, trim, trimmed,
};
use vstd::prelude::*;

verus! {

/// How long an approval may be pending at most, in milliseconds.
pub const APPROVAL_LIMIT: u64 = 60_000;

// ---------------------------------------------------------------------------
// Answers
// ---------------------------------------------------------------------------

pub open spec fn ascii_lower(c: char) -> char {
    if 'A' <= c && c <= 'Z' {
        ((c as u32) + 32) as char
    } else {
        c
    }
}

/// The texts are equal but for the case of ASCII letters.
pub open spec fn alike(a: Seq<char>, b: Seq<char>) -> bool {
    a.len() == b.len() && forall|i: int|
        0 <= i < a.len() ==> ascii_lower(#[trigger] a[i]) == ascii_lower(b[i])
}

/// An answer that says yes.
pub open spec fn affirms(answer: Option<Seq<char>>) -> bool {
    answer matches Some(s) && (alike(s, "y"@) || alike(s, "yes"@))
}

/// The place of the option that an answer chooses, counted from one.
pub open spec fn option_index(answer: Option<Seq<char>>, count: nat) -> Option<nat> {
    match answer {
        Some(s) => match parse_usize(trim(s)) {
            Some(n) => if 1 <= n <= count {
                Some((n - 1) as nat)
            } else {
                None
            },
            None => None,
        },
        None => None,
    }
}

/// The rows of the first `n` options.
pub open spec fn option_rows(options: Seq<Tree>, n: nat) -> Seq<char>
    decreases n,
{
    if n == 0 {
        ""@
    } else {
        option_rows(options, (n - 1) as nat) + ("  "@ + decimal(n) + ". "@ + (
        match options[n - 1].text() {
            Some(label) => label,
            None => "?"@,
        }) + "\r\n"@)
    }
}

/// What is asked, if anything is.
pub open spec fn question_of(e: Tree) -> Option<Seq<char>> {
    let title = e.text_or("title"@, "Pi request"@);
    if e.says("method"@, "confirm"@) {
        Some("\r\n[pi] "@ + title + ": "@ + e.text_or("message"@, ""@) + " [y/N] "@)
    } else if e.says("method"@, "select"@) {
        match e.at("options"@).list() {
            Some(options) => Some(
                "\r\n[pi] "@ + title + "\r\n"@ + option_rows(options, options.len())
                    + "Choose a number (Enter to cancel): "@,
            ),
            None => None,
        }
    } else if e.says("method"@, "input"@) || e.says("method"@, "editor"@) {
        let hint = match e.text_at("placeholder"@) {
            Some(hint) => hint,
            None => e.text_or("prefill"@, ""@),
        };
        Some("\r\n[pi] "@ + title + " "@ + hint + ": "@)
    } else {
        None
    }
}

pub open spec fn cancelled_tree() -> Tree {
    Tree::Object(seq![("cancelled"@, Tree::Flag(true))])
}

pub open spec fn value_tree(value: Seq<char>) -> Tree {
    Tree::Object(seq![("value"@, Tree::Text(value))])
}

/// What an answer means. A confirmation defaults to no, a selection needs a
/// valid option, and an empty text is none.
pub open spec fn response_of(e: Tree, answer: Option<Seq<char>>) -> Tree {
    if e.says("method"@, "confirm"@) {
        Tree::Object(seq![("confirmed"@, Tree::Flag(affirms(answer)))])
    } else if e.says("method"@, "select"@) {
        match e.at("options"@).list() {
            Some(options) => match option_index(answer, options.len()) {
                Some(i) => match options[i as int].text() {
                    Some(value) => value_tree(value),
                    None => cancelled_tree(),
                },
                None => cancelled_tree(),
            },
            None => cancelled_tree(),
        }
    } else if e.says("method"@, "input"@) || e.says("method"@, "editor"@) {
        match answer {
            Some(value) => if value.len() > 0 {
                value_tree(value)
            } else {
                cancelled_tree()
            },
            None => cancelled_tree(),
        }
    } else {
        cancelled_tree()
    }
}

/// The fields with `key` taken over from `response`, where it has it.
pub open spec fn taken_over(
    fields: Seq<(Seq<char>, Tree)>,
    response: Tree,
    key: Seq<char>,
) -> Seq<(Seq<char>, Tree)> {
    match response.get(key) {
        Some(value) => fields.push((key, value)),
        None => fields,
    }
}

/// The record that answers the question `e`.
pub open spec fn reply_of(e: Tree, response: Tree) -> Tree {
    let fields = seq![
        ("type"@, Tree::Text("extension_ui_response"@)),
        ("id"@, e.at("id"@)),
    ];
    Tree::Object(
        taken_over(
            taken_over(taken_over(fields, response, "cancelled"@), response, "confirmed"@),
            response,
            "value"@,
        ),
    )
}

fn lower(c: char) -> (r: char)
    ensures
        r == ascii_lower(c),
{
    if 'A' <= c && c <= 'Z' {
        ((c as u8) + 32) as char
    } else {
        c
    }
}

fn is_alike(a: &[char], b: &[char]) -> (r: bool)
    ensures
        r == alike(a@, b@),
{
    if a.len() != b.len() {
        return false;
    }
    let mut i: usize = 0;
    while i < a.len()
        invariant
            i <= a@.len(),
            a@.len() == b@.len(),
            forall|j: int| 0 <= j < i ==> ascii_lower(#[trigger] a@[j]) == ascii_lower(b@[j]),
        decreases a@.len() - i,
    {
        if lower(a[i]) != lower(b[i]) {
            assert(ascii_lower(a@[i as int]) != ascii_lower(b@[i as int]));
            return false;
        }
        i = i + 1;
    }
    true
}

pub open spec fn answer_view(answer: Option<&str>) -> Option<Seq<char>> {
    match answer {
        Some(s) => Some(s@),
        None => None,
    }
}

pub(crate) fn says_yes(answer: Option<&str>) -> (r: bool)
    ensures
        r == affirms(answer_view(answer)),
{
    match answer {
        Some(s) => {
            let chars = chars_of(s);
            let short = chars_of("y");
            let long = chars_of("yes");
            is_alike(chars.as_slice(), short.as_slice()) || is_alike(
                chars.as_slice(),
                long.as_slice(),
            )
        },
        None => false,
    }
}

fn chosen_option(answer: Option<&str>, count: usize) -> (r: Option<usize>)
    ensures
        option_index(answer_view(answer), count as nat) == (match r {
            Some(i) => Some(i as nat),
            None => None,
        }),
{
    match answer {
        Some(s) => {
            let chars = chars_of(s);
            match parse_index(trimmed(chars.as_slice())) {
                Some(n) => if 1 <= n && n <= count {
                    Some(n - 1)
                } else {
                    None
                },
                None => None,
            }
        },
        None => None,
    }
}

fn single(key: &str, value: Json) -> (r: Json)
    ensures
        r@ == Tree::Object(seq![(key@, value@)]),
{
    let mut fields: Vec<(String, Json)> = Vec::new();
    assert(fields_view(fields@) =~= Seq::empty());
    add_field(&mut fields, key, value);
    assert(fields_view(fields@) =~= seq![(key@, value@)]);
    object(fields)
}

pub(crate) fn cancelled() -> (r: Json)
    ensures
        r@ == cancelled_tree(),
{
    single("cancelled", Json::Flag(true))
}

/// What is asked, if anything is.
pub fn question(event: &Json) -> (r: Option<String>)
    ensures
        text_view(r) == question_of(event@),
{
    let title = event.text_or("title", "Pi request");
    if event.says("method", "confirm") {
        let message = event.text_or("message", "");
        return Some(cat5("\r\n[pi] ", title, ": ", message, " [y/N] "));
    }
    if event.says("method", "select") {
        let options = match event.at("options").as_list() {
            Some(options) => options,
            None => {
                return None;
            },
        };
        let ghost trees = event@.at("options"@).list()->0;
        let mut shown = copy("");
        let mut i: usize = 0;
        while i < options.len()
            invariant
                i <= options@.len(),
                trees.len() == options@.len(),
                forall|j: int| 0 <= j < options@.len() ==> (#[trigger] options@[j])@ == trees[j],
                shown@ == option_rows(trees, i as nat),
            decreases options@.len() - i,
        {
            let label = match options[i].as_text() {
                Some(label) => label,
                None => "?",
            };
            let row = cat5("  ", decimal_text((i as u64) + 1).as_str(), ". ", label, "\r\n");
            shown.append(row.as_str());
            i = i + 1;
        }
        return Some(
            cat5(
                "\r\n[pi] ",
                title,
                "\r\n",
                shown.as_str(),
                "Choose a number (Enter to cancel): ",
            ),
        );
    }
    if event.says("method", "input") || event.says("method", "editor") {
        let hint = match event.text_at("placeholder") {
            Some(hint) => hint,
            None => event.text_or("prefill", ""),
        };
        return Some(cat5("\r\n[pi] ", title, " ", hint, ": "));
    }
    None
}

/// What an answer to the question means.
pub fn response_for(event: &Json, answer: Option<&str>) -> (r: Json)
    ensures
        r@ == response_of(event@, answer_view(answer)),
{
    if event.says("method", "confirm") {
        return single("confirmed", Json::Flag(says_yes(answer)));
    }
    if event.says("method", "select") {
        if let Some(options) = event.at("options").as_list() {
            if let Some(i) = chosen_option(answer, options.len()) {
                if let Some(value) = options[i].as_text() {
                    return single("value", text(value));
                }
            }
        }
        return cancelled();
    }
    if event.says("method", "input") || event.says("method", "editor") {
        if let Some(value) = answer {
            if chars_of(value).len() > 0 {
                return single("value", text(value));
            }
        }
        return cancelled();
    }
    cancelled()
}

fn take_over(fields: &mut Vec<(String, Json)>, response: &Json, key: &str)
    ensures
        fields_view(final(fields)@) == taken_over(fields_view(old(fields)@), response@, key@),
{
    if let Some(value) = response.get(key) {
        add_field(fields, key, value.copy());
    }
}

/// The record that answers the question.
pub fn reply(event: &Json, response: &Json) -> (r: Json)
    ensures
        r@ == reply_of(event@, response@),
{
    let mut fields: Vec<(String, Json)> = Vec::new();
    assert(fields_view(fields@) =~= Seq::empty());
    add_field(&mut fields, "type", text("extension_ui_response"));
    add_field(&mut fields, "id", event.at("id").copy());
    assert(fields_view(fields@) =~= seq![
        ("type"@, Tree::Text("extension_ui_response"@)),
        ("id"@, event@.at("id"@)),
    ]);
    take_over(&mut fields, response, "cancelled");
    take_over(&mut fields, response, "confirmed");
    take_over(&mut fields, response, "value");
    object(fields)
}

// ---------------------------------------------------------------------------
// Handling
// ---------------------------------------------------------------------------

/// What an event of an extension asks of the caller.
pub enum DialogStep {
    Ignore,
    /// Something to show.
    Show(String),
    /// A line for the diagnostic stream.
    Notice(String),
    /// Nobody can answer: what is shown, and the record to send.
    Cancelled(String, String),
    /// Ask the question, if there is one; an approval has its time.
    Ask(Option<String>, Option<u64>),
}

/// What a [`DialogStep`] says.
pub enum DialogView {
    Ignore,
    Show(Seq<char>),
    Notice(Seq<char>),
    Cancelled(Seq<char>, Seq<char>),
    Ask(Option<Seq<char>>, Option<u64>),
}

impl View for DialogStep {
    type V = DialogView;

    open spec fn view(&self) -> DialogView {
        match *self {
            DialogStep::Ignore => DialogView::Ignore,
            DialogStep::Show(line) => DialogView::Show(line@),
            DialogStep::Notice(line) => DialogView::Notice(line@),
            DialogStep::Cancelled(line, record) => DialogView::Cancelled(line@, record@),
            DialogStep::Ask(question, timeout) => DialogView::Ask(text_view(question), timeout),
        }
    }
}

/// The record to send for an answer.
pub open spec fn reply_line(e: Tree, response: Tree) -> Seq<char> {
    printed(reply_of(e, response)) + "\n"@
}

/// A question about a tool that needs approval.
pub open spec fn approval(e: Tree) -> bool {
    e.says("method"@, "select"@) && (e.text_at("title"@) matches Some(title) && starts(
        title,
        "Approval needed:"@,
    ))
}

/// How long an approval may be pending.
pub open spec fn approval_time(e: Tree) -> u64 {
    match e.at("timeout"@).natural() {
        Some(n) => if n < APPROVAL_LIMIT {
            n
        } else {
            APPROVAL_LIMIT
        },
        None => APPROVAL_LIMIT,
    }
}

/// What an event of an extension asks of the caller. Only a real terminal can
/// answer; without one every question is cancelled.
pub open spec fn handled(e: Tree, interactive: bool) -> DialogView {
    if e.says("type"@, "extension_error"@) {
        let error = error_text(
            error_of(ErrorSource::Extension, e.text_or("error"@, "Extension failed"@)),
        );
        if interactive {
            DialogView::Show("\n  · Warning: "@ + error + "\n"@)
        } else {
            DialogView::Notice("pi: "@ + error)
        }
    } else if !e.says("type"@, "extension_ui_request"@) {
        DialogView::Ignore
    } else if e.says("method"@, "notify"@) {
        DialogView::Show("[pi: "@ + safe_text(e.text_or("message"@, "notification"@)) + "]\n"@)
    } else if !(e.says("method"@, "select"@) || e.says("method"@, "confirm"@) || e.says(
        "method"@,
        "input"@,
    ) || e.says("method"@, "editor"@)) {
        DialogView::Ignore
    } else if interactive {
        DialogView::Ask(
            question_of(e),
            if approval(e) {
                Some(approval_time(e))
            } else {
                None
            },
        )
    } else {
        DialogView::Cancelled(
            "[pi dialog cancelled: no interactive terminal]\n"@,
            reply_line(e, cancelled_tree()),
        )
    }
}

/// The questions of extensions.
pub struct Dialogs;

impl Dialogs {
    /// What an event of an extension asks of the caller.
    pub fn handle(&self, event: &Json, interactive: bool) -> (r: DialogStep)
        ensures
            r@ == handled(event@, interactive),
    {
        if event.says("type", "extension_error") {
            let error = ChatError::new(
                ErrorSource::Extension,
                event.text_or("error", "Extension failed"),
            ).display();
            if interactive {
                return DialogStep::Show(cat3("\n  · Warning: ", error.as_str(), "\n"));
            }
            return DialogStep::Notice(cat2("pi: ", error.as_str()));
        }
        if !event.says("type", "extension_ui_request") {
            return DialogStep::Ignore;
        }
        if event.says("method", "notify") {
            let message = safe_message(event.text_or("message", "notification"));
            return DialogStep::Show(cat3("[pi: ", message.as_str(), "]\n"));
        }
        if !(event.says("method", "select") || event.says("method", "confirm") || event.says(
            "method",
            "input",
        ) || event.says("method", "editor")) {
            return DialogStep::Ignore;
        }
        if !interactive {
            let record = encode(&reply(event, &cancelled()));
            return DialogStep::Cancelled(
                copy("[pi dialog cancelled: no interactive terminal]\n"),
                cat2(record.as_str(), "\n"),
            );
        }
        let mut timeout: Option<u64> = None;
        if event.says("method", "select") {
            if let Some(title) = event.text_at("title") {
                let chars = chars_of(title);
                if starts_text(chars.as_slice(), "Approval needed:") {
                    timeout = Some(
                        match event.at("timeout").as_natural() {
                            Some(n) => if n < APPROVAL_LIMIT {
                                n
                            } else {
                                APPROVAL_LIMIT
                            },
                            None => APPROVAL_LIMIT,
                        },
                    );
                }
            }
        }
        DialogStep::Ask(question(event), timeout)
    }

    /// The record to send for the answer that was given.
    pub fn answer(&self, event: &Json, answer: Option<&str>) -> (out: String)
        ensures
            out@ == reply_line(event@, response_of(event@, answer_view(answer))),
    {
        let response = response_for(event, answer);
        let record = encode(&reply(event, &response));
        cat2(record.as_str(), "\n")
    }
}

// ---------------------------------------------------------------------------
// Approval
// ---------------------------------------------------------------------------

/// An approval that is being typed: one digit, then Enter.
pub struct Approval {
    pub choice: Option<u8>,
}

/// What a key does to an approval.
#[derive(Clone, Copy, Debug, PartialEq, Eq, Structural)]
pub enum ApprovalStep {
    /// It goes on; the digit that the terminal shows.
    Echo(u8),
    /// It goes on; the digit is erased.
    Erase,
    Wait,
    /// It is over: the digit that was chosen, if any.
    Done(Option<u8>),
    /// It was refused.
    Denied,
}

/// Enter takes what was chosen; Escape, Ctrl+C, Ctrl+D and the end of the time
/// (`None`) refuse; Backspace takes the choice back.
pub open spec fn approval_step(choice: Option<u8>, key: Option<u8>) -> (Option<u8>, ApprovalStep) {
    match key {
        None => (choice, ApprovalStep::Denied),
        Some(k) => if k == 13 || k == 10 {
            (choice, ApprovalStep::Done(choice))
        } else if k == 27 || k == 3 || k == 4 {
            (choice, ApprovalStep::Denied)
        } else if k == 8 || k == 127 {
            (None, ApprovalStep::Erase)
        } else if 49 <= k <= 51 {
            (Some(k), ApprovalStep::Echo(k))
        } else {
            (choice, ApprovalStep::Wait)
        },
    }
}

impl Approval {
    pub fn new() -> (r: Self)
        ensures
            r.choice is None,
    {
        Approval { choice: None }
    }

    /// Take a key, or that none came in time.
    pub fn key(&mut self, key: Option<u8>) -> (r: ApprovalStep)
        ensures
            (final(self).choice, r) == approval_step(old(self).choice, key),
    {
        match key {
            None => ApprovalStep::Denied,
            Some(k) => if k == 13 || k == 10 {
                ApprovalStep::Done(self.choice)
            } else if k == 27 || k == 3 || k == 4 {
                ApprovalStep::Denied
            } else if k == 8 || k == 127 {
                self.choice = None;
                ApprovalStep::Erase
            } else if 49 <= k && k <= 51 {
                self.choice = Some(k);
                ApprovalStep::Echo(k)
            } else {
                ApprovalStep::Wait
            },
        }
    }
}

// ---------------------------------------------------------------------------
// Laws
// ---------------------------------------------------------------------------

/// Without a terminal nothing is approved: every question is answered with a
/// cancellation, whatever was piped in.
pub proof fn law_no_terminal_no_approval(e: Tree)
    requires
        handled(e, false) is Cancelled,
    ensures
        handled(e, false)->Cancelled_1 == reply_line(e, cancelled_tree()),
        reply_of(e, cancelled_tree()).get("confirmed"@) is None,
        reply_of(e, cancelled_tree()).get("value"@) is None,
        reply_of(e, cancelled_tree()).flagged("cancelled"@, true),
        reply_of(e, cancelled_tree()).at("id"@) == e.at("id"@),
{
    reveal_strlit("cancelled");
    reveal_strlit("confirmed");
    reveal_strlit("value");
    reveal_strlit("type");
    reveal_strlit("id");
    reveal_with_fuel(crate::json::entry, 4);
    assert("confirmed"@[1] == 'o');
    assert("cancelled"@[1] == 'a');
    assert("value"@.len() == 5);
    assert("type"@.len() == 4);
    assert("id"@.len() == 2);
    assert("cancelled"@.len() == 9);
    let c = cancelled_tree()->Object_0;
    assert(c.drop_first() =~= Seq::empty());
    let f = reply_of(e, cancelled_tree())->Object_0;
    assert(f =~= seq![
        ("type"@, Tree::Text("extension_ui_response"@)),
        ("id"@, e.at("id"@)),
        ("cancelled"@, Tree::Flag(true)),
    ]);
    assert(f.drop_first() =~= seq![("id"@, e.at("id"@)), ("cancelled"@, Tree::Flag(true))]);
    assert(f.drop_first().drop_first() =~= seq![("cancelled"@, Tree::Flag(true))]);
    assert(f.drop_first().drop_first().drop_first() =~= Seq::empty());
}

/// A confirmation defaults to no: no answer, and any answer but a yes, is a
/// refusal.
pub proof fn law_confirmation_defaults_to_no(e: Tree, answer: Option<Seq<char>>)
    requires
        e.says("method"@, "confirm"@),
        !affirms(answer),
    ensures
        response_of(e, answer) == Tree::Object(seq![("confirmed"@, Tree::Flag(false))]),
{
}

/// A selection yields only one of the options that were offered.
pub proof fn law_selection_is_an_option(e: Tree, answer: Option<Seq<char>>)
    requires
        e.says("method"@, "select"@),
        response_of(e, answer) != cancelled_tree(),
    ensures
        e.at("options"@).list() matches Some(options) && exists|i: int|
            0 <= i < options.len() && (#[trigger] options[i]).text() is Some && response_of(
                e,
                answer,
            ) == value_tree(options[i].text()->0),
{
    reveal_strlit("select");
    reveal_strlit("confirm");
    assert("select"@.len() != "confirm"@.len());
    let options = e.at("options"@).list()->0;
    let i = option_index(answer, options.len())->0;
    assert(options[i as int].text() is Some);
}

/// An approval is granted only by a digit that was typed and then confirmed:
/// where nothing was chosen, no key grants it.
pub proof fn law_approval_defaults_to_deny(key: Option<u8>)
    ensures
        approval_step(None, key).1 matches ApprovalStep::Done(choice) ==> choice is None,
        approval_step(None, None).1 == ApprovalStep::Denied,
        approval_step(None, Some(27)).1 == ApprovalStep::Denied,
{
}

/// The number of an option chooses it, with or without blanks around it.
pub proof fn law_numbers_choose_their_option(e: Tree, line: Seq<char>, i: nat)
    requires
        e.says("method"@, "select"@),
        e.at("options"@).list() is Some,
        i < e.at("options"@).list()->0.len() <= usize::MAX,
        e.at("options"@).list()->0[i as int].text() is Some,
        trim(line) == decimal(i + 1),
    ensures
        response_of(e, Some(line)).says(
            "value"@,
            e.at("options"@).list()->0[i as int].text()->0,
        ),
{
    reveal_strlit("select");
    reveal_strlit("confirm");
    assert("select"@.len() == 6 && "confirm"@.len() == 7);
    crate::number::law_numbers_read_back(i + 1, usize::MAX as nat);
    reveal_with_fuel(crate::json::entry, 2);
}

/// A confirmation is given by `y` and `yes`, in whatever case, and by nothing
/// else.
pub proof fn law_only_yes_confirms(s: Seq<char>)
    ensures
        affirms(Some(s)) <==> (s.len() == 1 && (s[0] == 'y' || s[0] == 'Y')) || (s.len() == 3 && (
        s[0] == 'y' || s[0] == 'Y') && (s[1] == 'e' || s[1] == 'E') && (s[2] == 's' || s[2]
            == 'S')),
        !affirms(None),
{
    reveal_strlit("y");
    reveal_strlit("yes");
    assert("y"@.len() == 1 && "y"@[0] == 'y');
    assert("yes"@.len() == 3 && "yes"@[0] == 'y' && "yes"@[1] == 'e' && "yes"@[2] == 's');
    if s.len() == 3 {
        lemma_lower(s[0]);
        lemma_lower(s[1]);
        lemma_lower(s[2]);
        if (s[0] == 'y' || s[0] == 'Y') && (s[1] == 'e' || s[1] == 'E') && (s[2] == 's' || s[2]
            == 'S') {
            assert(alike(s, "yes"@));
        }
        if alike(s, "yes"@) {
            assert(ascii_lower(s[0]) == ascii_lower("yes"@[0]));
            assert(ascii_lower(s[1]) == ascii_lower("yes"@[1]));
            assert(ascii_lower(s[2]) == ascii_lower("yes"@[2]));
        }
    }
    if s.len() == 1 {
        lemma_lower(s[0]);
        if alike(s, "y"@) {
            assert(ascii_lower(s[0]) == ascii_lower("y"@[0]));
        }
    }
}

proof fn lemma_lower(c: char)
    ensures
        ascii_lower(c) == 'y' <==> c == 'y' || c == 'Y',
        ascii_lower(c) == 'e' <==> c == 'e' || c == 'E',
        ascii_lower(c) == 's' <==> c == 's' || c == 'S',
{
}

/// A confirmation says what the answer was, and a text is handed over as it
/// was typed; an empty one is none.
pub proof fn law_answers_are_handed_over(e: Tree, answer: Seq<char>)
    ensures
        e.says("method"@, "confirm"@) ==> response_of(e, Some(answer)).flagged(
            "confirmed"@,
            affirms(Some(answer)),
        ),
        (e.says("method"@, "input"@) || e.says("method"@, "editor"@)) && answer.len() > 0
            ==> response_of(e, Some(answer)).says("value"@, answer),
        (e.says("method"@, "input"@) || e.says("method"@, "editor"@)) ==> response_of(e, None)
            == cancelled_tree(),
{
    reveal_strlit("input");
    reveal_strlit("editor");
    reveal_strlit("select");
    reveal_strlit("confirm");
    assert("input"@.len() == 5 && "editor"@.len() == 6 && "select"@.len() == 6
        && "confirm"@.len() == 7);
    assert("editor"@[0] == 'e' && "select"@[0] == 's');
    reveal_with_fuel(crate::json::entry, 2);
}

/// A reply is about the question it answers, and says what the answer says.
pub proof fn law_replies_carry_the_answer(e: Tree, value: Seq<char>, flag: bool)
    ensures
        reply_of(e, value_tree(value)).says("value"@, value),
        reply_of(e, value_tree(value)).at("id"@) == e.at("id"@),
        reply_of(e, value_tree(value)).says("type"@, "extension_ui_response"@),
        reply_of(e, value_tree(value)).get("cancelled"@) is None,
        reply_of(e, Tree::Object(seq![("confirmed"@, Tree::Flag(flag))])).flagged(
            "confirmed"@,
            flag,
        ),
        reply_of(e, Tree::Object(seq![("confirmed"@, Tree::Flag(flag))])).at("id"@) == e.at("id"@),
{
    reveal_strlit("type");
    reveal_strlit("id");
    reveal_strlit("cancelled");
    reveal_strlit("confirmed");
    reveal_strlit("value");
    assert("type"@.len() == 4 && "id"@.len() == 2 && "cancelled"@.len() == 9
        && "confirmed"@.len() == 9 && "value"@.len() == 5);
    assert("cancelled"@[1] == 'a' && "confirmed"@[1] == 'o');
    reveal_with_fuel(crate::json::entry, 4);
}

/// Every option has a row of its own in the question, with its number.
pub proof fn law_every_option_is_asked_about(options: Seq<Tree>, option: Tree, label: Seq<char>)
    requires
        option.text() == Some(label),
    ensures
        option_rows(options.push(option), options.len() + 1) == option_rows(
            options,
            options.len(),
        ) + ("  "@ + decimal(options.len() + 1) + ". "@ + label + "\r\n"@),
{
    lemma_option_rows(options, option, options.len());
}

proof fn lemma_option_rows(options: Seq<Tree>, option: Tree, n: nat)
    requires
        n <= options.len(),
    ensures
        option_rows(options.push(option), n) == option_rows(options, n),
    decreases n,
{
    if n > 0 {
        lemma_option_rows(options, option, (n - 1) as nat);
    }
}

/// A confirmation asks with the title and the message of the question.
pub proof fn law_questions_say_what_they_are_about(e: Tree, title: Seq<char>, message: Seq<char>)
    requires
        e.says("title"@, title),
        e.says("message"@, message),
        e.says("method"@, "confirm"@),
    ensures
        question_of(e) == Some("\r\n[pi] "@ + title + ": "@ + message + " [y/N] "@),
{
}

/// In an approval a digit is chosen, erased or replaced, and Enter hands out
/// the one that was typed last; Escape and the end of the input refuse.
pub proof fn law_approvals_take_the_last_digit(choice: Option<u8>, k: u8)
    ensures
        49 <= k <= 51 ==> approval_step(choice, Some(k)).0 == Some(k),
        k == 127 || k == 8 ==> approval_step(choice, Some(k)).0 is None,
        k == 13 || k == 10 ==> approval_step(choice, Some(k)).1 == ApprovalStep::Done(choice),
        k == 27 || k == 3 || k == 4 ==> approval_step(choice, Some(k)).1 == ApprovalStep::Denied,
        !(49 <= k <= 51) && k != 127 && k != 8 ==> approval_step(choice, Some(k)).0 == choice,
{
}

/// An approval in line mode has at most a minute, and less where less was
/// asked for.
pub proof fn law_approvals_have_a_minute(e: Tree)
    ensures
        approval_time(e) <= 60_000,
        e.at("timeout"@).natural() matches Some(n) && n <= 60_000 ==> approval_time(e)
            == e.at("timeout"@).natural()->0,
{
}

/// What an extension tells is shown, what it asks is asked where somebody can
/// answer, and everything else is passed over.
pub proof fn law_extensions_are_heard(e: Tree, interactive: bool, message: Seq<char>)
    ensures
        e.says("type"@, "extension_ui_request"@) && e.says("method"@, "notify"@) && e.says(
            "message"@,
            message,
        ) ==> handled(e, interactive) == DialogView::Show(
            "[pi: "@ + safe_text(message) + "]\n"@,
        ),
        e.says("type"@, "extension_ui_request"@) && e.says("method"@, "confirm"@) ==> handled(
            e,
            true,
        ) is Ask && handled(e, true)->Ask_0 == question_of(e),
        e.says("type"@, "extension_ui_request"@) && e.says("method"@, "select"@) ==> handled(
            e,
            true,
        ) is Ask,
        e.says("type"@, "extension_ui_request"@) && e.says("method"@, "input"@) ==> handled(e, true)
            is Ask,
        e.says("type"@, "extension_ui_request"@) && e.says("method"@, "editor"@) ==> handled(
            e,
            true,
        ) is Ask,
        e.says("type"@, "extension_error"@) && e.says("error"@, message) ==> handled(e, true)
            == DialogView::Show(
            "\n  · Warning: "@ + error_text(error_of(ErrorSource::Extension, message)) + "\n"@,
        ),
        e.says("type"@, "extension_error"@) && e.says("error"@, message) ==> handled(e, false)
            == DialogView::Notice(
            "pi: "@ + error_text(error_of(ErrorSource::Extension, message)),
        ),
        !e.says("type"@, "extension_ui_request"@) && !e.says("type"@, "extension_error"@)
            ==> handled(e, interactive) == DialogView::Ignore,
{
    reveal_strlit("extension_ui_request");
    reveal_strlit("extension_error");
    reveal_strlit("notify");
    reveal_strlit("select");
    reveal_strlit("confirm");
    reveal_strlit("input");
    reveal_strlit("editor");
    assert("extension_ui_request"@.len() == 20 && "extension_error"@.len() == 15);
    assert("notify"@.len() == 6 && "notify"@[0] == 'n');
    assert("select"@[0] == 's' && "confirm"@[0] == 'c' && "input"@[0] == 'i' && "editor"@[0]
        == 'e');
}

}
