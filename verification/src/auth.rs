//! Signing in to Codex through a helper that speaks records.
use crate::error::text_view;
use crate::json::{
    add_field, decode, encode, fields_view, object, parsed, printed, text, Json, Tree,
};
use crate::keys::Navigation;
use crate::lines::texts;
use crate::number::{decimal, decimal_text};
use crate::text::{
    any_control, cat2, cat3, chars_of, clean_prefix, copy, digit, first_n, has_control, is_digit,
    is_letter, lemma_clean_text, letter, same_chars, starts, starts_text, text_of, trim, trimmed, without_controls,
};
use vstd::prelude::*;
use vstd::utf8::encode_utf8;

verus! {

/// How a sign-in ended.
#[derive(Clone, Copy, Debug, PartialEq, Eq, Structural)]
pub enum AuthOutcome {
    Success,
    Cancelled,
    Failed,
    Unavailable,
}

// ---------------------------------------------------------------------------
// The installed version
// ---------------------------------------------------------------------------

/// A character of a version.
pub open spec fn version_char(c: char) -> bool {
    is_letter(c) || is_digit(c) || c == '.' || c == '_' || c == '+' || c == '-'
}

/// The name of a release directory: it stays below its parent.
pub open spec fn release_name(version: Seq<char>) -> bool {
    &&& version.len() > 0
    &&& version != "."@
    &&& version != ".."@
    &&& forall|i: int| 0 <= i < version.len() ==> version_char(#[trigger] version[i])
}

/// The release that a version file names, if it names one safely.
pub fn managed_version(contents: &str) -> (r: Option<String>)
    ensures
        match r {
            Some(version) => release_name(trim(contents@)) && version@ == trim(contents@),
            None => !release_name(trim(contents@)),
        },
{
    let chars = chars_of(contents);
    let version = trimmed(chars.as_slice());
    let dot = chars_of(".");
    let dots = chars_of("..");
    if version.len() == 0 || same_chars(version, dot.as_slice()) || same_chars(
        version,
        dots.as_slice(),
    ) {
        return None;
    }
    let mut i: usize = 0;
    while i < version.len()
        invariant
            i <= version@.len(),
            version@ == trim(contents@),
            forall|j: int| 0 <= j < i ==> version_char(#[trigger] version@[j]),
        decreases version@.len() - i,
    {
        let c = version[i];
        if !(letter(c) || digit(c) || c == '.' || c == '_' || c == '+' || c == '-') {
            assert(!version_char(version@[i as int]));
            return None;
        }
        i = i + 1;
    }
    Some(text_of(version))
}

// ---------------------------------------------------------------------------
// Notices
// ---------------------------------------------------------------------------

/// An address that may be offered as a link: over https, of bounded length,
/// without control characters.
pub open spec fn safe_url(url: Seq<char>) -> bool {
    starts(url, "https://"@) && encode_utf8(url).len() <= 16_384 && !has_control(url)
}

pub fn is_safe_url(url: &str) -> (r: bool)
    ensures
        r == safe_url(url@),
{
    let chars = chars_of(url);
    starts_text(chars.as_slice(), "https://") && url.as_bytes().len() <= 16_384 && !any_control(
        chars.as_slice(),
    )
}

/// The text of a field as it is shown: at most 2048 characters, none of them
/// a control character.
pub open spec fn shown_field(record: Tree, key: Seq<char>) -> Option<Seq<char>> {
    match record.text_at(key) {
        Some(text) => Some(first_n(without_controls(text), 2048)),
        None => None,
    }
}

fn show_field(record: &Json, key: &str) -> (r: Option<String>)
    ensures
        text_view(r) == shown_field(record@, key@),
{
    match record.text_at(key) {
        Some(text) => Some(clean_prefix(text, 2048)),
        None => None,
    }
}

/// A line for a field, or nothing where it is missing.
pub open spec fn field_line(record: Tree, key: Seq<char>, start: Seq<char>) -> Seq<char> {
    match shown_field(record, key) {
        Some(text) => start + text + "\n"@,
        None => ""@,
    }
}

fn show_line(record: &Json, key: &str, start: &str) -> (out: String)
    ensures
        out@ == field_line(record@, key@, start@),
{
    match show_field(record, key) {
        Some(text) => cat3(start, text.as_str(), "\n"),
        None => copy(""),
    }
}

/// The link that a notice offers, where it is safe.
pub open spec fn offered_link(record: Tree) -> Option<Seq<char>> {
    match record.text_at("url"@) {
        Some(url) => if record.says("kind"@, "auth_url"@) && safe_url(url) {
            Some(url)
        } else {
            None
        },
        None => None,
    }
}

/// What a notice says. The address itself is never part of it.
pub open spec fn notice_of(record: Tree) -> Seq<char> {
    if record.says("kind"@, "auth_url"@) {
        if offered_link(record) is Some {
            "  · Open Codex sign-in ↗ (Ctrl+click; Ctrl+Y to copy link)\n  · If the WSL callback fails, paste the redirect URL into the masked composer.\n"@
        } else {
            "  · Could not display a safe Codex sign-in URL. Cancel and use Pi /login.\n"@
        }
    } else if record.says("kind"@, "device_code"@) {
        field_line(record, "verificationUri"@, "  · Visit: "@) + field_line(
            record,
            "userCode"@,
            "  · Enter device code: "@,
        )
    } else {
        field_line(record, "message"@, "  · Codex: "@)
    }
}

/// A notice: the link to offer, where it has a safe one, and what is shown.
pub fn show_notice(record: &Json) -> (r: (Option<String>, String))
    ensures
        text_view(r.0) == offered_link(record@),
        r.1@ == notice_of(record@),
{
    if record.says("kind", "auth_url") {
        if let Some(url) = record.text_at("url") {
            if is_safe_url(url) {
                return (
                    Some(copy(url)),
                    copy(
                        "  · Open Codex sign-in ↗ (Ctrl+click; Ctrl+Y to copy link)\n  · If the WSL callback fails, paste the redirect URL into the masked composer.\n",
                    ),
                );
            }
        }
        return (
            None,
            copy(
                "  · Could not display a safe Codex sign-in URL. Cancel and use Pi /login.\n",
            ),
        );
    }
    if record.says("kind", "device_code") {
        let address = show_line(record, "verificationUri", "  · Visit: ");
        let code = show_line(record, "userCode", "  · Enter device code: ");
        return (None, cat2(address.as_str(), code.as_str()));
    }
    (None, show_line(record, "message", "  · Codex: "))
}

// ---------------------------------------------------------------------------
// The course of a sign-in
// ---------------------------------------------------------------------------

/// What a record of the helper asks of the caller.
pub enum AuthStep {
    Ignore,
    /// Offer this link, if any, and show this.
    Notice(Option<String>, String),
    /// Let one of the labels be chosen; the answer is the identifier of the
    /// choice, where it has one.
    Select(u64, Vec<String>, Vec<Option<String>>),
    /// Show this and ask for a text; whether it is masked.
    Ask(u64, String, bool),
    Done(AuthOutcome),
    Invalid(&'static str),
}

/// What an [`AuthStep`] says.
pub enum AuthView {
    Ignore,
    Notice(Option<Seq<char>>, Seq<char>),
    Select(u64, Seq<Seq<char>>, Seq<Option<Seq<char>>>),
    Ask(u64, Seq<char>, bool),
    Done(AuthOutcome),
    Invalid(Seq<char>),
}

pub open spec fn option_views(values: Seq<Option<String>>) -> Seq<Option<Seq<char>>> {
    Seq::new(values.len(), |i: int| text_view(values[i]))
}

impl View for AuthStep {
    type V = AuthView;

    open spec fn view(&self) -> AuthView {
        match *self {
            AuthStep::Ignore => AuthView::Ignore,
            AuthStep::Notice(link, line) => AuthView::Notice(text_view(link), line@),
            AuthStep::Select(id, labels, values) => AuthView::Select(
                id,
                texts(labels@),
                option_views(values@),
            ),
            AuthStep::Ask(id, line, secret) => AuthView::Ask(id, line@, secret),
            AuthStep::Done(outcome) => AuthView::Done(outcome),
            AuthStep::Invalid(message) => AuthView::Invalid(message@),
        }
    }
}

/// What the caller asks for: one of some options, or a text, which is masked
/// unless the helper says that it is plain.
pub open spec fn prompted(record: Tree) -> AuthView {
    match record.at("id"@).natural() {
        None => AuthView::Invalid("invalid auth prompt id"@),
        Some(id) => if record.says("kind"@, "select"@) {
            match record.at("options"@).list() {
                None => AuthView::Invalid("invalid auth options"@),
                Some(options) => AuthView::Select(
                    id,
                    Seq::new(options.len(), |i: int| options[i].text_or("label"@, "option"@)),
                    Seq::new(options.len(), |i: int| options[i].text_at("id"@)),
                ),
            }
        } else {
            AuthView::Ask(
                id,
                "  · "@ + first_n(
                    without_controls(
                        record.text_or("message"@, "Enter Codex authorization response:"@),
                    ),
                    300,
                ) + "\n"@,
                !record.says("kind"@, "text"@),
            )
        },
    }
}

/// What a record of the helper asks of the caller. Only the helper's own word
/// that it is done ends a sign-in with success.
pub open spec fn auth_step(record: Tree) -> AuthView {
    if record.says("type"@, "notice"@) {
        AuthView::Notice(offered_link(record), notice_of(record))
    } else if record.says("type"@, "prompt"@) {
        prompted(record)
    } else if record.says("type"@, "done"@) {
        AuthView::Done(
            if record.flagged("success"@, true) {
                AuthOutcome::Success
            } else {
                AuthOutcome::Failed
            },
        )
    } else {
        AuthView::Ignore
    }
}

fn prompt(record: &Json) -> (r: AuthStep)
    ensures
        r@ == prompted(record@),
{
    let id: u64 = match record.at("id").as_natural() {
        Some(id) => id,
        None => {
            return AuthStep::Invalid("invalid auth prompt id");
        },
    };
    if record.says("kind", "select") {
        let options = match record.at("options").as_list() {
            Some(options) => options,
            None => {
                return AuthStep::Invalid("invalid auth options");
            },
        };
        let ghost trees = record@.at("options"@).list()->0;
        let mut labels: Vec<String> = Vec::new();
        let mut values: Vec<Option<String>> = Vec::new();
        let mut i: usize = 0;
        while i < options.len()
            invariant
                i <= options@.len(),
                trees.len() == options@.len(),
                forall|j: int| 0 <= j < options@.len() ==> (#[trigger] options@[j])@ == trees[j],
                labels@.len() == i,
                values@.len() == i,
                forall|j: int|
                    0 <= j < i ==> (#[trigger] labels@[j])@ == trees[j].text_or(
                        "label"@,
                        "option"@,
                    ),
                forall|j: int|
                    0 <= j < i ==> text_view(#[trigger] values@[j]) == trees[j].text_at("id"@),
            decreases options@.len() - i,
        {
            labels.push(copy(options[i].text_or("label", "option")));
            let value = match options[i].text_at("id") {
                Some(value) => Some(copy(value)),
                None => None,
            };
            values.push(value);
            i = i + 1;
        }
        assert(texts(labels@) =~= prompted(record@)->Select_1);
        assert(option_views(values@) =~= prompted(record@)->Select_2);
        return AuthStep::Select(id, labels, values);
    }
    let question = clean_prefix(
        record.text_or("message", "Enter Codex authorization response:"),
        300,
    );
    AuthStep::Ask(id, cat3("  · ", question.as_str(), "\n"), !record.says("kind", "text"))
}

/// A line of the helper as a record.
pub fn helper_record(line: &str) -> (r: Result<Json, &'static str>)
    ensures
        match r {
            Ok(record) => parsed(encode_utf8(line@)) == Some(record@),
            Err(reason) => parsed(encode_utf8(line@)) is None && reason@
                == "invalid auth helper record"@,
        },
{
    match decode(line.as_bytes()) {
        Some(record) => Ok(record),
        None => Err("invalid auth helper record"),
    }
}

/// What a record of the helper asks of the caller.
pub fn on_auth_record(record: &Json) -> (r: AuthStep)
    ensures
        r@ == auth_step(record@),
{
    if record.says("type", "notice") {
        let (link, line) = show_notice(record);
        AuthStep::Notice(link, line)
    } else if record.says("type", "prompt") {
        prompt(record)
    } else if record.says("type", "done") {
        AuthStep::Done(
            if record.flagged("success", true) {
                AuthOutcome::Success
            } else {
                AuthOutcome::Failed
            },
        )
    } else {
        AuthStep::Ignore
    }
}

/// What a key does while the helper works.
#[derive(Clone, Copy, Debug, PartialEq, Eq, Structural)]
pub enum AuthKey {
    Ignored,
    /// Offer the link to the clipboard.
    CopyLink,
    Cancel,
}

/// What a key does while the helper works: Ctrl+Y copies the link, and Escape
/// cancels. `nav` is what an escape sequence stands for.
pub fn on_auth_key(key: u8, nav: Navigation) -> (r: AuthKey)
    ensures
        r == if key == 25 {
            AuthKey::CopyLink
        } else if key == 27 && (nav == Navigation::Escape || nav is EscapeWith) {
            AuthKey::Cancel
        } else {
            AuthKey::Ignored
        },
{
    if key == 25 {
        return AuthKey::CopyLink;
    }
    if key == 27 {
        match nav {
            Navigation::Escape => {
                return AuthKey::Cancel;
            },
            Navigation::EscapeWith(_) => {
                return AuthKey::Cancel;
            },
            _ => {},
        }
    }
    AuthKey::Ignored
}

/// What follows the answer to a prompt.
pub enum AuthReply {
    /// Send this line.
    Send(String),
    /// Something else came from the helper meanwhile: go on with that.
    Proceed,
    /// Send this line and end the sign-in as cancelled.
    Cancel(String),
}

/// What an [`AuthReply`] says.
pub enum ReplyView {
    Send(Seq<char>),
    Proceed,
    Cancel(Seq<char>),
}

impl View for AuthReply {
    type V = ReplyView;

    open spec fn view(&self) -> ReplyView {
        match *self {
            AuthReply::Send(line) => ReplyView::Send(line@),
            AuthReply::Proceed => ReplyView::Proceed,
            AuthReply::Cancel(line) => ReplyView::Cancel(line@),
        }
    }
}

pub open spec fn cancel_record() -> Tree {
    Tree::Object(seq![("type"@, Tree::Text("cancel"@))])
}

pub open spec fn answer_record(id: u64, value: Seq<char>) -> Tree {
    Tree::Object(
        seq![
            ("type"@, Tree::Text("answer"@)),
            ("id"@, Tree::Number(decimal(id as nat), Some(id))),
            ("value"@, Tree::Text(value)),
        ],
    )
}

/// An answer is sent. Without one the sign-in is cancelled, unless the helper
/// itself has taken the question back.
pub open spec fn auth_reply(id: u64, answer: Option<Seq<char>>, superseded: bool) -> ReplyView {
    match answer {
        Some(value) => ReplyView::Send(printed(answer_record(id, value)) + "\n"@),
        None => if superseded {
            ReplyView::Proceed
        } else {
            ReplyView::Cancel(printed(cancel_record()) + "\n"@)
        },
    }
}

/// The line that tells the helper to stop.
pub fn cancel_line() -> (out: String)
    ensures
        out@ == printed(cancel_record()) + "\n"@,
{
    let mut fields: Vec<(String, Json)> = Vec::new();
    assert(fields_view(fields@) =~= Seq::empty());
    add_field(&mut fields, "type", text("cancel"));
    assert(fields_view(fields@) =~= seq![("type"@, Tree::Text("cancel"@))]);
    cat2(encode(&object(fields)).as_str(), "\n")
}

/// What follows the answer to the prompt `id`; `superseded` says whether the
/// helper sent something else meanwhile.
pub fn reply_to_prompt(id: u64, answer: Option<&str>, superseded: bool) -> (r: AuthReply)
    ensures
        r@ == auth_reply(
            id,
            match answer {
                Some(value) => Some(value@),
                None => None,
            },
            superseded,
        ),
{
    match answer {
        Some(value) => {
            let mut fields: Vec<(String, Json)> = Vec::new();
            assert(fields_view(fields@) =~= Seq::empty());
            add_field(&mut fields, "type", text("answer"));
            add_field(&mut fields, "id", Json::Number(decimal_text(id), Some(id)));
            add_field(&mut fields, "value", text(value));
            let record = object(fields);
            assert(record@->Object_0 =~= answer_record(id, value@)->Object_0);
            AuthReply::Send(cat2(encode(&record).as_str(), "\n"))
        },
        None => if superseded {
            AuthReply::Proceed
        } else {
            AuthReply::Cancel(cancel_line())
        },
    }
}

// ---------------------------------------------------------------------------
// Laws
// ---------------------------------------------------------------------------

/// A release name cannot leave its directory: it holds no slash, and is
/// neither the directory itself nor its parent.
pub proof fn law_release_names_do_not_traverse(version: Seq<char>)
    requires
        release_name(version),
    ensures
        !version.contains('/'),
        version != "."@,
        version != ".."@,
{
    if version.contains('/') {
        let i = choose|i: int| 0 <= i < version.len() && version[i] == '/';
        assert(version_char(version[i]));
    }
}

/// A sign-in succeeds only where the helper says that it is done and that it
/// succeeded.
pub proof fn law_success_is_reported_by_the_helper(record: Tree)
    requires
        auth_step(record) == AuthView::Done(AuthOutcome::Success),
    ensures
        record.says("type"@, "done"@),
        record.flagged("success"@, true),
{
}

/// A text that the helper asks for is masked, unless it says that it is plain.
pub proof fn law_answers_are_masked(record: Tree)
    requires
        auth_step(record) is Ask,
        !record.says("kind"@, "text"@),
    ensures
        auth_step(record)->Ask_2,
{
}

/// Only a safe address is ever offered as a link.
pub proof fn law_links_are_safe(record: Tree)
    requires
        offered_link(record) is Some,
    ensures
        safe_url(offered_link(record)->0),
{
}

/// A sign-in ends when the helper says so: well where it succeeded, and else
/// as failed.
pub proof fn law_the_helper_ends_the_sign_in(record: Tree)
    requires
        record.says("type"@, "done"@),
    ensures
        record.flagged("success"@, true) ==> auth_step(record) == AuthView::Done(
            AuthOutcome::Success,
        ),
        !record.flagged("success"@, true) ==> auth_step(record) == AuthView::Done(
            AuthOutcome::Failed,
        ),
{
    reveal_strlit("done");
    reveal_strlit("notice");
    reveal_strlit("prompt");
    assert("done"@.len() == 4 && "notice"@.len() == 6 && "prompt"@.len() == 6);
}

/// What the helper offers to choose from is offered, in its order, and each
/// name stands for its own identifier.
pub proof fn law_helper_options_are_offered(record: Tree, id: u64, i: int)
    requires
        record.says("type"@, "prompt"@),
        record.says("kind"@, "select"@),
        record.at("id"@).natural() == Some(id),
        record.at("options"@).list() is Some,
        0 <= i < record.at("options"@).list()->0.len(),
    ensures
        ({
            let options = record.at("options"@).list()->0;
            let step = auth_step(record);
            &&& step is Select
            &&& step->Select_0 == id
            &&& step->Select_1.len() == options.len()
            &&& step->Select_2.len() == options.len()
            &&& step->Select_2[i] == options[i].text_at("id"@)
            &&& options[i].text_at("label"@) is Some ==> step->Select_1[i] == options[i].text_at(
                "label"@,
            )->0
        }),
{
    reveal_strlit("notice");
    reveal_strlit("prompt");
    assert("notice"@[0] == 'n' && "prompt"@[0] == 'p');
}

/// An answer is sent as it was given, to the question it answers; without one
/// the sign-in is cancelled, unless the helper went on by itself.
pub proof fn law_answers_go_to_their_question(id: u64, value: Seq<char>)
    ensures
        answer_record(id, value).says("type"@, "answer"@),
        answer_record(id, value).says("value"@, value),
        answer_record(id, value).at("id"@).natural() == Some(id),
        auth_reply(id, Some(value), false) == ReplyView::Send(
            printed(answer_record(id, value)) + seq!['\n'],
        ),
        auth_reply(id, None, false) == ReplyView::Cancel(printed(cancel_record()) + seq!['\n']),
        auth_reply(id, None, true) == ReplyView::Proceed,
        cancel_record().says("type"@, "cancel"@),
{
    reveal_strlit("type");
    reveal_strlit("id");
    reveal_strlit("value");
    reveal_strlit("\n");
    assert("\n"@ =~= seq!['\n']);
    assert("type"@.len() == 4 && "id"@.len() == 2 && "value"@.len() == 5);
    reveal_with_fuel(crate::json::entry, 4);
}

/// A safe address is offered as a link, and the code of a device is shown
/// with where to enter it.
pub proof fn law_notices_say_what_to_do(record: Tree, url: Seq<char>, code: Seq<char>)
    ensures
        record.says("kind"@, "auth_url"@) && record.says("url"@, url) && safe_url(url)
            ==> offered_link(record) == Some(url),
        record.says("kind"@, "device_code"@) && record.says("verificationUri"@, url)
            && record.says("userCode"@, code) && url.len() <= 2048 && code.len() <= 2048
            && !has_control(url) && !has_control(code) ==> notice_of(record) == "  · Visit: "@ + url
            + "\n"@ + ("  · Enter device code: "@ + code + "\n"@),
{
    reveal_strlit("auth_url");
    reveal_strlit("device_code");
    assert("auth_url"@.len() == 8 && "device_code"@.len() == 11);
    if !has_control(url) && !has_control(code) {
        lemma_clean_text(url);
        lemma_clean_text(code);
    }
}

}
