//! Errors are classified for presentation only. Pi owns retry policy; strings
//! never decide whether a connection is usable or a prompt is replayed.
use crate::lines::{join, join_rows, rows, split_words, words};
use crate::text::{
    cat2, cat3, chars_of, contains, contains_text, control, copy, first_n, has_white, is_control,
    slice_copy,
    spaced, text_of,
};
use vstd::prelude::*;
use vstd::utf8::encode_utf8;

verus! {

#[derive(Clone, Copy, Debug, PartialEq, Eq, Structural)]
pub enum ErrorSource {
    Command,
    Assistant,
    Compaction,
    Extension,
    Transport,
    Protocol,
    Local,
}

#[derive(Clone, Copy, Debug, PartialEq, Eq, Structural)]
pub enum ErrorCategory {
    Authentication,
    Access,
    Billing,
    RateLimit,
    Unavailable,
    Network,
    ContextLimit,
    InvalidRequest,
    Cancelled,
    Unknown,
}

#[derive(Clone, Copy, Debug, PartialEq, Eq, Structural)]
pub enum RecoveryAction {
    KeepChatting,
    Reconnect,
}

#[derive(Debug)]
pub struct ChatError {
    pub source: ErrorSource,
    pub category: ErrorCategory,
    pub message: String,
    pub command_id: Option<String>,
}

/// What a [`ChatError`] holds.
pub struct ErrorView {
    pub source: ErrorSource,
    pub category: ErrorCategory,
    pub message: Seq<char>,
    pub command_id: Option<Seq<char>>,
}

/// The contents of an optional text.
pub open spec fn text_view(text: Option<String>) -> Option<Seq<char>> {
    match text {
        Some(text) => Some(text@),
        None => None,
    }
}

impl View for ChatError {
    type V = ErrorView;

    open spec fn view(&self) -> ErrorView {
        ErrorView {
            source: self.source,
            category: self.category,
            message: self.message@,
            command_id: text_view(self.command_id),
        }
    }
}

// ---------------------------------------------------------------------------
// Lower case
// ---------------------------------------------------------------------------

/// The lower case form that `str::to_lowercase` gives.
pub uninterp spec fn lowercase(text: Seq<char>) -> Seq<char>;

/// `str::to_lowercase` maps a text to its lower case form by the Unicode
/// tables; the form depends on the text alone.
#[verifier::external_body]
fn to_lower(text: &str) -> (out: String)
    ensures
        out@ == lowercase(text@),
{
    text.to_lowercase()
}

// ---------------------------------------------------------------------------
// Classification
// ---------------------------------------------------------------------------

pub open spec fn mentions_billing(s: Seq<char>) -> bool {
    ||| contains(s, "insufficient_quota"@)
    ||| contains(s, "billing"@)
    ||| contains(s, "subscription"@)
    ||| contains(s, "quota exceeded"@)
    ||| contains(s, "out of budget"@)
    ||| contains(s, "available balance"@)
    ||| contains(s, "monthly usage limit"@)
    ||| contains(s, "gousagelimiterror"@)
    ||| contains(s, "freeusagelimiterror"@)
}

pub open spec fn mentions_context(s: Seq<char>) -> bool {
    ||| contains(s, "context window"@)
    ||| contains(s, "context length"@)
    ||| contains(s, "context_length"@)
    ||| contains(s, "context limit"@)
    ||| contains(s, "too many tokens"@)
    ||| contains(s, "prompt is too long"@)
    ||| contains(s, "context overflow"@)
}

pub open spec fn mentions_authentication(s: Seq<char>) -> bool {
    ||| contains(s, "unauthorized"@)
    ||| contains(s, "invalid api key"@)
    ||| contains(s, "api key not found"@)
    ||| contains(s, "no api key"@)
    ||| contains(s, "authentication"@)
    ||| contains(s, "token expired"@)
    ||| contains(s, "expired token"@)
    ||| contains(s, "401"@)
}

pub open spec fn mentions_access(s: Seq<char>) -> bool {
    ||| contains(s, "forbidden"@)
    ||| contains(s, "permission denied"@)
    ||| contains(s, "access denied"@)
    ||| contains(s, "403"@)
}

pub open spec fn mentions_rate(s: Seq<char>) -> bool {
    ||| contains(s, "rate limit"@)
    ||| contains(s, "rate_limit"@)
    ||| contains(s, "too many requests"@)
    ||| contains(s, "429"@)
    ||| contains(s, "resourceexhausted"@)
}

pub open spec fn mentions_unavailable(s: Seq<char>) -> bool {
    ||| contains(s, "overloaded"@)
    ||| contains(s, "high demand"@)
    ||| contains(s, "unavailable"@)
    ||| contains(s, "500"@)
    ||| contains(s, "502"@)
    ||| contains(s, "503"@)
    ||| contains(s, "504"@)
    ||| contains(s, "529"@)
    ||| contains(s, "server error"@)
}

pub open spec fn mentions_network(s: Seq<char>) -> bool {
    ||| contains(s, "network"@)
    ||| contains(s, "connection"@)
    ||| contains(s, "fetch failed"@)
    ||| contains(s, "enotfound"@)
    ||| contains(s, "eai_again"@)
    ||| contains(s, "timeout"@)
    ||| contains(s, "timed out"@)
    ||| contains(s, "socket"@)
    ||| contains(s, "terminated"@)
    ||| contains(s, "stream ended"@)
}

pub open spec fn mentions_invalid(s: Seq<char>) -> bool {
    ||| contains(s, "invalid request"@)
    ||| contains(s, "unsupported"@)
    ||| contains(s, "no model"@)
    ||| contains(s, "model not found"@)
    ||| contains(s, "400"@)
    ||| contains(s, "404"@)
    ||| contains(s, "413"@)
}

/// The category of a message, given its lower case form. Billing wins over
/// throttling; context overflow wins over transient wording.
pub open spec fn category_of(lower: Seq<char>) -> ErrorCategory {
    if mentions_billing(lower) {
        ErrorCategory::Billing
    } else if mentions_context(lower) {
        ErrorCategory::ContextLimit
    } else if mentions_authentication(lower) {
        ErrorCategory::Authentication
    } else if mentions_access(lower) {
        ErrorCategory::Access
    } else if mentions_rate(lower) {
        ErrorCategory::RateLimit
    } else if mentions_unavailable(lower) {
        ErrorCategory::Unavailable
    } else if mentions_network(lower) {
        ErrorCategory::Network
    } else if mentions_invalid(lower) {
        ErrorCategory::InvalidRequest
    } else {
        ErrorCategory::Unknown
    }
}

/// The category of a message whose lower case form is `lower`.
pub fn classify_lower(lower: &str) -> (r: ErrorCategory)
    ensures
        r == category_of(lower@),
{
    let s = chars_of(lower);
    let s = s.as_slice();
    if contains_text(s, "insufficient_quota") || contains_text(s, "billing") || contains_text(
        s,
        "subscription",
    ) || contains_text(s, "quota exceeded") || contains_text(s, "out of budget") || contains_text(
        s,
        "available balance",
    ) || contains_text(s, "monthly usage limit") || contains_text(s, "gousagelimiterror")
        || contains_text(s, "freeusagelimiterror") {
        ErrorCategory::Billing
    } else if contains_text(s, "context window") || contains_text(s, "context length")
        || contains_text(s, "context_length") || contains_text(s, "context limit")
        || contains_text(s, "too many tokens") || contains_text(s, "prompt is too long")
        || contains_text(s, "context overflow") {
        ErrorCategory::ContextLimit
    } else if contains_text(s, "unauthorized") || contains_text(s, "invalid api key")
        || contains_text(s, "api key not found") || contains_text(s, "no api key") || contains_text(
        s,
        "authentication",
    ) || contains_text(s, "token expired") || contains_text(s, "expired token") || contains_text(
        s,
        "401",
    ) {
        ErrorCategory::Authentication
    } else if contains_text(s, "forbidden") || contains_text(s, "permission denied")
        || contains_text(s, "access denied") || contains_text(s, "403") {
        ErrorCategory::Access
    } else if contains_text(s, "rate limit") || contains_text(s, "rate_limit") || contains_text(
        s,
        "too many requests",
    ) || contains_text(s, "429") || contains_text(s, "resourceexhausted") {
        ErrorCategory::RateLimit
    } else if contains_text(s, "overloaded") || contains_text(s, "high demand") || contains_text(
        s,
        "unavailable",
    ) || contains_text(s, "500") || contains_text(s, "502") || contains_text(s, "503")
        || contains_text(s, "504") || contains_text(s, "529") || contains_text(s, "server error") {
        ErrorCategory::Unavailable
    } else if contains_text(s, "network") || contains_text(s, "connection") || contains_text(
        s,
        "fetch failed",
    ) || contains_text(s, "enotfound") || contains_text(s, "eai_again") || contains_text(
        s,
        "timeout",
    ) || contains_text(s, "timed out") || contains_text(s, "socket") || contains_text(
        s,
        "terminated",
    ) || contains_text(s, "stream ended") {
        ErrorCategory::Network
    } else if contains_text(s, "invalid request") || contains_text(s, "unsupported")
        || contains_text(s, "no model") || contains_text(s, "model not found") || contains_text(
        s,
        "400",
    ) || contains_text(s, "404") || contains_text(s, "413") {
        ErrorCategory::InvalidRequest
    } else {
        ErrorCategory::Unknown
    }
}

pub fn classify(message: &str) -> (r: ErrorCategory)
    ensures
        r == category_of(lowercase(message@)),
{
    let lower = to_lower(message);
    classify_lower(lower.as_str())
}

// ---------------------------------------------------------------------------
// Safe details
// ---------------------------------------------------------------------------

/// A word that announces a credential, by its lower case form.
pub open spec fn credential(lower: Seq<char>) -> bool {
    ||| contains(lower, "authorization"@)
    ||| contains(lower, "bearer"@)
    ||| contains(lower, "api_key"@)
    ||| contains(lower, "apikey"@)
    ||| contains(lower, "api-key"@)
    ||| contains(lower, "access_token"@)
    ||| contains(lower, "refresh_token"@)
    ||| contains(lower, "password"@)
    ||| contains(lower, "secret"@)
}

/// A word that must not be shown, by itself and its lower case form.
pub open spec fn revealing(word: Seq<char>, lower: Seq<char>) -> bool {
    ||| credential(lower)
    ||| contains(lower, "http://"@)
    ||| contains(lower, "https://"@)
    ||| contains(lower, "sk-"@)
    ||| encode_utf8(word).len() > 120
}

/// The words to show: a word that reveals something, and the word after one
/// that announces a credential, are replaced.
pub open spec fn redacted(ws: Seq<Seq<char>>, lowers: Seq<Seq<char>>) -> Seq<Seq<char>> {
    Seq::new(
        ws.len(),
        |i: int|
            if revealing(ws[i], lowers[i]) || (i > 0 && credential(lowers[i - 1])) {
                "[redacted]"@
            } else {
                ws[i]
            },
    )
}

/// The lower case forms of some words.
pub open spec fn lowered(ws: Seq<Seq<char>>) -> Seq<Seq<char>> {
    Seq::new(ws.len(), |i: int| lowercase(ws[i]))
}

/// The words of a message that may be shown: those of its first 4096
/// characters, each control character read as a space.
pub open spec fn message_words(message: Seq<char>) -> Seq<Seq<char>> {
    words(spaced(first_n(message, 4096)))
}

/// Bounded, single-line, terminal-safe detail.
pub open spec fn detail(shown: Seq<Seq<char>>) -> Seq<char> {
    let text = join(shown, " "@);
    if text.len() == 0 {
        "Unknown Pi error"@
    } else {
        first_n(text, 600)
    }
}

/// What is shown of a message.
pub open spec fn safe_text(message: Seq<char>) -> Seq<char> {
    let ws = message_words(message);
    detail(redacted(ws, lowered(ws)))
}

fn announces(lower: &[char]) -> (r: bool)
    ensures
        r == credential(lower@),
{
    contains_text(lower, "authorization") || contains_text(lower, "bearer") || contains_text(
        lower,
        "api_key",
    ) || contains_text(lower, "apikey") || contains_text(lower, "api-key") || contains_text(
        lower,
        "access_token",
    ) || contains_text(lower, "refresh_token") || contains_text(lower, "password") || contains_text(
        lower,
        "secret",
    )
}

fn reveals(word: &[char], lower: &[char]) -> (r: bool)
    ensures
        r == revealing(word@, lower@),
{
    announces(lower) || contains_text(lower, "http://") || contains_text(lower, "https://")
        || contains_text(lower, "sk-") || text_of(word).as_str().as_bytes().len() > 120
}

/// The words to show, given the lower case form of each.
pub fn redact_words(ws: &Vec<Vec<char>>, lowers: &Vec<Vec<char>>) -> (out: Vec<Vec<char>>)
    requires
        ws@.len() == lowers@.len(),
    ensures
        rows(out@) == redacted(rows(ws@), rows(lowers@)),
{
    let mut out: Vec<Vec<char>> = Vec::new();
    let mut redact_next = false;
    let mut i: usize = 0;
    while i < ws.len()
        invariant
            i <= ws@.len(),
            ws@.len() == lowers@.len(),
            out@.len() == i,
            redact_next == (i > 0 && credential(lowers@[i - 1]@)),
            forall|j: int|
                0 <= j < i ==> rows(out@)[j] == #[trigger] redacted(rows(ws@), rows(lowers@))[j],
        decreases ws@.len() - i,
    {
        let ghost before = out@;
        if redact_next || reveals(ws[i].as_slice(), lowers[i].as_slice()) {
            out.push(chars_of("[redacted]"));
        } else {
            out.push(slice_copy(ws[i].as_slice()));
        }
        redact_next = announces(lowers[i].as_slice());
        i = i + 1;
        assert forall|j: int| 0 <= j < i implies rows(out@)[j] == #[trigger] redacted(
            rows(ws@),
            rows(lowers@),
        )[j] by {
            if j < i - 1 {
                assert(rows(out@)[j] == rows(before)[j]);
            }
        }
    }
    assert(rows(out@) =~= redacted(rows(ws@), rows(lowers@)));
    out
}

/// The first `n` characters, each control character read as a space.
fn spaced_prefix(text: &str, n: usize) -> (out: Vec<char>)
    ensures
        out@ == spaced(first_n(text@, n as nat)),
{
    let chars = chars_of(text);
    let mut out: Vec<char> = Vec::new();
    let mut i: usize = 0;
    while i < chars.len() && i < n
        invariant
            i <= chars@.len(),
            i <= n,
            out@.len() == i,
            forall|j: int|
                0 <= j < i ==> out@[j] == if is_control(chars@[j]) {
                    ' '
                } else {
                    chars@[j]
                },
        decreases chars@.len() - i,
    {
        if control(chars[i]) {
            out.push(' ');
        } else {
            out.push(chars[i]);
        }
        i = i + 1;
    }
    assert(out@ =~= spaced(first_n(text@, n as nat)));
    out
}

/// Bounded, single-line, terminal-safe detail of a message. Drops addresses
/// and common representations of credentials.
pub fn safe_message(message: &str) -> (out: String)
    ensures
        out@ == safe_text(message@),
{
    let cleaned = spaced_prefix(message, 4096);
    let ws = split_words(cleaned.as_slice());
    let mut lowers: Vec<Vec<char>> = Vec::new();
    let mut i: usize = 0;
    while i < ws.len()
        invariant
            i <= ws@.len(),
            lowers@.len() == i,
            forall|j: int| 0 <= j < i ==> (#[trigger] lowers@[j])@ == lowercase(ws@[j]@),
        decreases ws@.len() - i,
    {
        let word = text_of(ws[i].as_slice());
        let lower = to_lower(word.as_str());
        lowers.push(chars_of(lower.as_str()));
        i = i + 1;
    }
    assert(rows(lowers@) =~= lowered(rows(ws@)));
    let shown = redact_words(&ws, &lowers);
    let text = join_rows(&shown, " ");
    if text.len() == 0 {
        return copy("Unknown Pi error");
    }
    if text.len() > 600 {
        let part = vstd::slice::slice_subrange(text.as_slice(), 0, 600);
        assert(part@ =~= text@.take(600));
        text_of(part)
    } else {
        text_of(text.as_slice())
    }
}

// ---------------------------------------------------------------------------
// Errors
// ---------------------------------------------------------------------------

/// The error for `message`, with its category and its safe detail.
pub open spec fn error_of(source: ErrorSource, message: Seq<char>) -> ErrorView {
    ErrorView {
        source,
        category: category_of(lowercase(message)),
        message: safe_text(message),
        command_id: None,
    }
}

/// What recovers from an error of this source.
pub open spec fn recovery_of(source: ErrorSource) -> RecoveryAction {
    match source {
        ErrorSource::Transport | ErrorSource::Protocol => RecoveryAction::Reconnect,
        _ => RecoveryAction::KeepChatting,
    }
}

/// The advice for an error.
pub open spec fn hint_of(source: ErrorSource, category: ErrorCategory) -> Seq<char> {
    if recovery_of(source) == RecoveryAction::Reconnect {
        "Pi disconnected. The last operation's outcome may be unknown. Use /reconnect; nothing is resent automatically."@
    } else if source == ErrorSource::Local {
        "Check the local configuration or command input. You can keep chatting."@
    } else {
        match category {
            ErrorCategory::Authentication => "Use /login or check your Pi credentials."@,
            ErrorCategory::Access => "Check model access or choose another model with /models."@,
            ErrorCategory::Billing => "Check provider billing/subscription/quota, or switch with /models."@,
            ErrorCategory::RateLimit => "Pi has finished its automatic work. Wait before retrying, or use /models."@,
            ErrorCategory::Unavailable | ErrorCategory::Network => "Check connectivity or provider availability; you can retry later or use /models."@,
            ErrorCategory::ContextLimit => "Reduce the prompt, choose a larger-context model, or start /new."@,
            ErrorCategory::InvalidRequest => "Check your request, image support, or selected model."@,
            ErrorCategory::Cancelled => "You can keep chatting."@,
            ErrorCategory::Unknown => "You can keep chatting or choose another model with /models."@,
        }
    }
}

pub open spec fn source_name_of(source: ErrorSource) -> Seq<char> {
    match source {
        ErrorSource::Command => "Command"@,
        ErrorSource::Assistant => "Assistant"@,
        ErrorSource::Compaction => "Compaction"@,
        ErrorSource::Extension => "Extension"@,
        ErrorSource::Transport => "Transport"@,
        ErrorSource::Protocol => "Protocol"@,
        ErrorSource::Local => "Local"@,
    }
}

pub open spec fn category_name_of(category: ErrorCategory) -> Seq<char> {
    match category {
        ErrorCategory::Authentication => "Authentication"@,
        ErrorCategory::Access => "Access"@,
        ErrorCategory::Billing => "Billing"@,
        ErrorCategory::RateLimit => "RateLimit"@,
        ErrorCategory::Unavailable => "Unavailable"@,
        ErrorCategory::Network => "Network"@,
        ErrorCategory::ContextLimit => "ContextLimit"@,
        ErrorCategory::InvalidRequest => "InvalidRequest"@,
        ErrorCategory::Cancelled => "Cancelled"@,
        ErrorCategory::Unknown => "Unknown"@,
    }
}

impl ErrorSource {
    /// The name of the source.
    pub fn name(self) -> (r: &'static str)
        ensures
            r@ == source_name_of(self),
    {
        match self {
            ErrorSource::Command => "Command",
            ErrorSource::Assistant => "Assistant",
            ErrorSource::Compaction => "Compaction",
            ErrorSource::Extension => "Extension",
            ErrorSource::Transport => "Transport",
            ErrorSource::Protocol => "Protocol",
            ErrorSource::Local => "Local",
        }
    }
}

impl ErrorCategory {
    /// The name of the category.
    pub fn name(self) -> (r: &'static str)
        ensures
            r@ == category_name_of(self),
    {
        match self {
            ErrorCategory::Authentication => "Authentication",
            ErrorCategory::Access => "Access",
            ErrorCategory::Billing => "Billing",
            ErrorCategory::RateLimit => "RateLimit",
            ErrorCategory::Unavailable => "Unavailable",
            ErrorCategory::Network => "Network",
            ErrorCategory::ContextLimit => "ContextLimit",
            ErrorCategory::InvalidRequest => "InvalidRequest",
            ErrorCategory::Cancelled => "Cancelled",
            ErrorCategory::Unknown => "Unknown",
        }
    }
}

/// What an error says of itself.
pub open spec fn error_text(error: ErrorView) -> Seq<char> {
    source_name_of(error.source) + ": "@ + error.message
}

impl ChatError {
    pub fn new(source: ErrorSource, message: &str) -> (r: Self)
        ensures
            r@ == error_of(source, message@),
    {
        ChatError {
            source,
            category: classify(message),
            message: safe_message(message),
            command_id: None,
        }
    }

    pub fn cancelled(command: &str) -> (r: Self)
        ensures
            r@ == (ErrorView {
                category: ErrorCategory::Cancelled,
                ..error_of(ErrorSource::Command, "Cancelled "@ + command@)
            }),
    {
        let text = cat2("Cancelled ", command);
        let mut error = Self::new(ErrorSource::Command, text.as_str());
        error.category = ErrorCategory::Cancelled;
        error
    }

    pub fn recovery(&self) -> (r: RecoveryAction)
        ensures
            r == recovery_of(self.source),
    {
        match self.source {
            ErrorSource::Transport | ErrorSource::Protocol => RecoveryAction::Reconnect,
            _ => RecoveryAction::KeepChatting,
        }
    }

    pub fn hint(&self) -> (r: &'static str)
        ensures
            r@ == hint_of(self.source, self.category),
    {
        if self.recovery() == RecoveryAction::Reconnect {
            return "Pi disconnected. The last operation's outcome may be unknown. Use /reconnect; nothing is resent automatically.";
        }
        if self.source == ErrorSource::Local {
            return "Check the local configuration or command input. You can keep chatting.";
        }
        match self.category {
            ErrorCategory::Authentication => "Use /login or check your Pi credentials.",
            ErrorCategory::Access => "Check model access or choose another model with /models.",
            ErrorCategory::Billing => "Check provider billing/subscription/quota, or switch with /models.",
            ErrorCategory::RateLimit => "Pi has finished its automatic work. Wait before retrying, or use /models.",
            ErrorCategory::Unavailable | ErrorCategory::Network => "Check connectivity or provider availability; you can retry later or use /models.",
            ErrorCategory::ContextLimit => "Reduce the prompt, choose a larger-context model, or start /new.",
            ErrorCategory::InvalidRequest => "Check your request, image support, or selected model.",
            ErrorCategory::Cancelled => "You can keep chatting.",
            ErrorCategory::Unknown => "You can keep chatting or choose another model with /models.",
        }
    }

    /// What the error says of itself: its source and its detail.
    pub fn display(&self) -> (out: String)
        ensures
            out@ == error_text(self@),
    {
        cat3(self.source.name(), ": ", self.message.as_str())
    }

    /// A copy of the error.
    pub fn copy(&self) -> (r: Self)
        ensures
            r@ == self@,
    {
        ChatError {
            source: self.source,
            category: self.category,
            message: self.message.clone(),
            command_id: match &self.command_id {
                Some(id) => Some(id.clone()),
                None => None,
            },
        }
    }
}

/// A failure of this program itself, described by `error`.
pub fn local(error: &str) -> (r: ChatError)
    ensures
        r@ == error_of(ErrorSource::Local, error@),
{
    ChatError::new(ErrorSource::Local, error)
}

/// A failure of the connection, described by `error`.
pub fn transport(error: &str) -> (r: ChatError)
    ensures
        r@ == error_of(ErrorSource::Transport, "Pi connection failed: "@ + error@),
{
    let text = cat2("Pi connection failed: ", error);
    ChatError::new(ErrorSource::Transport, text.as_str())
}

/// A record that breaks the protocol.
pub fn protocol(message: &str) -> (r: ChatError)
    ensures
        r@ == error_of(ErrorSource::Protocol, message@),
{
    ChatError::new(ErrorSource::Protocol, message)
}

// ---------------------------------------------------------------------------
// Laws
// ---------------------------------------------------------------------------

/// Wording about billing or quota decides the category, whatever else the
/// message says.
pub proof fn law_billing_wins(lower: Seq<char>)
    requires
        mentions_billing(lower),
    ensures
        category_of(lower) == ErrorCategory::Billing,
{
}

/// A category never decides how to recover: only a broken connection or a
/// broken protocol asks for a new connection.
pub proof fn law_recovery_ignores_wording(source: ErrorSource, a: Seq<char>, b: Seq<char>)
    ensures
        recovery_of(error_of(source, a).source) == recovery_of(error_of(source, b).source),
        recovery_of(error_of(source, a).source) == RecoveryAction::Reconnect <==> (source
            == ErrorSource::Transport || source == ErrorSource::Protocol),
{
}

proof fn lemma_join_no_control(parts: Seq<Seq<char>>, sep: Seq<char>)
    requires
        forall|i: int, j: int|
            0 <= i < parts.len() && 0 <= j < parts[i].len() ==> !is_control(#[trigger] parts[i][j]),
        forall|j: int| 0 <= j < sep.len() ==> !is_control(#[trigger] sep[j]),
    ensures
        forall|j: int|
            0 <= j < join(parts, sep).len() ==> !is_control(#[trigger] join(parts, sep)[j]),
    decreases parts.len(),
{
    if parts.len() > 1 {
        let front = parts.drop_last();
        assert forall|i: int, j: int|
            0 <= i < front.len() && 0 <= j < front[i].len() implies !is_control(
            #[trigger] front[i][j],
        ) by {
            assert(front[i][j] == parts[i][j]);
        }
        lemma_join_no_control(front, sep);
        let a = join(front, sep);
        assert forall|j: int| 0 <= j < join(parts, sep).len() implies !is_control(
            #[trigger] join(parts, sep)[j],
        ) by {
            if j < a.len() {
                assert(join(parts, sep)[j] == a[j]);
            } else if j < a.len() + sep.len() {
                assert(join(parts, sep)[j] == sep[j - a.len()]);
            } else {
                assert(join(parts, sep)[j] == parts[parts.len() - 1][j - a.len() - sep.len()]);
            }
        }
    } else if parts.len() == 1 {
        assert forall|j: int| 0 <= j < join(parts, sep).len() implies !is_control(
            #[trigger] join(parts, sep)[j],
        ) by {
            assert(join(parts, sep)[j] == parts[0][j]);
        }
    }
}

proof fn lemma_words_from(s: Seq<char>, i: int, j: int)
    requires
        0 <= i < words(s).len(),
        0 <= j < words(s)[i].len(),
    ensures
        s.contains(words(s)[i][j]),
    decreases s.len(),
{
    let t = crate::text::trim_start(s);
    crate::lines::lemma_trim_start(s);
    crate::lines::lemma_word_len(t);
    let k = crate::lines::word_len(t) as int;
    let off = s.len() - t.len();
    if i == 0 {
        assert(words(s)[0][j] == t[j]);
        assert(t[j] == s[off + j]);
    } else {
        assert(words(s)[i] == words(t.skip(k))[i - 1]);
        lemma_words_from(t.skip(k), i - 1, j);
        let c = words(s)[i][j];
        let m = choose|m: int| 0 <= m < t.skip(k).len() && t.skip(k)[m] == c;
        assert(s[off + k + m] == c);
    }
}

/// What is shown of any message is not empty, has at most 600 characters and
/// holds no control character (and so stays on one line).
pub proof fn law_details_bounded_and_safe(message: Seq<char>)
    ensures
        0 < safe_text(message).len() <= 600,
        forall|i: int|
            0 <= i < safe_text(message).len() ==> !is_control(#[trigger] safe_text(message)[i]),
{
    let ws = message_words(message);
    let source = spaced(first_n(message, 4096));
    let shown = redacted(ws, lowered(ws));
    reveal_strlit("[redacted]");
    reveal_strlit("Unknown Pi error");
    reveal_strlit(" ");
    assert forall|i: int, j: int| 0 <= i < shown.len() && 0 <= j < shown[i].len() implies !is_control(
        #[trigger] shown[i][j],
    ) by {
        if shown[i] == ws[i] {
            lemma_words_from(source, i, j);
            let m = choose|m: int| 0 <= m < source.len() && source[m] == shown[i][j];
            assert(!is_control(source[m]));
        }
    }
    lemma_join_no_control(shown, " "@);
}

/// No word of the shown detail is one that reveals a credential or an
/// address: every such word, and every word after one that announces a
/// credential, is shown as `[redacted]`.
pub proof fn law_revealing_words_are_redacted(message: Seq<char>, i: int)
    requires
        0 <= i < message_words(message).len(),
        revealing(message_words(message)[i], lowercase(message_words(message)[i])) || (i > 0
            && credential(lowercase(message_words(message)[i - 1]))),
    ensures
        redacted(message_words(message), lowered(message_words(message)))[i] == "[redacted]"@,
{
}

/// Each category has its words; the earlier ones win.
pub proof fn law_words_decide_the_category(lower: Seq<char>)
    ensures
        contains(lower, "billing"@) || contains(lower, "insufficient_quota"@) ==> category_of(lower)
            == ErrorCategory::Billing,
        !mentions_billing(lower) && contains(lower, "context window"@) ==> category_of(lower)
            == ErrorCategory::ContextLimit,
        !mentions_billing(lower) && !mentions_context(lower) && (contains(lower, "401"@)
            || contains(lower, "invalid api key"@) || contains(lower, "unauthorized"@))
            ==> category_of(lower) == ErrorCategory::Authentication,
        !mentions_billing(lower) && !mentions_context(lower) && !mentions_authentication(lower)
            && (contains(lower, "403"@) || contains(lower, "permission denied"@)) ==> category_of(
            lower,
        ) == ErrorCategory::Access,
        !mentions_billing(lower) && !mentions_context(lower) && !mentions_authentication(lower)
            && !mentions_access(lower) && (contains(lower, "429"@) || contains(
            lower,
            "rate limit"@,
        )) ==> category_of(lower) == ErrorCategory::RateLimit,
        !mentions_billing(lower) && !mentions_context(lower) && !mentions_authentication(lower)
            && !mentions_access(lower) && !mentions_rate(lower) && (contains(lower, "503"@)
            || contains(lower, "overloaded"@)) ==> category_of(lower)
            == ErrorCategory::Unavailable,
        !mentions_billing(lower) && !mentions_context(lower) && !mentions_authentication(lower)
            && !mentions_access(lower) && !mentions_rate(lower) && !mentions_unavailable(lower)
            && (contains(lower, "network"@) || contains(lower, "timed out"@)) ==> category_of(lower)
            == ErrorCategory::Network,
{
}

/// What reveals nothing is shown: every other word stands as it was written.
pub proof fn law_other_words_are_shown(message: Seq<char>, i: int)
    requires
        0 <= i < message_words(message).len(),
        !revealing(message_words(message)[i], lowercase(message_words(message)[i])),
        i > 0 ==> !credential(lowercase(message_words(message)[i - 1])),
    ensures
        redacted(message_words(message), lowered(message_words(message)))[i] == message_words(
            message,
        )[i],
        redacted(message_words(message), lowered(message_words(message))).len() == message_words(
            message,
        ).len(),
{
}

/// A message that reveals nothing is shown as its words, up to 600 characters
/// of them.
pub proof fn law_harmless_messages_are_shown(message: Seq<char>)
    requires
        message_words(message).len() > 0,
        forall|i: int|
            0 <= i < message_words(message).len() ==> !revealing(
                #[trigger] message_words(message)[i],
                lowercase(message_words(message)[i]),
            ),
    ensures
        safe_text(message) == first_n(join(message_words(message), " "@), 600),
{
    let ws = message_words(message);
    let shown = redacted(ws, lowered(ws));
    assert forall|i: int| 0 <= i < ws.len() implies shown[i] == ws[i] by {
        if i > 0 {
            assert(!revealing(ws[i - 1], lowercase(ws[i - 1])));
        }
    }
    assert(shown =~= ws);
    crate::lines::law_words_make_up_the_text(spaced(first_n(message, 4096)));
    assert(ws[0].len() > 0);
    lemma_join_begins(ws);
}

proof fn lemma_join_begins(parts: Seq<Seq<char>>)
    requires
        parts.len() > 0,
        parts[0].len() > 0,
    ensures
        join(parts, " "@).len() > 0,
    decreases parts.len(),
{
    if parts.len() > 1 {
        lemma_join_begins(parts.drop_last());
    }
}

/// A short message of one word that reveals nothing is shown as it is.
pub proof fn law_short_messages_are_shown_as_they_are(message: Seq<char>)
    requires
        0 < message.len() <= 100,
        !has_white(message),
        forall|i: int| 0 <= i < message.len() ==> !is_control(#[trigger] message[i]),
        !revealing(message, lowercase(message)),
    ensures
        safe_text(message) == message,
{
    assert(first_n(message, 4096) =~= message);
    assert(spaced(message) =~= message);
    crate::lines::law_words_are_whole(message);
    law_harmless_messages_are_shown(message);
    assert(join(seq![message], " "@) =~= message);
    assert(first_n(message, 600) =~= message);
}

/// An error says where it came from and what was said.
pub proof fn law_errors_say_what_happened(source: ErrorSource, message: Seq<char>)
    ensures
        error_of(source, message).source == source,
        error_of(source, message).message == safe_text(message),
        error_of(source, message).command_id is None,
        error_text(error_of(source, message)) == source_name_of(source) + ": "@ + safe_text(
            message,
        ),
{
}

}
