//! Removing a stored credential. Nothing is removed before it was confirmed.
use crate::json::{
    add_field, decode, encode, fields_view, object, parsed, printed, text, Json, Tree,
};
use crate::keys::Navigation;
use crate::lines::texts;
use crate::text::{any_control, cat2, cat3, chars_of, copy, has_control};
use vstd::prelude::*;
use vstd::utf8::encode_utf8;

verus! {

/// How long the helper may take to answer, in milliseconds.
pub const HELPER_TIMEOUT: u64 = 20_000;

/// How long a record of the helper may be, in bytes.
pub const MAX_RECORD: usize = 65_536;

pub const INVALID_ID: &'static str = "Invalid logout provider ID";

pub const INVALID_TYPE: &'static str = "Invalid stored credential type";

pub const UNLISTED: &'static str = "Could not list stored providers through the Pi SDK. Credentials were not changed.";

pub const UNCONFIRMED: &'static str = "Logout failed or removal could not be confirmed. Check /logout again; environment credentials may still provide access.";

/// How a logout ended.
#[derive(Debug)]
pub enum LogoutOutcome {
    /// The credential of a provider is gone; whether Pi warned that others
    /// may not know yet.
    Removed(String, bool),
    Cancelled,
    Empty,
    Unavailable,
}

/// What a [`LogoutOutcome`] says.
pub enum OutcomeView {
    Removed(Seq<char>, bool),
    Cancelled,
    Empty,
    Unavailable,
}

impl View for LogoutOutcome {
    type V = OutcomeView;

    open spec fn view(&self) -> OutcomeView {
        match *self {
            LogoutOutcome::Removed(provider, warning) => OutcomeView::Removed(provider@, warning),
            LogoutOutcome::Cancelled => OutcomeView::Cancelled,
            LogoutOutcome::Empty => OutcomeView::Empty,
            LogoutOutcome::Unavailable => OutcomeView::Unavailable,
        }
    }
}

// ---------------------------------------------------------------------------
// Waiting for the helper
// ---------------------------------------------------------------------------

/// What a key means while the helper works.
#[derive(Clone, Copy, Debug, PartialEq, Eq, Structural)]
pub enum WaitKey {
    Ignored,
    /// It gives up; another key that came with it is kept for later.
    Cancel(Option<u8>),
}

/// Ctrl+C, Ctrl+D and Escape give up, where that is still possible.
pub open spec fn wait_key(key: u8, escape: Option<Navigation>, cancellable: bool) -> WaitKey {
    if !cancellable {
        WaitKey::Ignored
    } else if key == 3 || key == 4 {
        WaitKey::Cancel(None)
    } else if key == 27 && escape == Some(Navigation::Escape) {
        WaitKey::Cancel(None)
    } else if key == 27 && escape is Some && escape->0 is EscapeWith {
        WaitKey::Cancel(Some(escape->0->EscapeWith_0))
    } else {
        WaitKey::Ignored
    }
}

/// What a key means while the helper works; `escape` is what follows Escape.
pub fn on_wait_key(key: u8, escape: Option<Navigation>, cancellable: bool) -> (r: WaitKey)
    ensures
        r == wait_key(key, escape, cancellable),
{
    if !cancellable {
        return WaitKey::Ignored;
    }
    if key == 3 || key == 4 {
        return WaitKey::Cancel(None);
    }
    if key == 27 {
        match escape {
            Some(Navigation::Escape) => {
                return WaitKey::Cancel(None);
            },
            Some(Navigation::EscapeWith(next)) => {
                return WaitKey::Cancel(Some(next));
            },
            _ => {},
        }
    }
    WaitKey::Ignored
}

/// A line of the helper as a record; nothing, where it is none or too long to
/// be one.
pub fn helper_record(line: &str) -> (r: Option<Json>)
    ensures
        match r {
            Some(record) => encode_utf8(line@).len() <= MAX_RECORD && parsed(encode_utf8(line@))
                == Some(record@),
            None => encode_utf8(line@).len() > MAX_RECORD || parsed(encode_utf8(line@)) is None,
        },
{
    let bytes = line.as_bytes();
    if bytes.len() > MAX_RECORD {
        return None;
    }
    decode(bytes)
}

/// The helper took too long.
pub fn timeout_message(cancellable: bool) -> (r: &'static str)
    ensures
        r@ == if cancellable {
            "Could not read stored providers in time. Credentials were not changed."@
        } else {
            "Logout helper timed out. Credential removal could not be confirmed; check /logout again."@
        },
{
    if cancellable {
        "Could not read stored providers in time. Credentials were not changed."
    } else {
        "Logout helper timed out. Credential removal could not be confirmed; check /logout again."
    }
}

/// The helper stopped.
pub fn stopped_message(cancellable: bool) -> (r: &'static str)
    ensures
        r@ == if cancellable {
            "Could not read stored providers. Credentials were not changed."@
        } else {
            "Logout helper stopped without confirming the result. Check /logout again."@
        },
{
    if cancellable {
        "Could not read stored providers. Credentials were not changed."
    } else {
        "Logout helper stopped without confirming the result. Check /logout again."
    }
}

// ---------------------------------------------------------------------------
// Providers
// ---------------------------------------------------------------------------

/// An identifier that may be shown and used.
pub open spec fn usable(id: Seq<char>) -> bool {
    id.len() > 0 && encode_utf8(id).len() <= 200 && !has_control(id)
}

/// The kind of a credential.
pub open spec fn credential_kind(provider: Tree) -> Option<Seq<char>> {
    if provider.says("type"@, "oauth"@) {
        Some("OAuth"@)
    } else if provider.says("type"@, "api_key"@) {
        Some("API key"@)
    } else {
        None
    }
}

/// What is wrong with a provider, if anything.
pub open spec fn provider_problem(provider: Tree) -> Option<Seq<char>> {
    match provider.text_at("id"@) {
        None => Some(INVALID_ID@),
        Some(id) => if !usable(id) {
            Some(INVALID_ID@)
        } else if credential_kind(provider) is None {
            Some(INVALID_TYPE@)
        } else {
            None
        },
    }
}

/// A provider's identifier, and how it is shown.
pub open spec fn provider_entry(provider: Tree) -> (Seq<char>, Seq<char>) {
    let id = provider.text_at("id"@)->0;
    (id, id + " · "@ + credential_kind(provider)->0)
}

/// The first thing that is wrong with the providers from `i` on.
pub open spec fn problem_from(providers: Seq<Tree>, i: int) -> Option<Seq<char>>
    decreases providers.len() - i,
{
    if i < 0 || i >= providers.len() {
        None
    } else if provider_problem(providers[i]) is Some {
        provider_problem(providers[i])
    } else {
        problem_from(providers, i + 1)
    }
}

pub open spec fn entries_of(providers: Seq<Tree>) -> Seq<(Seq<char>, Seq<char>)> {
    Seq::new(providers.len(), |i: int| provider_entry(providers[i]))
}

pub open spec fn entries_view(entries: Seq<(String, String)>) -> Seq<(Seq<char>, Seq<char>)> {
    Seq::new(entries.len(), |i: int| (entries[i].0@, entries[i].1@))
}

fn entry_of(provider: &Json) -> (r: Result<(String, String), &'static str>)
    ensures
        match r {
            Ok(entry) => provider_problem(provider@) is None && (entry.0@, entry.1@)
                == provider_entry(provider@),
            Err(message) => provider_problem(provider@) == Some(message@),
        },
{
    let id = match provider.text_at("id") {
        Some(id) => id,
        None => {
            return Err(INVALID_ID);
        },
    };
    let chars = chars_of(id);
    if chars.len() == 0 || id.as_bytes().len() > 200 || any_control(chars.as_slice()) {
        return Err(INVALID_ID);
    }
    let kind = if provider.says("type", "oauth") {
        "OAuth"
    } else if provider.says("type", "api_key") {
        "API key"
    } else {
        return Err(INVALID_TYPE);
    };
    Ok((copy(id), cat3(id, " · ", kind)))
}

// ---------------------------------------------------------------------------
// The course of a logout
// ---------------------------------------------------------------------------

/// Where a logout stands.
pub enum Logout {
    /// The stored providers are being read.
    Listing,
    /// One of these is to be chosen.
    Choosing(Vec<(String, String)>),
    /// The removal is to be confirmed.
    Confirming(String),
    /// The removal was ordered.
    Removing(String),
    Over,
}

/// What a [`Logout`] says.
pub enum LogoutView {
    Listing,
    Choosing(Seq<(Seq<char>, Seq<char>)>),
    Confirming(Seq<char>),
    Removing(Seq<char>),
    Over,
}

impl View for Logout {
    type V = LogoutView;

    open spec fn view(&self) -> LogoutView {
        match *self {
            Logout::Listing => LogoutView::Listing,
            Logout::Choosing(entries) => LogoutView::Choosing(entries_view(entries@)),
            Logout::Confirming(provider) => LogoutView::Confirming(provider@),
            Logout::Removing(provider) => LogoutView::Removing(provider@),
            Logout::Over => LogoutView::Over,
        }
    }
}

/// What the caller has to do.
pub enum LogoutStep {
    /// Let one of these be chosen.
    Choose(Vec<String>),
    /// Ask for confirmation under this title.
    Confirm(String),
    /// Close the connection, then send this line to the helper.
    Remove(String),
    End(Result<LogoutOutcome, &'static str>),
}

/// What a [`LogoutStep`] says.
pub enum StepView {
    Choose(Seq<Seq<char>>),
    Confirm(Seq<char>),
    Remove(Seq<char>),
    End(OutcomeView),
    Failed(Seq<char>),
}

impl View for LogoutStep {
    type V = StepView;

    open spec fn view(&self) -> StepView {
        match *self {
            LogoutStep::Choose(labels) => StepView::Choose(texts(labels@)),
            LogoutStep::Confirm(title) => StepView::Confirm(title@),
            LogoutStep::Remove(line) => StepView::Remove(line@),
            LogoutStep::End(Ok(outcome)) => StepView::End(outcome@),
            LogoutStep::End(Err(message)) => StepView::Failed(message@),
        }
    }
}

/// The order to remove the credential of a provider.
pub open spec fn removal(provider: Seq<char>) -> Seq<char> {
    printed(
        Tree::Object(seq![("type"@, Tree::Text("logout"@)), ("provider"@, Tree::Text(provider))]),
    ) + "\n"@
}

/// What the list of providers leads to. Every provider is checked before one
/// of them is shown.
pub open spec fn listed(response: Tree) -> (LogoutView, StepView) {
    if response.says("type"@, "unavailable"@) {
        (LogoutView::Over, StepView::End(OutcomeView::Unavailable))
    } else if !response.says("type"@, "providers"@) || response.at("providers"@).list() is None {
        (LogoutView::Over, StepView::Failed(UNLISTED@))
    } else {
        let providers = response.at("providers"@).list()->0;
        if providers.len() == 0 {
            (LogoutView::Over, StepView::End(OutcomeView::Empty))
        } else if problem_from(providers, 0) is Some {
            (LogoutView::Over, StepView::Failed(problem_from(providers, 0)->0))
        } else {
            (
                LogoutView::Choosing(entries_of(providers)),
                StepView::Choose(
                    Seq::new(providers.len(), |i: int| provider_entry(providers[i]).1),
                ),
            )
        }
    }
}

/// What the result of a removal says.
pub open spec fn removed(provider: Seq<char>, response: Tree) -> StepView {
    if !response.says("type"@, "done"@) || !response.flagged("removed"@, true) {
        StepView::Failed(UNCONFIRMED@)
    } else {
        StepView::End(
            OutcomeView::Removed(provider, response.flagged("synchronizationWarning"@, true)),
        )
    }
}

fn removal_line(provider: &str) -> (out: String)
    ensures
        out@ == removal(provider@),
{
    let mut fields: Vec<(String, Json)> = Vec::new();
    assert(fields_view(fields@) =~= Seq::empty());
    add_field(&mut fields, "type", text("logout"));
    add_field(&mut fields, "provider", text(provider));
    assert(fields_view(fields@) =~= seq![
        ("type"@, Tree::Text("logout"@)),
        ("provider"@, Tree::Text(provider@)),
    ]);
    let record = encode(&object(fields));
    cat2(record.as_str(), "\n")
}

impl Logout {
    /// The helper's list of stored providers arrived; none, where the user
    /// gave up.
    pub fn on_list(&mut self, response: Option<&Json>) -> (r: LogoutStep)
        requires
            old(self)@ is Listing,
        ensures
            match response {
                None => final(self)@ is Over && r@ == StepView::End(OutcomeView::Cancelled),
                Some(response) => (final(self)@, r@) == listed(response@),
            },
    {
        *self = Logout::Over;
        let list = match response {
            Some(list) => list,
            None => {
                return LogoutStep::End(Ok(LogoutOutcome::Cancelled));
            },
        };
        if list.says("type", "unavailable") {
            return LogoutStep::End(Ok(LogoutOutcome::Unavailable));
        }
        if !list.says("type", "providers") {
            return LogoutStep::End(Err(UNLISTED));
        }
        let providers = match list.at("providers").as_list() {
            Some(providers) => providers,
            None => {
                return LogoutStep::End(Err(UNLISTED));
            },
        };
        if providers.len() == 0 {
            return LogoutStep::End(Ok(LogoutOutcome::Empty));
        }
        let ghost trees = list@.at("providers"@).list()->0;
        let mut entries: Vec<(String, String)> = Vec::new();
        let mut labels: Vec<String> = Vec::new();
        let mut i: usize = 0;
        while i < providers.len()
            invariant
                i <= providers@.len(),
                trees.len() == providers@.len(),
                forall|j: int| 0 <= j < providers@.len() ==> (#[trigger] providers@[j])@ == trees[j],
                entries@.len() == i,
                labels@.len() == i,
                forall|j: int|
                    0 <= j < i ==> (#[trigger] entries@[j]).0@ == provider_entry(trees[j]).0
                        && entries@[j].1@ == provider_entry(trees[j]).1,
                forall|j: int| 0 <= j < i ==> (#[trigger] labels@[j])@ == provider_entry(trees[j]).1,
                problem_from(trees, 0) == problem_from(trees, i as int),
                *self == Logout::Over,
                response == Some(list),
                listed(list@) == (if problem_from(trees, 0) is Some {
                    (LogoutView::Over, StepView::Failed(problem_from(trees, 0)->0))
                } else {
                    (
                        LogoutView::Choosing(entries_of(trees)),
                        StepView::Choose(
                            Seq::new(trees.len(), |i: int| provider_entry(trees[i]).1),
                        ),
                    )
                }),
            decreases providers@.len() - i,
        {
            match entry_of(&providers[i]) {
                Ok((id, label)) => {
                    labels.push(copy(label.as_str()));
                    entries.push((id, label));
                },
                Err(message) => {
                    return LogoutStep::End(Err(message));
                },
            }
            i = i + 1;
        }
        assert(entries_view(entries@) =~= entries_of(trees));
        assert(texts(labels@) =~= Seq::new(trees.len(), |i: int| provider_entry(trees[i]).1));
        *self = Logout::Choosing(entries);
        LogoutStep::Choose(labels)
    }

    /// A provider was chosen, or none.
    pub fn on_choice(&mut self, index: Option<usize>) -> (r: LogoutStep)
        requires
            old(self)@ is Choosing,
            index matches Some(i) ==> i < old(self)@->Choosing_0.len(),
        ensures
            match index {
                None => final(self)@ is Over && r@ == StepView::End(OutcomeView::Cancelled),
                Some(i) => {
                    let provider = old(self)@->Choosing_0[i as int].0;
                    &&& final(self)@ == LogoutView::Confirming(provider)
                    &&& r@ == StepView::Confirm("Remove "@ + provider + " credentials?"@)
                },
            },
    {
        let mut step = LogoutStep::End(Ok(LogoutOutcome::Cancelled));
        let mut next = Logout::Over;
        if let Logout::Choosing(entries) = self {
            if let Some(i) = index {
                let provider = copy(entries[i].0.as_str());
                step = LogoutStep::Confirm(cat3("Remove ", provider.as_str(), " credentials?"));
                next = Logout::Confirming(provider);
            }
        }
        *self = next;
        step
    }

    /// The removal was confirmed, by the second of two choices, or not.
    pub fn on_confirmation(&mut self, index: Option<usize>) -> (r: LogoutStep)
        requires
            old(self)@ is Confirming,
        ensures
            if index == Some(1usize) {
                final(self)@ == LogoutView::Removing(old(self)@->Confirming_0) && r@
                    == StepView::Remove(removal(old(self)@->Confirming_0))
            } else {
                final(self)@ is Over && r@ == StepView::End(OutcomeView::Cancelled)
            },
    {
        let mut step = LogoutStep::End(Ok(LogoutOutcome::Cancelled));
        let mut next = Logout::Over;
        if let Logout::Confirming(provider) = self {
            let confirmed = match index {
                Some(i) => i == 1,
                None => false,
            };
            if confirmed {
                let provider = copy(provider.as_str());
                step = LogoutStep::Remove(removal_line(provider.as_str()));
                next = Logout::Removing(provider);
            }
        }
        *self = next;
        step
    }

    /// The helper reported what became of the removal.
    pub fn on_result(&mut self, response: &Json) -> (r: LogoutStep)
        requires
            old(self)@ is Removing,
        ensures
            final(self)@ is Over,
            r@ == removed(old(self)@->Removing_0, response@),
    {
        let mut step = LogoutStep::End(Err(UNCONFIRMED));
        if let Logout::Removing(provider) = self {
            if response.says("type", "done") && response.flagged("removed", true) {
                step = LogoutStep::End(
                    Ok(
                        LogoutOutcome::Removed(
                            copy(provider.as_str()),
                            response.flagged("synchronizationWarning", true),
                        ),
                    ),
                );
            }
        }
        *self = Logout::Over;
        step
    }
}

// ---------------------------------------------------------------------------
// Laws
// ---------------------------------------------------------------------------

/// Reading the providers orders no removal: whatever the helper answers, the
/// next thing is a choice or the end.
pub proof fn law_listing_removes_nothing(response: Tree)
    ensures
        !(listed(response).1 is Remove),
        !(listed(response).0 is Removing),
{
}

proof fn lemma_no_problem(providers: Seq<Tree>, i: int, j: int)
    requires
        0 <= i <= j < providers.len(),
        problem_from(providers, i) is None,
    ensures
        provider_problem(providers[j]) is None,
    decreases j - i,
{
    if i < j {
        lemma_no_problem(providers, i + 1, j);
    }
}

/// Every provider that can be chosen was checked: its identifier is not
/// empty, at most 200 bytes long and free of control characters.
pub proof fn law_chosen_providers_are_checked(response: Tree, i: int)
    requires
        listed(response).0 is Choosing,
        0 <= i < listed(response).0->Choosing_0.len(),
    ensures
        usable(listed(response).0->Choosing_0[i].0),
{
    let providers = response.at("providers"@).list()->0;
    lemma_no_problem(providers, 0, i);
}

/// A removal counts as done only where the helper says so.
pub proof fn law_removal_needs_confirmation(provider: Seq<char>, response: Tree)
    requires
        removed(provider, response) is End,
    ensures
        response.says("type"@, "done"@),
        response.flagged("removed"@, true),
        removed(provider, response)->End_0 is Removed,
{
}

/// Every stored provider is offered, in the order of the list, with what kind
/// of credential it has; and what is chosen is that provider.
pub proof fn law_stored_providers_are_offered(response: Tree, i: int)
    requires
        listed(response).1 is Choose,
        response.at("providers"@).list() is Some,
        0 <= i < response.at("providers"@).list()->0.len(),
    ensures
        ({
            let providers = response.at("providers"@).list()->0;
            let labels = listed(response).1->Choose_0;
            let id = providers[i].text_at("id"@)->0;
            &&& listed(response).0 is Choosing
            &&& labels.len() == providers.len()
            &&& listed(response).0->Choosing_0.len() == providers.len()
            &&& listed(response).0->Choosing_0[i].0 == id
            &&& providers[i].says("type"@, "oauth"@) ==> labels[i] == id + " · "@ + "OAuth"@
            &&& providers[i].says("type"@, "api_key"@) ==> labels[i] == id + " · "@ + "API key"@
        }),
{
    reveal_strlit("oauth");
    reveal_strlit("api_key");
    assert("oauth"@.len() == 5 && "api_key"@.len() == 7);
}

/// What is ordered is the removal of the chosen provider and of no other one.
pub proof fn law_the_chosen_provider_is_removed(provider: Seq<char>)
    ensures
        exists|order: Tree|
            {
                &&& order.says("type"@, "logout"@)
                &&& order.says("provider"@, provider)
                &&& removal(provider) == #[trigger] printed(order) + seq!['\n']
            },
{
    let order = Tree::Object(
        seq![("type"@, Tree::Text("logout"@)), ("provider"@, Tree::Text(provider))],
    );
    reveal_strlit("type");
    reveal_strlit("provider");
    reveal_strlit("\n");
    assert("\n"@ =~= seq!['\n']);
    assert("type"@.len() == 4 && "provider"@.len() == 8);
    reveal_with_fuel(crate::json::entry, 3);
    assert(removal(provider) == printed(order) + seq!['\n']);
}

/// A removal that the helper confirms is done, for the provider that was
/// chosen.
pub proof fn law_confirmed_removals_are_done(provider: Seq<char>, response: Tree)
    requires
        response.says("type"@, "done"@),
        response.flagged("removed"@, true),
    ensures
        removed(provider, response) == StepView::End(
            OutcomeView::Removed(provider, response.flagged("synchronizationWarning"@, true)),
        ),
{
}

/// Where nothing is stored there is nothing to choose.
pub proof fn law_nothing_stored_nothing_removed(response: Tree)
    requires
        response.says("type"@, "providers"@),
        response.at("providers"@).list() is Some,
        response.at("providers"@).list()->0.len() == 0,
    ensures
        listed(response).1 == StepView::End(OutcomeView::Empty),
{
    reveal_strlit("providers");
    reveal_strlit("unavailable");
    assert("providers"@.len() == 9 && "unavailable"@.len() == 11);
}

/// Escape, Ctrl+C and Ctrl+D cancel while nothing is removed yet, and no key
/// does once it is.
pub proof fn law_removal_is_not_cancelled(key: u8, escape: Option<Navigation>, byte: u8)
    ensures
        wait_key(key, escape, false) == WaitKey::Ignored,
        wait_key(3, escape, true) == WaitKey::Cancel(None),
        wait_key(4, escape, true) == WaitKey::Cancel(None),
        wait_key(27, Some(Navigation::Escape), true) == WaitKey::Cancel(None),
        wait_key(27, Some(Navigation::EscapeWith(byte)), true) == WaitKey::Cancel(Some(byte)),
        wait_key(27, None, true) == WaitKey::Ignored,
        key != 3 && key != 4 && key != 27 ==> wait_key(key, escape, true) == WaitKey::Ignored,
{
}

}
