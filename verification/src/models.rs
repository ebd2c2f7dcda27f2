//! Choosing a model among those of all providers.
use crate::error::text_view;
use crate::json::{add_field, object, text, Json, Tree};
use crate::lines::texts;
use crate::number::{decimal, decimal_text, parse_index, parse_usize};
use crate::text::{
    cat2, cat3, cat5, chars_of, contains, copy, is_text_le, lemma_text_le_antisymmetric,
    lemma_text_le_total, lemma_text_le_transitive, occurs_at, same, starts, text_le, trim,
    trimmed,
};
use vstd::prelude::*;

verus! {

/// A model of a provider. One without an identifier cannot be selected.
pub struct Model {
    pub provider: String,
    pub id: Option<String>,
}

/// What a [`Model`] holds.
#[verifier::ext_equal]
pub struct ModelView {
    pub provider: Seq<char>,
    pub id: Option<Seq<char>>,
}

impl View for Model {
    type V = ModelView;

    open spec fn view(&self) -> ModelView {
        ModelView { provider: self.provider@, id: text_view(self.id) }
    }
}

pub open spec fn model_views(models: Seq<Model>) -> Seq<ModelView> {
    Seq::new(models.len(), |i: int| models[i]@)
}

/// The models that can be chosen, and the one in use.
pub struct Models {
    /// The provider of the model in use, empty where there is none.
    pub provider: String,
    /// The identifier of the model in use.
    pub current: Option<String>,
    pub models: Vec<Model>,
}

/// What a [`Models`] holds.
#[verifier::ext_equal]
pub struct ModelsView {
    pub provider: Seq<char>,
    pub current: Option<Seq<char>>,
    pub models: Seq<ModelView>,
}

impl View for Models {
    type V = ModelsView;

    open spec fn view(&self) -> ModelsView {
        ModelsView {
            provider: self.provider@,
            current: text_view(self.current),
            models: model_views(self.models@),
        }
    }
}

/// What there is to choose from.
pub enum Offer {
    Choose(Models),
    /// There is nothing to choose from; what is said instead.
    Nothing(String),
    /// Pi's answer makes no sense.
    Invalid(String),
}

/// What an [`Offer`] says.
pub enum OfferView {
    Choose(ModelsView),
    Nothing(Seq<char>),
    Invalid(Seq<char>),
}

impl View for Offer {
    type V = OfferView;

    open spec fn view(&self) -> OfferView {
        match *self {
            Offer::Choose(models) => OfferView::Choose(models@),
            Offer::Nothing(line) => OfferView::Nothing(line@),
            Offer::Invalid(line) => OfferView::Invalid(line@),
        }
    }
}

// ---------------------------------------------------------------------------
// Order
// ---------------------------------------------------------------------------

/// An identifier does not come after another; a missing one comes first.
pub open spec fn id_le(a: Option<Seq<char>>, b: Option<Seq<char>>) -> bool {
    match (a, b) {
        (None, _) => true,
        (Some(_), None) => false,
        (Some(a), Some(b)) => text_le(a, b),
    }
}

/// A model does not come after another: its provider comes first, or it is
/// the same one and the identifier does not come after.
pub open spec fn model_le(a: ModelView, b: ModelView) -> bool {
    if a.provider == b.provider {
        id_le(a.id, b.id)
    } else {
        text_le(a.provider, b.provider)
    }
}

pub open spec fn in_order(models: Seq<ModelView>) -> bool {
    forall|i: int, j: int|
        0 <= i < j < models.len() ==> model_le(#[trigger] models[i], #[trigger] models[j])
}

/// Models in order, with one more.
pub open spec fn inserted(models: Seq<ModelView>, m: ModelView) -> Seq<ModelView>
    decreases models.len(),
{
    if models.len() == 0 {
        seq![m]
    } else if model_le(models.last(), m) {
        models.push(m)
    } else {
        inserted(models.drop_last(), m).push(models.last())
    }
}

proof fn lemma_model_le_total(a: ModelView, b: ModelView)
    ensures
        model_le(a, b) || model_le(b, a),
{
    lemma_text_le_total(a.provider, b.provider);
    if a.id is Some && b.id is Some {
        lemma_text_le_total(a.id->0, b.id->0);
    }
}

proof fn lemma_model_le_transitive(a: ModelView, b: ModelView, c: ModelView)
    requires
        model_le(a, b),
        model_le(b, c),
    ensures
        model_le(a, c),
{
    if a.provider == b.provider && b.provider == c.provider {
        if a.id is Some && b.id is Some && c.id is Some {
            lemma_text_le_transitive(a.id->0, b.id->0, c.id->0);
        }
    } else if a.provider == c.provider {
        lemma_text_le_antisymmetric(a.provider, b.provider);
    } else if a.provider != b.provider && b.provider != c.provider {
        lemma_text_le_transitive(a.provider, b.provider, c.provider);
    }
}

/// Inserting keeps the order, and adds the model and nothing else.
proof fn lemma_inserted(models: Seq<ModelView>, m: ModelView)
    requires
        in_order(models),
    ensures
        inserted(models, m).len() == models.len() + 1,
        in_order(inserted(models, m)),
        inserted(models, m).to_multiset() == models.to_multiset().insert(m),
    decreases models.len(),
{
    broadcast use vstd::seq_lib::group_to_multiset_ensures;

    let out = inserted(models, m);
    if models.len() == 0 {
        assert(seq![m] =~= models.push(m));
    } else if model_le(models.last(), m) {
        assert forall|i: int, j: int| 0 <= i < j < out.len() implies model_le(
            #[trigger] out[i],
            #[trigger] out[j],
        ) by {
            if j == models.len() {
                if i < models.len() - 1 {
                    lemma_model_le_transitive(models[i], models.last(), m);
                }
            }
        }
    } else {
        let front = models.drop_last();
        let last = models.last();
        let inner = inserted(front, m);
        lemma_inserted(front, m);
        lemma_model_le_total(last, m);
        assert(models =~= front.push(last));
        assert forall|i: int| 0 <= i < inner.len() implies model_le(#[trigger] inner[i], last) by {
            assert(inner.to_multiset().count(inner[i]) > 0) by {
                assert(inner.contains(inner[i]));
            }
            if inner[i] != m {
                assert(front.to_multiset().count(inner[i]) > 0);
                assert(front.contains(inner[i]));
                let k = choose|k: int| 0 <= k < front.len() && front[k] == inner[i];
                assert(models[k] == inner[i] && models[models.len() - 1] == last);
            }
        }
        assert(out.to_multiset() =~= models.to_multiset().insert(m));
    }
}

fn is_model_le(a: &Model, b: &Model) -> (r: bool)
    ensures
        r == model_le(a@, b@),
{
    if same(a.provider.as_str(), b.provider.as_str()) {
        match (&a.id, &b.id) {
            (None, _) => true,
            (Some(_), None) => false,
            (Some(a), Some(b)) => is_text_le(a.as_str(), b.as_str()),
        }
    } else {
        is_text_le(a.provider.as_str(), b.provider.as_str())
    }
}

fn insert_model(models: &mut Vec<Model>, m: Model)
    ensures
        model_views(final(models)@) == inserted(model_views(old(models)@), m@),
{
    let ghost all = model_views(models@);
    let n: usize = models.len();
    let mut k: usize = n;
    assert(all.take(n as int) =~= all);
    assert(inserted(all, m@) + all.skip(n as int) =~= inserted(all, m@));
    while k > 0 && !is_model_le(&models[k - 1], &m)
        invariant
            k <= n,
            n == models@.len(),
            all == model_views(models@),
            models@ == old(models)@,
            inserted(all, m@) == inserted(all.take(k as int), m@) + all.skip(k as int),
        decreases k,
    {
        proof {
            let part = all.take(k as int);
            assert(part.last() == models@[k - 1]@);
            assert(part.drop_last() =~= all.take(k - 1));
            let inner = inserted(all.take(k - 1), m@);
            assert(inner.push(part.last()) + all.skip(k as int) =~= inner + all.skip(k - 1));
        }
        k = k - 1;
    }
    proof {
        let part = all.take(k as int);
        if k > 0 {
            assert(part.last() == models@[k - 1]@);
        }
        assert(inserted(part, m@) =~= part.push(m@));
    }
    models.insert(k, m);
    assert(model_views(models@) =~= all.insert(k as int, m@));
    assert(all.insert(k as int, m@) =~= all.take(k as int).push(m@) + all.skip(k as int));
}

// ---------------------------------------------------------------------------
// The offer
// ---------------------------------------------------------------------------

/// The provider of a session, empty where it has none.
pub open spec fn provider_of(state: Tree) -> Seq<char> {
    state.at("model"@).text_or("provider"@, ""@)
}

/// An entry of Pi's list names a provider.
pub open spec fn names_provider(entry: Tree) -> bool {
    entry.text_or("provider"@, ""@).len() > 0
}

/// The model of an entry.
pub open spec fn model_of(entry: Tree) -> ModelView {
    ModelView { provider: entry.text_or("provider"@, ""@), id: entry.text_at("id"@) }
}

/// The models of Pi's list that name a provider, as the list has them.
pub open spec fn listed(all: Seq<Tree>) -> Seq<ModelView>
    decreases all.len(),
{
    if all.len() == 0 {
        Seq::empty()
    } else {
        let rest = listed(all.drop_last());
        if names_provider(all.last()) {
            rest.push(model_of(all.last()))
        } else {
            rest
        }
    }
}

/// Models by provider, those of one provider by identifier.
pub open spec fn arranged(models: Seq<ModelView>) -> Seq<ModelView>
    decreases models.len(),
{
    if models.len() == 0 {
        Seq::empty()
    } else {
        inserted(arranged(models.drop_last()), models.last())
    }
}

/// What there is to choose from, given the session and all models.
pub open spec fn offered(state: Tree, available: Tree) -> OfferView {
    let provider = provider_of(state);
    match available.at("models"@).list() {
        None => OfferView::Invalid("invalid get_available_models response"@),
        Some(all) => {
            let models = arranged(listed(all));
            if models.len() > 0 {
                OfferView::Choose(
                    ModelsView { provider, current: state.at("model"@).text_at("id"@), models },
                )
            } else if provider.len() == 0 {
                OfferView::Nothing("No current provider; use Pi /login first.\n"@)
            } else {
                OfferView::Nothing("No available models for "@ + provider + ".\n"@)
            }
        },
    }
}

/// What there is to choose from: every model of Pi's list that names a
/// provider, by provider and then by identifier.
pub fn offer(state: &Json, available: &Json) -> (r: Offer)
    ensures
        r@ == offered(state@, available@),
        r matches Offer::Choose(models) ==> in_order(models@.models)
            && models@.models.to_multiset() == listed(
            available@.at("models"@).list()->0,
        ).to_multiset(),
{
    let provider = state.at("model").text_or("provider", "");
    let all = match available.at("models").as_list() {
        Some(all) => all,
        None => {
            return Offer::Invalid(copy("invalid get_available_models response"));
        },
    };
    let ghost trees = available@.at("models"@).list()->0;
    let mut models: Vec<Model> = Vec::new();
    let mut i: usize = 0;
    assert(trees.take(0) =~= Seq::empty());
    assert(model_views(models@) =~= Seq::empty());
    while i < all.len()
        invariant
            i <= all@.len(),
            trees.len() == all@.len(),
            forall|j: int| 0 <= j < all@.len() ==> (#[trigger] all@[j])@ == trees[j],
            model_views(models@) == arranged(listed(trees.take(i as int))),
        decreases all@.len() - i,
    {
        proof {
            assert(trees.take(i + 1).drop_last() =~= trees.take(i as int));
            assert(trees.take(i + 1).last() == all@[i as int]@);
        }
        let name = all[i].text_or("provider", "");
        if chars_of(name).len() > 0 {
            let id = match all[i].text_at("id") {
                Some(id) => Some(copy(id)),
                None => None,
            };
            let model = Model { provider: copy(name), id };
            assert(model@ =~= model_of(all@[i as int]@));
            proof {
                let front = listed(trees.take(i as int));
                assert(front.push(model@).drop_last() =~= front);
            }
            insert_model(&mut models, model);
        }
        i = i + 1;
    }
    assert(trees.take(i as int) =~= trees);
    proof {
        law_models_are_arranged(listed(trees));
    }
    if models.len() == 0 {
        return Offer::Nothing(
            if chars_of(provider).len() == 0 {
                copy("No current provider; use Pi /login first.\n")
            } else {
                cat3("No available models for ", provider, ".\n")
            },
        );
    }
    let current = match state.at("model").text_at("id") {
        Some(id) => Some(copy(id)),
        None => None,
    };
    Offer::Choose(Models { provider: copy(provider), current, models })
}

/// The identifier of a model, as it is shown.
pub open spec fn shown_id(m: ModelView) -> Seq<char> {
    match m.id {
        Some(id) => id,
        None => "unknown"@,
    }
}

/// How a model is called.
pub open spec fn label_of(m: ModelView) -> Seq<char> {
    m.provider + "/"@ + shown_id(m)
}

pub open spec fn labels_of(models: Seq<ModelView>) -> Seq<Seq<char>> {
    Seq::new(models.len(), |i: int| label_of(models[i]))
}

/// All models are of one provider.
pub open spec fn one_provider(models: Seq<ModelView>) -> bool {
    models.len() > 0 && forall|i: int|
        0 <= i < models.len() ==> (#[trigger] models[i]).provider == models[0].provider
}

/// Whose models there are.
pub open spec fn scope_of(models: Seq<ModelView>) -> Seq<char> {
    if one_provider(models) {
        models[0].provider
    } else {
        "all providers"@
    }
}

impl ModelsView {
    /// The model `i` is the one in use.
    pub open spec fn in_use(self, i: int) -> bool {
        self.models[i].provider == self.provider && self.models[i].id == self.current
    }
}

/// The first place of the model in use, from `i` on.
pub open spec fn place_from(m: ModelsView, i: int) -> Option<int>
    decreases m.models.len() - i,
{
    if i < 0 || i >= m.models.len() {
        None
    } else if m.in_use(i) {
        Some(i)
    } else {
        place_from(m, i + 1)
    }
}

/// The lines of a menu, up to the model `n`.
pub open spec fn menu_rows(m: ModelsView, n: nat) -> Seq<char>
    decreases n,
{
    if n == 0 {
        "Models for "@ + scope_of(m.models) + ":\n"@
    } else {
        let model = m.models[n - 1];
        menu_rows(m, (n - 1) as nat) + ("  "@ + decimal(n) + ". "@ + label_of(model) + (if model.provider
            == m.provider && m.current == Some(shown_id(model)) {
            "  (current)\n"@
        } else {
            "\n"@
        }))
    }
}

/// The model that a typed number chooses, counted from one.
pub open spec fn chosen(answer: Option<Seq<char>>, count: nat) -> Option<nat> {
    match answer {
        Some(text) => match parse_usize(trim(text)) {
            Some(n) => if 1 <= n <= count {
                Some((n - 1) as nat)
            } else {
                None
            },
            None => None,
        },
        None => None,
    }
}

/// What choosing a model does.
pub enum Pick {
    /// It is in use already; what is said.
    Already(String),
    /// The command that selects it, and what is said once it was accepted.
    Select(Json, String),
    Invalid,
}

/// What a [`Pick`] says.
pub enum PickView {
    Already(Seq<char>),
    Select(Tree, Seq<char>),
    Invalid,
}

impl View for Pick {
    type V = PickView;

    open spec fn view(&self) -> PickView {
        match *self {
            Pick::Already(line) => PickView::Already(line@),
            Pick::Select(command, line) => PickView::Select(command@, line@),
            Pick::Invalid => PickView::Invalid,
        }
    }
}

pub open spec fn picked(m: ModelsView, i: int) -> PickView {
    let provider = m.models[i].provider;
    match m.models[i].id {
        None => PickView::Invalid,
        Some(id) => if m.in_use(i) {
            PickView::Already("Already using "@ + provider + "/"@ + id + ".\n"@)
        } else {
            PickView::Select(
                Tree::Object(
                    seq![
                        ("type"@, Tree::Text("set_model"@)),
                        ("provider"@, Tree::Text(provider)),
                        ("modelId"@, Tree::Text(id)),
                    ],
                ),
                "Selected "@ + provider + "/"@ + id + ".\n"@,
            )
        },
    }
}

impl Models {
    fn shown<'a>(&'a self, i: usize) -> (r: &'a str)
        requires
            i < self@.models.len(),
        ensures
            r@ == shown_id(self@.models[i as int]),
    {
        match &self.models[i].id {
            Some(id) => id.as_str(),
            None => "unknown",
        }
    }

    fn is_own(&self, i: usize) -> (r: bool)
        requires
            i < self@.models.len(),
        ensures
            r == (self@.models[i as int].provider == self@.provider),
    {
        same(self.models[i].provider.as_str(), self.provider.as_str())
    }

    fn is_in_use(&self, i: usize) -> (r: bool)
        requires
            i < self@.models.len(),
        ensures
            r == self@.in_use(i as int),
    {
        self.is_own(i) && match (&self.models[i].id, &self.current) {
            (Some(a), Some(b)) => same(a.as_str(), b.as_str()),
            (None, None) => true,
            _ => false,
        }
    }

    fn scope(&self) -> (out: String)
        ensures
            out@ == scope_of(self@.models),
    {
        if self.models.len() == 0 {
            return copy("all providers");
        }
        let mut i: usize = 1;
        while i < self.models.len()
            invariant
                1 <= i <= self.models@.len(),
                forall|j: int|
                    0 <= j < i ==> (#[trigger] self@.models[j]).provider
                        == self@.models[0].provider,
            decreases self.models@.len() - i,
        {
            if !same(self.models[i].provider.as_str(), self.models[0].provider.as_str()) {
                assert(self@.models[i as int].provider != self@.models[0].provider);
                return copy("all providers");
            }
            i = i + 1;
        }
        copy(self.models[0].provider.as_str())
    }

    /// The title of a list of the models.
    pub fn title(&self) -> (out: String)
        ensures
            out@ == "Models · "@ + scope_of(self@.models),
    {
        cat2("Models · ", self.scope().as_str())
    }

    /// The names of the models.
    pub fn labels(&self) -> (out: Vec<String>)
        ensures
            texts(out@) == labels_of(self@.models),
    {
        let mut out: Vec<String> = Vec::new();
        let mut i: usize = 0;
        while i < self.models.len()
            invariant
                i <= self.models@.len(),
                out@.len() == i,
                forall|j: int| 0 <= j < i ==> (#[trigger] out@[j])@ == label_of(self@.models[j]),
            decreases self.models@.len() - i,
        {
            out.push(cat3(self.models[i].provider.as_str(), "/", self.shown(i)));
            i = i + 1;
        }
        assert(texts(out@) =~= labels_of(self@.models));
        out
    }

    /// The place of the model in use.
    pub fn active(&self) -> (r: Option<usize>)
        ensures
            r matches Some(i) ==> place_from(self@, 0) == Some(i as int),
            r is None ==> place_from(self@, 0) is None,
    {
        let mut i: usize = 0;
        while i < self.models.len()
            invariant
                i <= self.models@.len(),
                place_from(self@, 0) == place_from(self@, i as int),
            decreases self.models@.len() - i,
        {
            if self.is_in_use(i) {
                return Some(i);
            }
            i = i + 1;
        }
        None
    }

    /// The models as numbered lines.
    pub fn menu(&self) -> (out: String)
        ensures
            out@ == menu_rows(self@, self@.models.len()),
    {
        let mut out = cat3("Models for ", self.scope().as_str(), ":\n");
        let mut i: usize = 0;
        while i < self.models.len()
            invariant
                i <= self.models@.len(),
                out@ == menu_rows(self@, i as nat),
            decreases self.models@.len() - i,
        {
            let id = self.shown(i);
            let current = self.is_own(i) && match &self.current {
                Some(current) => same(current.as_str(), id),
                None => false,
            };
            let end = if current {
                "  (current)\n"
            } else {
                "\n"
            };
            let label = cat3(self.models[i].provider.as_str(), "/", id);
            let row = cat5("  ", decimal_text((i as u64) + 1).as_str(), ". ", label.as_str(), end);
            out.append(row.as_str());
            i = i + 1;
        }
        out
    }

    /// What choosing the model `i` does.
    pub fn pick(&self, i: usize) -> (r: Pick)
        requires
            i < self@.models.len(),
        ensures
            r@ == picked(self@, i as int),
    {
        let provider = self.models[i].provider.as_str();
        match &self.models[i].id {
            None => Pick::Invalid,
            Some(id) => {
                if self.is_in_use(i) {
                    return Pick::Already(cat5("Already using ", provider, "/", id.as_str(), ".\n"));
                }
                let mut parts: Vec<(String, Json)> = Vec::new();
                assert(crate::json::fields_view(parts@) =~= Seq::empty());
                add_field(&mut parts, "type", text("set_model"));
                add_field(&mut parts, "provider", text(provider));
                add_field(&mut parts, "modelId", text(id.as_str()));
                let command = object(parts);
                assert(command@->Object_0 =~= picked(self@, i as int)->Select_0->Object_0);
                Pick::Select(command, cat5("Selected ", provider, "/", id.as_str(), ".\n"))
            },
        }
    }
}

/// The model that a typed answer chooses among `count`.
pub fn choice(answer: Option<&str>, count: usize) -> (r: Option<usize>)
    ensures
        chosen(
            match answer {
                Some(text) => Some(text@),
                None => None,
            },
            count as nat,
        ) == (match r {
            Some(i) => Some(i as nat),
            None => None,
        }),
{
    match answer {
        Some(text) => {
            let chars = chars_of(text);
            match parse_index(trimmed(chars.as_slice())) {
                Some(n) => if 1 <= n && n <= count {
                    Some(n - 1)
                } else {
                    None
                },
                None => None,
            }
        },
        None => None,
    }
}

// ---------------------------------------------------------------------------
// Laws
// ---------------------------------------------------------------------------

/// The models are offered by provider, those of one provider by identifier,
/// and each as often as it is listed.
pub proof fn law_models_are_arranged(models: Seq<ModelView>)
    ensures
        in_order(arranged(models)),
        arranged(models).to_multiset() == models.to_multiset(),
        arranged(models).len() == models.len(),
    decreases models.len(),
{
    broadcast use vstd::seq_lib::group_to_multiset_ensures;

    if models.len() > 0 {
        let front = models.drop_last();
        law_models_are_arranged(front);
        lemma_inserted(arranged(front), models.last());
        assert(models =~= front.push(models.last()));
    }
    assert(arranged(models).to_multiset() =~= models.to_multiset());
}

/// How many entries are the model `m`.
pub open spec fn occurrences(all: Seq<Tree>, m: ModelView) -> nat
    decreases all.len(),
{
    if all.len() == 0 {
        0
    } else {
        occurrences(all.drop_last(), m) + (if names_provider(all.last()) && model_of(all.last())
            == m {
            1nat
        } else {
            0nat
        })
    }
}

proof fn lemma_listed(all: Seq<Tree>, m: ModelView)
    ensures
        listed(all).to_multiset().count(m) == occurrences(all, m),
    decreases all.len(),
{
    broadcast use vstd::seq_lib::group_to_multiset_ensures;

    if all.len() > 0 {
        lemma_listed(all.drop_last(), m);
    }
}

/// Every model of every provider is offered, as often as Pi lists it and in
/// order, whatever the model in use; and nothing else is.
pub proof fn law_all_models_are_offered(state: Tree, available: Tree, m: ModelView)
    requires
        offered(state, available) is Choose,
    ensures
        in_order(offered(state, available)->Choose_0.models),
        offered(state, available)->Choose_0.models.to_multiset().count(m) == occurrences(
            available.at("models"@).list()->0,
            m,
        ),
{
    let all = available.at("models"@).list()->0;
    lemma_listed(all, m);
    law_models_are_arranged(listed(all));
}

/// There is nothing to choose from only where no entry names a provider.
pub proof fn law_models_are_not_withheld(state: Tree, available: Tree, i: int)
    requires
        available.at("models"@).list() is Some,
        0 <= i < available.at("models"@).list()->0.len(),
        names_provider(available.at("models"@).list()->0[i]),
    ensures
        offered(state, available) is Choose,
{
    let all = available.at("models"@).list()->0;
    lemma_listed_len(all, i);
    law_models_are_arranged(listed(all));
}

proof fn lemma_listed_len(all: Seq<Tree>, i: int)
    requires
        0 <= i < all.len(),
        names_provider(all[i]),
    ensures
        listed(all).len() > 0,
    decreases all.len(),
{
    if i < all.len() - 1 {
        lemma_listed_len(all.drop_last(), i);
    }
}

/// A model is selected with its own provider; the one in use is not selected
/// again.
pub proof fn law_current_model_is_not_reselected(m: ModelsView, i: int)
    requires
        0 <= i < m.models.len(),
        m.models[i].id is Some,
    ensures
        picked(m, i) is Already <==> m.in_use(i),
        picked(m, i) matches PickView::Select(command, _) ==> command.says(
            "provider"@,
            m.models[i].provider,
        ) && command.says("modelId"@, m.models[i].id->0),
{
    reveal_strlit("type");
    reveal_strlit("provider");
    reveal_strlit("modelId");
    reveal_with_fuel(crate::json::entry, 4);
    assert("provider"@[0] == 'p' && "modelId"@[0] == 'm' && "type"@[0] == 't');
}

proof fn lemma_place_from(m: ModelsView, i: int)
    requires
        0 <= i <= m.models.len(),
    ensures
        match place_from(m, i) {
            Some(k) => i <= k < m.models.len() && m.models[k].provider == m.provider
                && m.models[k].id == m.current,
            None => forall|k: int|
                i <= k < m.models.len() ==> (#[trigger] m.models[k]).provider != m.provider
                    || m.models[k].id != m.current,
        },
    decreases m.models.len() - i,
{
    if i < m.models.len() && !m.in_use(i) {
        lemma_place_from(m, i + 1);
    }
}

/// The list opens at the model in use, where that is in it.
pub proof fn law_the_model_in_use_is_found(m: ModelsView)
    ensures
        match place_from(m, 0) {
            Some(k) => 0 <= k < m.models.len() && m.models[k].provider == m.provider
                && m.models[k].id == m.current,
            None => forall|k: int|
                0 <= k < m.models.len() ==> (#[trigger] m.models[k]).provider != m.provider
                    || m.models[k].id != m.current,
        },
{
    lemma_place_from(m, 0);
}

proof fn lemma_menu_starts(m: ModelsView, i: nat, n: nat)
    requires
        i <= n,
    ensures
        starts(menu_rows(m, n), menu_rows(m, i)),
    decreases n,
{
    let part = menu_rows(m, i);
    let all = menu_rows(m, n);
    if i == n {
        assert(all.subrange(0, part.len() as int) =~= part);
    } else {
        lemma_menu_starts(m, i, (n - 1) as nat);
        let before = menu_rows(m, (n - 1) as nat);
        assert(before.subrange(0, part.len() as int) == part);
        assert(all.subrange(0, part.len() as int) =~= before.subrange(0, part.len() as int));
    }
}

/// Every model stands in the menu, behind its number, and the one in use is
/// marked.
pub proof fn law_every_model_is_in_the_menu(m: ModelsView, i: int, id: Seq<char>)
    requires
        0 <= i < m.models.len(),
        m.models[i].id == Some(id),
    ensures
        contains(
            menu_rows(m, m.models.len()),
            "  "@ + decimal((i + 1) as nat) + ". "@ + (m.models[i].provider + "/"@ + id) + (
            if m.models[i].provider == m.provider && m.current == Some(id) {
                "  (current)\n"@
            } else {
                "\n"@
            }),
        ),
{
    let all = menu_rows(m, m.models.len());
    let before = menu_rows(m, i as nat);
    let part = menu_rows(m, (i + 1) as nat);
    let row = "  "@ + decimal((i + 1) as nat) + ". "@ + (m.models[i].provider + "/"@ + id) + (
    if m.models[i].provider == m.provider && m.current == Some(id) {
        "  (current)\n"@
    } else {
        "\n"@
    });
    assert(part =~= before + row);
    lemma_menu_starts(m, (i + 1) as nat, m.models.len());
    let a = before.len() as int;
    assert(all.subrange(0, part.len() as int) == part);
    assert(all.subrange(a, a + row.len()) =~= part.subrange(a, a + row.len()));
    assert(part.subrange(a, a + row.len()) =~= row);
    assert(occurs_at(all, row, a));
}

/// The number that stands before a model chooses it, and another one nothing.
pub proof fn law_numbers_choose_their_model(n: nat, count: nat)
    requires
        n <= usize::MAX,
    ensures
        1 <= n <= count ==> chosen(Some(decimal(n)), count) == Some((n - 1) as nat),
        n == 0 || n > count ==> chosen(Some(decimal(n)), count) is None,
        chosen(None, count) is None,
{
    crate::number::law_numbers_read_back(n, usize::MAX as nat);
    crate::number::lemma_decimal(n);
    let text = decimal(n);
    assert(crate::text::is_digit(text[0]));
    assert(crate::text::is_digit(text.last()));
    assert(crate::text::trim(text) =~= text);
}

/// The heading names the provider where all models are of one.
pub proof fn law_the_scope_is_named(models: Seq<ModelView>, provider: Seq<char>)
    requires
        models.len() > 0,
    ensures
        (forall|i: int| 0 <= i < models.len() ==> (#[trigger] models[i]).provider == provider)
            ==> scope_of(models) == provider,
        (exists|i: int, j: int|
            0 <= i < models.len() && 0 <= j < models.len() && (#[trigger] models[i]).provider != (
            #[trigger] models[j]).provider) ==> scope_of(models) == "all providers"@,
{
}

}
