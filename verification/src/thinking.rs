//! Choosing how much the model thinks.
use crate::error::text_view;
use crate::json::{add_field, object, text, Json, Tree};
use crate::lines::{join, join_texts, texts};
use crate::text::{cat3, copy, same};
use vstd::prelude::*;

verus! {

pub const NO_MODEL: &'static str = "Choose a model with /models first.\n";

pub const BAD_LEVELS: &'static str = "invalid get_available_thinking_levels response";

pub const LEVELS_TITLE: &'static str = "Thinking · Pi model";

pub const NO_LEVEL: &'static str = "Use /thinking with a level, or in an interactive terminal.\n";

/// What a model offers, and what it does now.
pub struct Levels {
    pub levels: Vec<String>,
    pub current: Option<String>,
}

/// What a [`Levels`] holds.
#[verifier::ext_equal]
pub struct LevelsView {
    pub levels: Seq<Seq<char>>,
    pub current: Option<Seq<char>>,
}

impl View for Levels {
    type V = LevelsView;

    open spec fn view(&self) -> LevelsView {
        LevelsView { levels: texts(self.levels@), current: text_view(self.current) }
    }
}

/// Whether the session has a model; without one nothing is asked of Pi.
pub fn has_model(state: &Json) -> (r: bool)
    ensures
        r == !(state@.at("model"@) is Null),
{
    !state.at("model").is_null()
}

/// Every item is a text.
pub open spec fn all_texts(list: Seq<Tree>) -> bool {
    forall|i: int| 0 <= i < list.len() ==> (#[trigger] list[i]) is Text
}

/// What there is to choose from, given the session and what Pi offers.
pub open spec fn levels_of(state: Tree, available: Tree) -> Option<LevelsView> {
    match available.at("levels"@).list() {
        Some(list) => if all_texts(list) {
            Some(
                LevelsView {
                    levels: Seq::new(list.len(), |i: int| list[i]->Text_0),
                    current: state.text_at("thinkingLevel"@),
                },
            )
        } else {
            None
        },
        None => None,
    }
}

/// What there is to choose from; nothing, where Pi's answer makes no sense.
pub fn levels(state: &Json, available: &Json) -> (r: Option<Levels>)
    ensures
        match r {
            Some(levels) => levels_of(state@, available@) == Some(levels@),
            None => levels_of(state@, available@) is None,
        },
{
    let list = match available.at("levels").as_list() {
        Some(list) => list,
        None => {
            return None;
        },
    };
    let ghost trees = available@.at("levels"@).list()->0;
    let mut levels: Vec<String> = Vec::new();
    let mut i: usize = 0;
    while i < list.len()
        invariant
            i <= list@.len(),
            trees.len() == list@.len(),
            trees == available@.at("levels"@).list()->0,
            available@.at("levels"@).list() is Some,
            forall|j: int| 0 <= j < list@.len() ==> (#[trigger] list@[j])@ == trees[j],
            levels@.len() == i,
            forall|j: int|
                0 <= j < i ==> (#[trigger] trees[j]) is Text && levels@[j]@ == trees[j]->Text_0,
        decreases list@.len() - i,
    {
        assert(list@[i as int]@ == trees[i as int]);
        match list[i].as_text() {
            Some(level) => {
                levels.push(copy(level));
            },
            None => {
                assert(!(trees[i as int] is Text));
                return None;
            },
        }
        i = i + 1;
    }
    let current = match state.text_at("thinkingLevel") {
        Some(level) => Some(copy(level)),
        None => None,
    };
    let r = Levels { levels, current };
    assert(r@.levels =~= levels_of(state@, available@)->0.levels);
    Some(r)
}

/// What choosing a level does.
pub enum LevelStep {
    /// It is in use already, or there is no such level; what is said.
    Say(String),
    /// The command that sets it, and what is said once it was accepted.
    Choose(Json, String),
}

/// What a [`LevelStep`] says.
pub enum LevelStepView {
    Say(Seq<char>),
    Choose(Tree, Seq<char>),
}

impl View for LevelStep {
    type V = LevelStepView;

    open spec fn view(&self) -> LevelStepView {
        match *self {
            LevelStep::Say(line) => LevelStepView::Say(line@),
            LevelStep::Choose(command, line) => LevelStepView::Choose(command@, line@),
        }
    }
}

/// The command that sets a level.
pub open spec fn level_command(level: Seq<char>) -> Tree {
    Tree::Object(
        seq![("type"@, Tree::Text("set_thinking_level"@)), ("level"@, Tree::Text(level))],
    )
}

impl LevelsView {
    /// The place of the level in use, from `i` on.
    pub open spec fn place(self, i: int) -> Option<int>
        decreases self.levels.len() - i,
    {
        if i < 0 || i >= self.levels.len() {
            None
        } else if self.current == Some(self.levels[i]) {
            Some(i)
        } else {
            self.place(i + 1)
        }
    }

    /// What the level of this name does.
    pub open spec fn named(self, level: Seq<char>) -> LevelStepView {
        if !self.levels.contains(level) {
            LevelStepView::Say(
                "Unknown thinking level. Available: "@ + join(self.levels, ", "@) + "\n"@,
            )
        } else if self.current == Some(level) {
            LevelStepView::Say("Already using "@ + level + " thinking.\n"@)
        } else {
            LevelStepView::Choose(
                level_command(level),
                "Thinking level: "@ + level + " (Pi).\n"@,
            )
        }
    }
}

impl Levels {
    /// The place of the level in use.
    pub fn active(&self) -> (r: Option<usize>)
        ensures
            match r {
                Some(i) => self@.place(0) == Some(i as int),
                None => self@.place(0) is None,
            },
    {
        let mut i: usize = 0;
        while i < self.levels.len()
            invariant
                i <= self.levels@.len(),
                self@.place(0) == self@.place(i as int),
            decreases self.levels@.len() - i,
        {
            assert(self@.levels[i as int] == self.levels@[i as int]@);
            if self.is_current(self.levels[i].as_str()) {
                return Some(i);
            }
            i = i + 1;
        }
        None
    }

    fn is_current(&self, level: &str) -> (r: bool)
        ensures
            r == (self@.current == Some(level@)),
    {
        match &self.current {
            Some(current) => same(current.as_str(), level),
            None => false,
        }
    }

    fn has(&self, level: &str) -> (r: bool)
        ensures
            r == self@.levels.contains(level@),
    {
        let mut i: usize = 0;
        while i < self.levels.len()
            invariant
                i <= self.levels@.len(),
                forall|j: int| 0 <= j < i ==> #[trigger] self@.levels[j] != level@,
            decreases self.levels@.len() - i,
        {
            assert(self@.levels[i as int] == self.levels@[i as int]@);
            if same(self.levels[i].as_str(), level) {
                return true;
            }
            i = i + 1;
        }
        false
    }

    /// What the level of this name does: it is set only where Pi offers it and
    /// it is another one.
    pub fn named(&self, level: &str) -> (r: LevelStep)
        ensures
            r@ == self@.named(level@),
    {
        if !self.has(level) {
            let all = join_texts(&self.levels, ", ");
            return LevelStep::Say(
                cat3("Unknown thinking level. Available: ", all.as_str(), "\n"),
            );
        }
        if self.is_current(level) {
            return LevelStep::Say(cat3("Already using ", level, " thinking.\n"));
        }
        let mut parts: Vec<(String, Json)> = Vec::new();
        assert(crate::json::fields_view(parts@) =~= Seq::empty());
        add_field(&mut parts, "type", text("set_thinking_level"));
        add_field(&mut parts, "level", text(level));
        let command = object(parts);
        assert(command@->Object_0 =~= level_command(level@)->Object_0);
        LevelStep::Choose(command, cat3("Thinking level: ", level, " (Pi).\n"))
    }

    /// What choosing the level `i` of the list does; nothing, where none was
    /// chosen.
    pub fn pick(&self, choice: Option<usize>) -> (r: Option<LevelStep>)
        ensures
            match choice {
                Some(i) => if i < self@.levels.len() {
                    r is Some && r->0@ == self@.named(self@.levels[i as int])
                } else {
                    r is None
                },
                None => r is None,
            },
    {
        match choice {
            Some(i) => if i < self.levels.len() {
                assert(self@.levels[i as int] == self.levels@[i as int]@);
                Some(self.named(self.levels[i].as_str()))
            } else {
                None
            },
            None => None,
        }
    }
}

// ---------------------------------------------------------------------------
// Laws
// ---------------------------------------------------------------------------

/// Only a level that Pi offers is ever set, and never the one in use.
pub proof fn law_only_offered_levels_are_set(l: LevelsView, level: Seq<char>)
    requires
        l.named(level) is Choose,
    ensures
        l.levels.contains(level),
        l.current != Some(level),
        l.named(level)->Choose_0.says("level"@, level),
{
    reveal_strlit("type");
    reveal_strlit("level");
    reveal_with_fuel(crate::json::entry, 3);
    assert("type"@.len() != "level"@.len());
    assert(level_command(level)->Object_0.drop_first() =~= seq![("level"@, Tree::Text(level))]);
}

/// A level that Pi offers is set when it is asked for, unless it is in use;
/// the levels that are offered are Pi's, in Pi's order.
pub proof fn law_offered_levels_can_be_set(l: LevelsView, level: Seq<char>)
    requires
        l.levels.contains(level),
    ensures
        l.current != Some(level) ==> l.named(level) is Choose,
        l.current == Some(level) ==> l.named(level) is Say,
{
}

/// The levels are those of Pi's list, one by one.
pub proof fn law_all_levels_are_offered(state: Tree, available: Tree, i: int)
    requires
        levels_of(state, available) is Some,
    ensures
        available.at("levels"@).list() is Some,
        levels_of(state, available)->0.levels.len() == available.at("levels"@).list()->0.len(),
        0 <= i < available.at("levels"@).list()->0.len() ==> available.at(
            "levels"@,
        ).list()->0[i].text() == Some(levels_of(state, available)->0.levels[i]),
        levels_of(state, available)->0.current == state.text_at("thinkingLevel"@),
{
}

proof fn lemma_place(l: LevelsView, i: int)
    requires
        0 <= i <= l.levels.len(),
    ensures
        match l.place(i) {
            Some(k) => i <= k < l.levels.len() && l.current == Some(l.levels[k]),
            None => forall|k: int|
                i <= k < l.levels.len() ==> l.current != Some(#[trigger] l.levels[k]),
        },
    decreases l.levels.len() - i,
{
    if i < l.levels.len() && l.current != Some(l.levels[i]) {
        lemma_place(l, i + 1);
    }
}

/// The level in use is the one that is selected at first.
pub proof fn law_the_level_in_use_is_marked(l: LevelsView)
    ensures
        match l.place(0) {
            Some(k) => 0 <= k < l.levels.len() && l.current == Some(l.levels[k]),
            None => forall|k: int|
                0 <= k < l.levels.len() ==> l.current != Some(#[trigger] l.levels[k]),
        },
{
    lemma_place(l, 0);
}

}
