//! Association lists keyed by text.
use crate::text::same;
use vstd::prelude::*;

verus! {

/// The first place of `name` among `names`, from `i` on.
pub open spec fn name_from(names: Seq<Seq<char>>, name: Seq<char>, i: int) -> Option<int>
    decreases names.len() - i,
{
    if i < 0 || i >= names.len() {
        None
    } else if names[i] == name {
        Some(i)
    } else {
        name_from(names, name, i + 1)
    }
}

/// The first place of `name` among `names`.
pub open spec fn name_index(names: Seq<Seq<char>>, name: Seq<char>) -> Option<int> {
    name_from(names, name, 0)
}

/// The names of the entries of a list.
pub open spec fn names_of<W>(entries: Seq<(Seq<char>, W)>) -> Seq<Seq<char>> {
    Seq::new(entries.len(), |i: int| entries[i].0)
}

/// The names of the entries of a list of texts and values.
pub open spec fn keys_of<V>(entries: Seq<(String, V)>) -> Seq<Seq<char>> {
    Seq::new(entries.len(), |i: int| entries[i].0@)
}

/// No two entries have the same name.
pub open spec fn distinct<W>(entries: Seq<(Seq<char>, W)>) -> bool {
    forall|i: int, j: int|
        0 <= i < j < entries.len() ==> (#[trigger] entries[i]).0 != (#[trigger] entries[j]).0
}

/// The entries with one more, or another, value for a name.
pub open spec fn put<W>(entries: Seq<(Seq<char>, W)>, name: Seq<char>, value: W) -> Seq<
    (Seq<char>, W),
> {
    match name_index(names_of(entries), name) {
        Some(i) => entries.update(i, (name, value)),
        None => entries.push((name, value)),
    }
}

proof fn lemma_name_from(names: Seq<Seq<char>>, name: Seq<char>, i: int)
    requires
        0 <= i <= names.len(),
    ensures
        match name_from(names, name, i) {
            Some(k) => i <= k < names.len() && names[k] == name,
            None => forall|j: int| i <= j < names.len() ==> names[j] != name,
        },
    decreases names.len() - i,
{
    if i < names.len() && names[i] != name {
        lemma_name_from(names, name, i + 1);
    }
}

/// The place of a name is the place of an entry with that name.
pub proof fn lemma_name_index<W>(entries: Seq<(Seq<char>, W)>, name: Seq<char>)
    ensures
        match name_index(names_of(entries), name) {
            Some(k) => 0 <= k < entries.len() && entries[k].0 == name,
            None => forall|j: int| 0 <= j < entries.len() ==> (#[trigger] entries[j]).0 != name,
        },
{
    let names = names_of(entries);
    lemma_name_from(names, name, 0);
    assert forall|j: int| 0 <= j < entries.len() implies (#[trigger] entries[j]).0 == names[j] by {}
}

/// A name has one entry after another value was put in its place.
pub proof fn lemma_put_distinct<W>(entries: Seq<(Seq<char>, W)>, name: Seq<char>, value: W)
    requires
        distinct(entries),
    ensures
        distinct(put(entries, name, value)),
{
    lemma_name_index(entries, name);
}

pub proof fn lemma_remove_distinct<W>(entries: Seq<(Seq<char>, W)>, k: int)
    requires
        distinct(entries),
        0 <= k < entries.len(),
    ensures
        distinct(entries.remove(k)),
{
    let left = entries.remove(k);
    assert forall|i: int, j: int| 0 <= i < j < left.len() implies (#[trigger] left[i]).0
        != (#[trigger] left[j]).0 by {
        let a = if i < k { i } else { i + 1 };
        let b = if j < k { j } else { j + 1 };
        assert(left[i] == entries[a] && left[j] == entries[b]);
    }
}

/// The place of the first entry named `name`.
pub fn place_of<V>(entries: &Vec<(String, V)>, name: &str) -> (r: Option<usize>)
    ensures
        r matches Some(i) ==> i < entries@.len() && entries@[i as int].0@ == name@ && name_index(
            keys_of(entries@),
            name@,
        ) == Some(i as int),
        r is None ==> name_index(keys_of(entries@), name@) is None,
{
    let mut i: usize = 0;
    while i < entries.len()
        invariant
            i <= entries@.len(),
            name_index(keys_of(entries@), name@) == name_from(keys_of(entries@), name@, i as int),
        decreases entries@.len() - i,
    {
        if same(entries[i].0.as_str(), name) {
            return Some(i);
        }
        i = i + 1;
    }
    None
}

/// The place of a name is the first one.
pub proof fn lemma_first_name(names: Seq<Seq<char>>, name: Seq<char>, i: int)
    requires
        0 <= i <= names.len(),
    ensures
        match name_from(names, name, i) {
            Some(k) => i <= k < names.len() && names[k] == name && forall|j: int|
                i <= j < k ==> names[j] != name,
            None => forall|j: int| i <= j < names.len() ==> names[j] != name,
        },
    decreases names.len() - i,
{
    if i < names.len() && names[i] != name {
        lemma_first_name(names, name, i + 1);
    }
}

/// A value that was put under a name is found there, and no other name has
/// another value.
pub proof fn law_values_are_found_by_name<W>(
    entries: Seq<(Seq<char>, W)>,
    name: Seq<char>,
    value: W,
    k: int,
)
    requires
        distinct(entries),
        0 <= k < entries.len(),
        entries[k].0 != name,
    ensures
        put(entries, name, value)[k] == entries[k],
        put(entries, name, value).contains((name, value)),
        (exists|i: int| 0 <= i < entries.len() && (#[trigger] entries[i]).0 == name) ==> put(
            entries,
            name,
            value,
        ).len() == entries.len(),
        (forall|i: int| 0 <= i < entries.len() ==> (#[trigger] entries[i]).0 != name) ==> put(
            entries,
            name,
            value,
        ) == entries.push((name, value)),
{
    lemma_name_index(entries, name);
    let all = put(entries, name, value);
    match name_index(names_of(entries), name) {
        Some(i) => {
            assert(all[i] == (name, value));
        },
        None => {
            assert(all[entries.len() as int] == (name, value));
        },
    }
}

}
