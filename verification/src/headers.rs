//! Header fields: a mapping from names to values that remembers the order in
//! which the names first came.

use crate::text::str_eq;
use vstd::prelude::*;

verus! {

/// The index of the first entry of `entries` named `key`, or the length of
/// `entries` where there is none.
pub open spec fn position(entries: Seq<(Seq<char>, Seq<char>)>, key: Seq<char>) -> int
    decreases entries.len(),
{
    if entries.len() == 0 || entries[0].0 == key {
        0
    } else {
        1 + position(entries.drop_first(), key)
    }
}

/// The value that `entries` holds for `key`.
pub open spec fn lookup(entries: Seq<(Seq<char>, Seq<char>)>, key: Seq<char>) -> Option<
    Seq<char>,
> {
    if position(entries, key) < entries.len() {
        Some(entries[position(entries, key)].1)
    } else {
        None
    }
}

/// `entries` after `key` was set to `value`: a name that is there keeps its
/// place and gets the new value, a new name goes to the end.
pub open spec fn put(
    entries: Seq<(Seq<char>, Seq<char>)>,
    key: Seq<char>,
    value: Seq<char>,
) -> Seq<(Seq<char>, Seq<char>)> {
    if position(entries, key) < entries.len() {
        entries.update(position(entries, key), (key, value))
    } else {
        entries.push((key, value))
    }
}

/// Whether no name occurs twice in `entries`.
pub open spec fn distinct_keys(entries: Seq<(Seq<char>, Seq<char>)>) -> bool {
    forall|i: int, j: int|
        0 <= i < j < entries.len() ==> (#[trigger] entries[i]).0 != (#[trigger] entries[j]).0
}

/// `entries` as a mapping from names to values.
pub open spec fn as_map(entries: Seq<(Seq<char>, Seq<char>)>) -> Map<Seq<char>, Seq<char>> {
    Map::new(
        |key: Seq<char>| position(entries, key) < entries.len(),
        |key: Seq<char>| entries[position(entries, key)].1,
    )
}

/// `position` is the one index with no entry named `key` before it that
/// holds such an entry or is the end.
pub proof fn lemma_position(entries: Seq<(Seq<char>, Seq<char>)>, key: Seq<char>)
    ensures
        0 <= position(entries, key) <= entries.len(),
        forall|j: int| 0 <= j < position(entries, key) ==> (#[trigger] entries[j]).0 != key,
        position(entries, key) < entries.len() ==> entries[position(entries, key)].0 == key,
    decreases entries.len(),
{
    if entries.len() == 0 || entries[0].0 == key {
    } else {
        let rest = entries.drop_first();
        lemma_position(rest, key);
        assert forall|j: int| 0 <= j < position(entries, key) implies (#[trigger] entries[j]).0
            != key by {
            if j > 0 {
                assert(entries[j] == rest[j - 1]);
            }
        }
    }
}

/// Any index with no entry named `key` before it that holds such an entry
/// or is the end is `position`.
pub proof fn lemma_position_is(entries: Seq<(Seq<char>, Seq<char>)>, key: Seq<char>, i: int)
    requires
        0 <= i <= entries.len(),
        forall|j: int| 0 <= j < i ==> (#[trigger] entries[j]).0 != key,
        i < entries.len() ==> entries[i].0 == key,
    ensures
        position(entries, key) == i,
{
    lemma_position(entries, key);
    let k = position(entries, key);
    if k < i {
        assert(entries[k].0 == key);
    } else if k > i {
        assert(entries[i].0 == key);
    }
}

/// After `key` was set to `value`, a lookup of `key` gives `value` and every
/// other lookup gives what it gave before.
pub proof fn lemma_put_then_lookup(
    entries: Seq<(Seq<char>, Seq<char>)>,
    key: Seq<char>,
    value: Seq<char>,
    other: Seq<char>,
)
    ensures
        lookup(put(entries, key, value), other) == if other == key {
            Some(value)
        } else {
            lookup(entries, other)
        },
{
    let after = put(entries, key, value);
    let at = position(entries, key);
    lemma_position(entries, key);
    lemma_position(entries, other);
    let i = position(entries, other);
    if other == key {
        assert forall|j: int| 0 <= j < at implies (#[trigger] after[j]).0 != key by {
            assert(after[j] == entries[j]);
        }
        lemma_position_is(after, key, at);
    } else if i < entries.len() {
        assert forall|j: int| 0 <= j < i implies (#[trigger] after[j]).0 != other by {
            if j != at {
                assert(after[j] == entries[j]);
            }
        }
        lemma_position_is(after, other, i);
    } else {
        assert forall|j: int| 0 <= j < after.len() implies (#[trigger] after[j]).0 != other by {
            if j != at {
                assert(after[j] == entries[j]);
            }
        }
        lemma_position_is(after, other, after.len() as int);
    }
}

/// Setting a field is an insertion into the mapping: the last value set for
/// a name is the one that stays.
pub proof fn lemma_put_is_map_insert(
    entries: Seq<(Seq<char>, Seq<char>)>,
    key: Seq<char>,
    value: Seq<char>,
)
    ensures
        as_map(put(entries, key, value)) == as_map(entries).insert(key, value),
{
    let after = put(entries, key, value);
    let wanted = as_map(entries).insert(key, value);
    assert forall|other: Seq<char>| #[trigger]
        as_map(after).dom().contains(other) == wanted.dom().contains(other) by {
        lemma_put_then_lookup(entries, key, value, other);
    }
    assert forall|other: Seq<char>| #[trigger]
        as_map(after).dom().contains(other) implies as_map(after)[other] == wanted[other] by {
        lemma_put_then_lookup(entries, key, value, other);
    }
    assert(as_map(after) =~= as_map(entries).insert(key, value));
}

/// Setting a field leaves every name in `entries` once.
pub proof fn lemma_put_keeps_distinct(
    entries: Seq<(Seq<char>, Seq<char>)>,
    key: Seq<char>,
    value: Seq<char>,
)
    requires
        distinct_keys(entries),
    ensures
        distinct_keys(put(entries, key, value)),
{
    let after = put(entries, key, value);
    let at = position(entries, key);
    lemma_position(entries, key);
    assert forall|i: int, j: int| 0 <= i < j < after.len() implies (#[trigger] after[i]).0 != (
    #[trigger] after[j]).0 by {
        if at < entries.len() {
            assert(after[i].0 == entries[i].0);
            assert(after[j].0 == entries[j].0);
        } else if j < entries.len() {
            assert(after[i] == entries[i]);
            assert(after[j] == entries[j]);
        } else {
            assert(after[i] == entries[i]);
        }
    }
}

/// Header fields, each name once, in the order in which the names were first
/// set. Names are compared as they are: `Host` and `host` are two names.
#[derive(Debug)]
pub struct Headers {
    entries: Vec<(String, String)>,
}

impl View for Headers {
    type V = Seq<(Seq<char>, Seq<char>)>;

    closed spec fn view(&self) -> Seq<(Seq<char>, Seq<char>)> {
        Seq::new(self.entries@.len(), |i: int| (self.entries@[i].0@, self.entries@[i].1@))
    }
}

impl Headers {
    #[verifier::type_invariant]
    spec fn unique(&self) -> bool {
        distinct_keys(self@)
    }

    /// No fields.
    pub fn new() -> (headers: Headers)
        ensures
            headers@ == Seq::<(Seq<char>, Seq<char>)>::empty(),
    {
        let headers = Headers { entries: Vec::new() };
        assert(headers@ =~= Seq::<(Seq<char>, Seq<char>)>::empty());
        headers
    }

    /// The number of fields.
    pub fn len(&self) -> (n: usize)
        ensures
            n == self@.len(),
    {
        self.entries.len()
    }

    /// The index of the field named `key`, or the number of fields where
    /// there is none.
    fn find(&self, key: &str) -> (at: usize)
        ensures
            at == position(self@, key@),
            at <= self.entries@.len(),
            self@.len() == self.entries@.len(),
    {
        let mut i: usize = 0;
        while i < self.entries.len()
            invariant
                i <= self.entries@.len(),
                self@.len() == self.entries@.len(),
                forall|j: int| 0 <= j < i ==> (#[trigger] self@[j]).0 != key@,
            decreases self.entries@.len() - i,
        {
            if str_eq(self.entries[i].0.as_str(), key) {
                proof {
                    assert(self@[i as int].0 == key@);
                    lemma_position_is(self@, key@, i as int);
                }
                return i;
            }
            assert(self@[i as int].0 != key@);
            i += 1;
        }
        proof {
            lemma_position_is(self@, key@, i as int);
        }
        i
    }

    /// Whether a field is named `key`.
    pub fn contains_key(&self, key: &str) -> (yes: bool)
        ensures
            yes == lookup(self@, key@).is_some(),
    {
        self.find(key) < self.entries.len()
    }

    /// The value of the field named `key`.
    pub fn get(&self, key: &str) -> (value: Option<&String>)
        ensures
            match value {
                Some(v) => lookup(self@, key@) == Some(v@),
                None => lookup(self@, key@).is_none(),
            },
    {
        let at: usize = self.find(key);
        if at < self.entries.len() {
            assert(self@[at as int].1 == self.entries@[at as int].1@);
            Some(&self.entries[at].1)
        } else {
            None
        }
    }

    /// Name and value of field `i`.
    pub fn entry(&self, i: usize) -> (field: (&String, &String))
        requires
            i < self@.len(),
        ensures
            (field.0@, field.1@) == self@[i as int],
    {
        (&self.entries[i].0, &self.entries[i].1)
    }

    /// Sets the field named `key` to `value`. The last value set for a name
    /// is the one that stays.
    pub fn insert(&mut self, key: String, value: String)
        ensures
            final(self)@ == put(old(self)@, key@, value@),
            distinct_keys(final(self)@),
    {
        proof {
            use_type_invariant(&*self);
            lemma_put_keeps_distinct(self@, key@, value@);
        }
        let at: usize = self.find(key.as_str());
        let mut entries: Vec<(String, String)> = Vec::new();
        core::mem::swap(&mut self.entries, &mut entries);
        assert(self@ =~= Seq::<(Seq<char>, Seq<char>)>::empty());
        if at < entries.len() {
            entries.set(at, (key, value));
        } else {
            entries.push((key, value));
        }
        let ghost fields = Seq::new(entries@.len(), |i: int| (entries@[i].0@, entries@[i].1@));
        assert(fields =~= put(old(self)@, key@, value@));
        core::mem::swap(&mut self.entries, &mut entries);
        assert(self@ =~= fields);
    }
}

} // verus!
