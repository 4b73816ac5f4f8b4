//! A map from names to values that keeps its entries in lexicographic order
//! of the names, so that walking it always gives the same sequence.

use vstd::prelude::*;
use crate::text::{lex_lt, lemma_lex_irreflexive, lemma_lex_total, lemma_lex_transitive, str_order, Order};

verus! {

/// The model of an ordered map: its entries in order, each a name and a value.
pub type Entries<V> = Seq<(Seq<char>, V)>;

/// Every name comes strictly before all names behind it.
pub open spec fn keys_sorted<V>(s: Entries<V>) -> bool {
    forall|i: int, j: int| 0 <= i < j < s.len() ==> lex_lt(#[trigger] s[i].0, #[trigger] s[j].0)
}

/// How many leading entries carry a name that comes before `name`.
pub open spec fn rank<V>(s: Entries<V>, name: Seq<char>) -> int
    decreases s.len(),
{
    if s.len() == 0 || !lex_lt(s[0].0, name) {
        0
    } else {
        1 + rank(s.drop_first(), name)
    }
}

/// The value stored under `name`, if there is one.
pub open spec fn lookup<V>(s: Entries<V>, name: Seq<char>) -> Option<V> {
    let i = rank(s, name);
    if i < s.len() && s[i].0 == name {
        Some(s[i].1)
    } else {
        None
    }
}

/// The entries after `value` has been stored under `name`: an entry of that
/// name is overwritten in place, a new one goes where the order puts it.
pub open spec fn put<V>(s: Entries<V>, name: Seq<char>, value: V) -> Entries<V> {
    let i = rank(s, name);
    if i < s.len() && s[i].0 == name {
        s.update(i, (name, value))
    } else {
        s.insert(i, (name, value))
    }
}

/// The rank splits the entries: names before it come before `name`, the
/// name at it does not.
pub proof fn lemma_rank<V>(s: Entries<V>, name: Seq<char>)
    ensures
        0 <= rank(s, name) <= s.len(),
        forall|j: int| 0 <= j < rank(s, name) ==> lex_lt(#[trigger] s[j].0, name),
        rank(s, name) < s.len() ==> !lex_lt(s[rank(s, name)].0, name),
    decreases s.len(),
{
    if s.len() == 0 || !lex_lt(s[0].0, name) {
    } else {
        let t = s.drop_first();
        lemma_rank(t, name);
        assert forall|j: int| 0 <= j < rank(s, name) implies lex_lt(#[trigger] s[j].0, name) by {
            if j > 0 {
                assert(s[j] == t[j - 1]);
            }
        }
        if rank(s, name) < s.len() {
            assert(s[rank(s, name)] == t[rank(t, name)]);
        }
    }
}

/// The rank counted from position `i` on, when the first `i` names all come
/// before `name`.
proof fn lemma_rank_skip<V>(s: Entries<V>, name: Seq<char>, i: int)
    requires
        0 <= i <= s.len(),
        forall|j: int| 0 <= j < i ==> lex_lt(#[trigger] s[j].0, name),
    ensures
        rank(s, name) == i + rank(s.skip(i), name),
    decreases i,
{
    if i == 0 {
        assert(s.skip(0) =~= s);
    } else {
        let t = s.drop_first();
        assert(lex_lt(s[0].0, name));
        assert forall|j: int| 0 <= j < i - 1 implies lex_lt(#[trigger] t[j].0, name) by {
            assert(t[j] == s[j + 1]);
        }
        lemma_rank_skip(t, name, i - 1);
        assert(t.skip(i - 1) =~= s.skip(i));
    }
}

/// In sorted entries a name can only sit at its rank.
pub proof fn lemma_lookup_found<V>(s: Entries<V>, i: int)
    requires
        keys_sorted(s),
        0 <= i < s.len(),
    ensures
        rank(s, s[i].0) == i,
        lookup(s, s[i].0) == Some(s[i].1),
{
    let name = s[i].0;
    lemma_rank(s, name);
    let r = rank(s, name);
    lemma_lex_irreflexive(name);
    if r < i {
        assert(lex_lt(s[r].0, s[i].0));
    }
}

/// In sorted entries a name that is stored sits at its rank, and one that
/// is not stored is found nowhere.
pub proof fn lemma_lookup_none<V>(s: Entries<V>, name: Seq<char>)
    requires
        keys_sorted(s),
    ensures
        lookup(s, name) is None <==> forall|i: int| 0 <= i < s.len() ==> (#[trigger] s[i]).0
            != name,
{
    lemma_rank(s, name);
    if lookup(s, name) is None {
        assert forall|i: int| 0 <= i < s.len() implies (#[trigger] s[i]).0 != name by {
            if s[i].0 == name {
                lemma_lookup_found(s, i);
            }
        }
    }
}

/// Storing keeps the entries sorted.
pub proof fn lemma_put_sorted<V>(s: Entries<V>, name: Seq<char>, value: V)
    requires
        keys_sorted(s),
    ensures
        keys_sorted(put(s, name, value)),
{
    lemma_rank(s, name);
    let r = rank(s, name);
    let t = put(s, name, value);
    if r < s.len() && s[r].0 == name {
        assert forall|i: int, j: int| 0 <= i < j < t.len() implies lex_lt(
            #[trigger] t[i].0,
            #[trigger] t[j].0,
        ) by {
            assert(t[i].0 == s[i].0);
            assert(t[j].0 == s[j].0);
        }
    } else {
        assert forall|i: int, j: int| 0 <= i < j < t.len() implies lex_lt(
            #[trigger] t[i].0,
            #[trigger] t[j].0,
        ) by {
            if j < r {
                assert(t[i] == s[i] && t[j] == s[j]);
            } else if j == r {
                assert(t[i] == s[i]);
            } else if i == r {
                // the new name against an old one behind it
                assert(t[j] == s[j - 1]);
                lemma_lex_total(s[r].0, name);
                assert(lex_lt(name, s[r].0));
                if j - 1 > r {
                    assert(lex_lt(s[r].0, s[j - 1].0));
                    lemma_lex_transitive(name, s[r].0, s[j - 1].0);
                }
            } else if i < r {
                assert(t[i] == s[i] && t[j] == s[j - 1]);
            } else {
                assert(t[i] == s[i - 1] && t[j] == s[j - 1]);
            }
        }
    }
}

/// Where a name stands after it has been stored.
pub proof fn lemma_put_rank<V>(s: Entries<V>, name: Seq<char>, value: V)
    requires
        keys_sorted(s),
    ensures
        rank(put(s, name, value), name) == rank(s, name),
        put(s, name, value)[rank(s, name)] == (name, value),
{
    lemma_rank(s, name);
    lemma_put_sorted(s, name, value);
    let t = put(s, name, value);
    lemma_lookup_found(t, rank(s, name));
}

/// What was stored under a name is found under it.
pub proof fn lemma_lookup_put_same<V>(s: Entries<V>, name: Seq<char>, value: V)
    requires
        keys_sorted(s),
    ensures
        lookup(put(s, name, value), name) == Some(value),
{
    lemma_put_rank(s, name, value);
    lemma_rank(s, name);
}

/// Storing under one name changes nothing under any other.
pub proof fn lemma_lookup_put_other<V>(s: Entries<V>, name: Seq<char>, value: V, other: Seq<char>)
    requires
        keys_sorted(s),
        other != name,
    ensures
        lookup(put(s, name, value), other) == lookup(s, other),
{
    lemma_rank(s, name);
    lemma_put_sorted(s, name, value);
    let r = rank(s, name);
    let t = put(s, name, value);
    lemma_lookup_none(s, other);
    lemma_lookup_none(t, other);
    if lookup(s, other) is Some {
        let i = rank(s, other);
        lemma_rank(s, other);
        // the entry survives, at its place or one further
        let k = if r < s.len() && s[r].0 == name {
            i
        } else if i < r {
            i
        } else {
            i + 1
        };
        assert(t[k] == s[i]);
        lemma_lookup_found(t, k);
    } else {
        assert forall|k: int| 0 <= k < t.len() implies (#[trigger] t[k]).0 != other by {
            if r < s.len() && s[r].0 == name {
                if k != r {
                    assert(t[k] == s[k]);
                }
            } else if k < r {
                assert(t[k] == s[k]);
            } else if k > r {
                assert(t[k] == s[k - 1]);
            }
        }
    }
}

/// A name behind all stored names is appended.
pub proof fn lemma_put_last<V>(s: Entries<V>, name: Seq<char>, value: V)
    requires
        forall|j: int| 0 <= j < s.len() ==> lex_lt(#[trigger] s[j].0, name),
    ensures
        put(s, name, value) == s.push((name, value)),
{
    lemma_rank_skip(s, name, s.len() as int);
    assert(s.skip(s.len() as int).len() == 0);
    assert(s.insert(s.len() as int, (name, value)) =~= s.push((name, value)));
}

/// Changing the values by a function changes neither ranks nor names.
pub proof fn lemma_rank_map_values<V, W>(s: Entries<V>, f: spec_fn(V) -> W, name: Seq<char>)
    ensures
        rank(map_entries(s, f), name) == rank(s, name),
    decreases s.len(),
{
    let t = map_entries(s, f);
    if s.len() == 0 || !lex_lt(s[0].0, name) {
    } else {
        lemma_rank_map_values(s.drop_first(), f, name);
        assert(t.drop_first() =~= map_entries(s.drop_first(), f));
    }
}

/// The entries with every value replaced by its image under `f`.
pub open spec fn map_entries<V, W>(s: Entries<V>, f: spec_fn(V) -> W) -> Entries<W> {
    Seq::new(s.len(), |i: int| (s[i].0, f(s[i].1)))
}

/// Storing and then changing all values is changing all values and then
/// storing the changed value; looking up likewise.
pub proof fn lemma_map_entries<V, W>(s: Entries<V>, f: spec_fn(V) -> W, name: Seq<char>, value: V)
    ensures
        map_entries(put(s, name, value), f) == put(map_entries(s, f), name, f(value)),
        lookup(map_entries(s, f), name) == match lookup(s, name) {
            Some(v) => Some(f(v)),
            None => None,
        },
        keys_sorted(s) <==> keys_sorted(map_entries(s, f)),
{
    lemma_rank_map_values(s, f, name);
    lemma_rank(s, name);
    let t = map_entries(s, f);
    assert(map_entries(put(s, name, value), f) =~= put(t, name, f(value)));
    if keys_sorted(s) {
        assert forall|i: int, j: int| 0 <= i < j < t.len() implies lex_lt(
            #[trigger] t[i].0,
            #[trigger] t[j].0,
        ) by {
            assert(lex_lt(s[i].0, s[j].0));
        }
    }
    if keys_sorted(t) {
        assert forall|i: int, j: int| 0 <= i < j < s.len() implies lex_lt(
            #[trigger] s[i].0,
            #[trigger] s[j].0,
        ) by {
            assert(lex_lt(t[i].0, t[j].0));
        }
    }
}

/// A map from names to values, kept in lexicographic order of the names.
#[derive(Debug)]
pub struct OrderedMap<V> {
    entries: Vec<(String, V)>,
}

impl<V> View for OrderedMap<V> {
    type V = Entries<V>;

    closed spec fn view(&self) -> Entries<V> {
        model_of(self.entries@)
    }
}

/// The model of stored entries: each name by its text.
spec fn model_of<V>(entries: Seq<(String, V)>) -> Entries<V> {
    Seq::new(entries.len(), |i: int| (entries[i].0@, entries[i].1))
}

impl<V> OrderedMap<V> {
    #[verifier::type_invariant]
    spec fn inv(self) -> bool {
        keys_sorted(self@)
    }

    /// The empty map.
    pub fn new() -> (r: Self)
        ensures
            r@ == Seq::<(Seq<char>, V)>::empty(),
    {
        let r = Self { entries: Vec::new() };
        assert(r@ =~= Seq::<(Seq<char>, V)>::empty());
        r
    }

    /// The number of entries; the names of a map are always sorted.
    pub fn len(&self) -> (r: usize)
        ensures
            r == self@.len(),
            keys_sorted(self@),
    {
        proof {
            use_type_invariant(self);
        }
        self.entries.len()
    }

    /// The name of the entry at position `i`.
    pub fn key(&self, i: usize) -> (r: &String)
        requires
            i < self@.len(),
        ensures
            r@ == self@[i as int].0,
    {
        &self.entries[i].0
    }

    /// The value of the entry at position `i`.
    pub fn value(&self, i: usize) -> (r: &V)
        requires
            i < self@.len(),
        ensures
            *r == self@[i as int].1,
    {
        &self.entries[i].1
    }

    /// The rank of `name`, and whether the entry there carries that name.
    fn locate(&self, name: &str) -> (r: (usize, bool))
        ensures
            r.0 == rank(self@, name@),
            r.0 <= self@.len(),
            r.1 == (r.0 < self@.len() && self@[r.0 as int].0 == name@),
            keys_sorted(self@),
    {
        proof {
            use_type_invariant(self);
        }
        let n = self.entries.len();
        let mut i: usize = 0;
        while i < n
            invariant
                n == self@.len(),
                n == self.entries@.len(),
                keys_sorted(self@),
                i <= n,
                forall|j: int| 0 <= j < i ==> lex_lt(#[trigger] self@[j].0, name@),
            decreases n - i,
        {
            let o = str_order(self.entries[i].0.as_str(), name);
            assert(self@[i as int].0 == self.entries@[i as int].0@);
            match o {
                Order::Less => {
                    i = i + 1;
                },
                Order::Equal => {
                    proof {
                        lemma_rank_skip(self@, name@, i as int);
                        lemma_lex_irreflexive(name@);
                        assert(self@.skip(i as int)[0] == self@[i as int]);
                    }
                    return (i, true);
                },
                Order::Greater => {
                    proof {
                        lemma_rank_skip(self@, name@, i as int);
                        assert(self@.skip(i as int)[0] == self@[i as int]);
                    }
                    return (i, false);
                },
            }
        }
        proof {
            lemma_rank_skip(self@, name@, i as int);
            assert(self@.skip(i as int).len() == 0);
        }
        (i, false)
    }

    /// Whether a value is stored under `name`.
    pub fn contains_key(&self, name: &str) -> (r: bool)
        ensures
            r == lookup(self@, name@).is_some(),
    {
        let (_, found) = self.locate(name);
        found
    }

    /// The value stored under `name`.
    pub fn get(&self, name: &str) -> (r: Option<&V>)
        ensures
            r.is_some() == lookup(self@, name@).is_some(),
            r.is_some() ==> *r.unwrap() == lookup(self@, name@).unwrap(),
    {
        let (i, found) = self.locate(name);
        if found {
            Some(&self.entries[i].1)
        } else {
            None
        }
    }

    /// Adds an entry whose name comes behind all names of the map.
    pub fn append(&mut self, name: String, value: V)
        requires
            forall|j: int| 0 <= j < old(self)@.len() ==> lex_lt(#[trigger] old(self)@[j].0, name@),
        ensures
            final(self)@ == old(self)@.push((name@, value)),
    {
        proof {
            lemma_put_last(self@, name@, value);
        }
        self.insert(name, value);
    }

    /// Stores `value` under `name` and hands back what was stored there
    /// before.
    pub fn insert(&mut self, name: String, value: V) -> (r: Option<V>)
        ensures
            final(self)@ == put(old(self)@, name@, value),
            r == lookup(old(self)@, name@),
            keys_sorted(final(self)@),
    {
        let (i, found) = self.locate(name.as_str());
        proof {
            lemma_put_sorted(self@, name@, value);
        }
        let ghost before = self@;
        let ghost key = name@;
        let mut taken = Self { entries: Vec::new() };
        assert(taken@ =~= Seq::<(Seq<char>, V)>::empty());
        std::mem::swap(self, &mut taken);
        let mut entries = taken.entries;
        let previous = if found {
            let mut entry = (name, value);
            std::mem::swap(&mut entries[i], &mut entry);
            Some(entry.1)
        } else {
            entries.insert(i, (name, value));
            None
        };
        assert(model_of(entries@) =~= put(before, key, value));
        *self = Self { entries };
        previous
    }
}

} // verus!
