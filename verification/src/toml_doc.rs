//! TOML documents as the configuration logic reads them: string values,
//! tables, and any other value carried through unchanged by its TOML text.

use vstd::prelude::*;
use crate::assoc::{
    drop_key, find_last, lemma_drop_key_concat, lemma_drop_key_map, lemma_drop_key_single,
    lemma_pairs_map_absent, lemma_pairs_map_empty, lemma_pairs_map_last, lemma_pairs_map_nonempty,
    lemma_pairs_map_push, pairs_map,
};

verus! {

/// A TOML value. `Other` holds a value that this library never reads (a number,
/// a boolean, a date, an array) as its TOML text, so that it is written back
/// as it was.
#[derive(Debug)]
pub enum TomlValue {
    Str(String),
    Table(TomlTable),
    Other(String),
}

/// A TOML table as an association list; a later entry for a key replaces an
/// earlier one.
#[derive(Debug)]
pub struct TomlTable {
    pub entries: Vec<(String, TomlValue)>,
}

/// The mathematical model of a TOML value: tables are maps.
pub enum Toml {
    Str(Seq<char>),
    Table(Map<Seq<char>, Toml>),
    Other(Seq<char>),
}

pub open spec fn toml_of(v: TomlValue) -> Toml
    decreases v,
{
    match v {
        TomlValue::Str(s) => Toml::Str(s@),
        TomlValue::Other(s) => Toml::Other(s@),
        TomlValue::Table(t) => Toml::Table(entries_map(t.entries@)),
    }
}

/// The map that a list of entries denotes.
pub open spec fn entries_map(e: Seq<(String, TomlValue)>) -> Map<Seq<char>, Toml>
    decreases e,
{
    if e.len() == 0 {
        Map::empty()
    } else {
        entries_map(e.drop_last()).insert(e.last().0@, toml_of(e.last().1))
    }
}

/// The model of a list of entries, entry by entry.
pub open spec fn ents(e: Seq<(String, TomlValue)>) -> Seq<(Seq<char>, Toml)> {
    Seq::new(e.len(), |i: int| (e[i].0@, toml_of(e[i].1)))
}

impl View for TomlValue {
    type V = Toml;

    open spec fn view(&self) -> Toml {
        toml_of(*self)
    }
}

impl View for TomlTable {
    type V = Map<Seq<char>, Toml>;

    open spec fn view(&self) -> Map<Seq<char>, Toml> {
        pairs_map(ents(self.entries@))
    }
}

/// A string value, as `Value::as_str` reads it.
pub open spec fn as_str(v: Option<Toml>) -> Option<Seq<char>> {
    match v {
        Some(Toml::Str(s)) => Some(s),
        _ => None,
    }
}

/// A table value, as `Value::as_table` reads it.
pub open spec fn as_table(v: Option<Toml>) -> Option<Map<Seq<char>, Toml>> {
    match v {
        Some(Toml::Table(m)) => Some(m),
        _ => None,
    }
}

pub proof fn lemma_entries_map(e: Seq<(String, TomlValue)>)
    ensures
        entries_map(e) == pairs_map(ents(e)),
    decreases e.len(),
{
    if e.len() > 0 {
        lemma_entries_map(e.drop_last());
        assert(ents(e.drop_last()) =~= ents(e).drop_last());
    } else {
        assert(ents(e) =~= Seq::<(Seq<char>, Toml)>::empty());
    }
}

pub proof fn lemma_table_view(t: TomlTable)
    ensures
        toml_of(TomlValue::Table(t)) == Toml::Table(t@),
{
    lemma_entries_map(t.entries@);
}

proof fn lemma_ents_remove(e: Seq<(String, TomlValue)>, i: int)
    requires
        0 <= i < e.len(),
    ensures
        ents(e.remove(i)) == ents(e).remove(i),
{
    assert(ents(e.remove(i)) =~= ents(e).remove(i));
}

proof fn lemma_ents_push(e: Seq<(String, TomlValue)>, x: (String, TomlValue))
    ensures
        ents(e.push(x)) == ents(e).push((x.0@, toml_of(x.1))),
{
    assert(ents(e.push(x)) =~= ents(e).push((x.0@, toml_of(x.1))));
}

proof fn lemma_drop_key_remove_match<V>(s: Seq<(Seq<char>, V)>, i: int, k: Seq<char>)
    requires
        0 <= i < s.len(),
        s[i].0 == k,
    ensures
        drop_key(s.remove(i), k) == drop_key(s, k),
{
    let a = s.take(i);
    let b = s.skip(i + 1);
    assert(s.remove(i) =~= a + b);
    assert(s =~= a + (seq![s[i]] + b));
    lemma_drop_key_concat(a, b, k);
    lemma_drop_key_concat(a, seq![s[i]] + b, k);
    lemma_drop_key_concat(seq![s[i]], b, k);
    lemma_drop_key_single(s[i], k);
    assert(Seq::<(Seq<char>, V)>::empty() + drop_key(b, k) =~= drop_key(b, k));
}

impl TomlTable {
    pub fn new() -> (t: Self)
        ensures
            t@ == Map::<Seq<char>, Toml>::empty(),
    {
        let t = TomlTable { entries: Vec::new() };
        assert(ents(t.entries@) =~= Seq::empty());
        t
    }

    /// The value for `key`, as `Table::get` gives it.
    pub fn get(&self, key: &str) -> (res: Option<&TomlValue>)
        ensures
            match res {
                Some(v) => self@.get(key@) == Some(v@),
                None => self@.get(key@) is None,
            },
    {
        match find_last(&self.entries, key) {
            Some(i) => {
                proof {
                    let m = ents(self.entries@);
                    assert forall|j: int| i < j < m.len() implies (#[trigger] m[j]).0 != key@ by {
                        assert(m[j].0 == self.entries@[j].0@);
                    }
                    lemma_pairs_map_last(m, i as int, key@);
                }
                Some(&self.entries[i].1)
            },
            None => {
                proof {
                    let m = ents(self.entries@);
                    assert forall|j: int| 0 <= j < m.len() implies (#[trigger] m[j]).0 != key@ by {
                        assert(m[j].0 == self.entries@[j].0@);
                    }
                    lemma_pairs_map_absent(m, key@);
                }
                None
            },
        }
    }

    /// Sets `key` to `value`, replacing what was there.
    pub fn insert(&mut self, key: &str, value: TomlValue)
        ensures
            final(self)@ == old(self)@.insert(key@, value@),
    {
        let ghost e0 = self.entries@;
        let k = key.to_owned();
        self.entries.push((k, value));
        proof {
            lemma_ents_push(e0, (k, value));
            lemma_pairs_map_push(ents(e0), key@, value@);
        }
    }

    /// Removes every entry for `key`.
    pub fn remove(&mut self, key: &str)
        ensures
            final(self)@ == old(self)@.remove(key@),
    {
        let ghost m0 = ents(self.entries@);
        let mut i: usize = self.entries.len();
        assert(ents(self.entries@) =~= m0.take(i as int) + drop_key(m0.skip(i as int), key@)) by {
            assert(m0.skip(i as int) =~= Seq::<(Seq<char>, Toml)>::empty());
            assert(m0.take(i as int) =~= m0);
        }
        while i > 0
            invariant
                i <= m0.len(),
                i <= self.entries@.len(),
                ents(self.entries@) == m0.take(i as int) + drop_key(m0.skip(i as int), key@),
            decreases i,
        {
            i -= 1;
            let ghost cur = self.entries@;
            let ghost x = m0[i as int];
            let ghost d = drop_key(m0.skip(i as int + 1), key@);
            proof {
                assert(m0.skip(i as int) =~= seq![x] + m0.skip(i as int + 1));
                lemma_drop_key_concat(seq![x], m0.skip(i as int + 1), key@);
                lemma_drop_key_single(x, key@);
                assert(m0.take(i as int + 1) =~= m0.take(i as int).push(x));
                assert(ents(cur)[i as int] == x);
                assert(ents(cur)[i as int].0 == cur[i as int].0@);
            }
            if crate::text::str_eq(self.entries[i].0.as_str(), key) {
                self.entries.remove(i);
                proof {
                    lemma_ents_remove(cur, i as int);
                    assert(ents(self.entries@) =~= m0.take(i as int) + drop_key(
                        m0.skip(i as int),
                        key@,
                    ));
                }
            } else {
                proof {
                    assert(ents(self.entries@) =~= m0.take(i as int) + drop_key(
                        m0.skip(i as int),
                        key@,
                    ));
                }
            }
        }
        proof {
            assert(m0.skip(0) =~= m0);
            assert(m0.take(0) + drop_key(m0, key@) =~= drop_key(m0, key@));
            lemma_drop_key_map(m0, key@);
        }
    }

    /// Takes the value for `key` out of the table.
    pub fn take(&mut self, key: &str) -> (res: Option<TomlValue>)
        ensures
            final(self)@ == old(self)@.remove(key@),
            match res {
                Some(v) => old(self)@.get(key@) == Some(v@),
                None => old(self)@.get(key@) is None,
            },
    {
        let ghost e0 = self.entries@;
        match find_last(&self.entries, key) {
            Some(i) => {
                let ghost m = ents(e0);
                proof {
                    assert forall|j: int| i < j < m.len() implies (#[trigger] m[j]).0 != key@ by {
                        assert(m[j].0 == e0[j].0@);
                    }
                    lemma_pairs_map_last(m, i as int, key@);
                }
                let (_, v) = self.entries.remove(i);
                proof {
                    lemma_ents_remove(e0, i as int);
                    lemma_drop_key_remove_match(m, i as int, key@);
                    lemma_drop_key_map(m, key@);
                    lemma_drop_key_map(m.remove(i as int), key@);
                }
                self.remove(key);
                Some(v)
            },
            None => {
                proof {
                    let m = ents(e0);
                    assert forall|j: int| 0 <= j < m.len() implies (#[trigger] m[j]).0 != key@ by {
                        assert(m[j].0 == e0[j].0@);
                    }
                    lemma_pairs_map_absent(m, key@);
                    assert(pairs_map(m).remove(key@) =~= pairs_map(m));
                }
                None
            },
        }
    }

    /// Whether the table has no entry.
    pub fn is_empty(&self) -> (res: bool)
        ensures
            res == (self@ == Map::<Seq<char>, Toml>::empty()),
    {
        let n = self.entries.len();
        proof {
            let m = ents(self.entries@);
            if n > 0 {
                lemma_pairs_map_nonempty(m);
                assert(!Map::<Seq<char>, Toml>::empty().contains_key(m.last().0));
            } else {
                lemma_pairs_map_empty(m);
            }
        }
        n == 0
    }
}


impl TomlValue {
    /// A copy of the value, entry for entry.
    pub fn copy(&self) -> (res: TomlValue)
        ensures
            toml_of(res) == toml_of(*self),
            res@ == self@,
        decreases self,
    {
        match self {
            TomlValue::Str(s) => TomlValue::Str(s.clone()),
            TomlValue::Other(s) => TomlValue::Other(s.clone()),
            TomlValue::Table(t) => {
                let mut out: Vec<(String, TomlValue)> = Vec::new();
                let mut i: usize = 0;
                while i < t.entries.len()
                    invariant
                        *self == TomlValue::Table(*t),
                        i <= t.entries@.len(),
                        out@.len() == i,
                        forall|j: int| 0 <= j < i ==> (#[trigger] out@[j]).0@ == t.entries@[j].0@
                            && toml_of(out@[j].1) == toml_of(t.entries@[j].1),
                    decreases t.entries@.len() - i,
                {
                    proof {
                        let e = t.entries@[i as int];
                        assert(decreases_to!(*self => (*self)->Table_0));
                        assert(decreases_to!(*t => t.entries));
                        assert(decreases_to!(t.entries => t.entries@));
                        assert(decreases_to!(t.entries@ => e));
                        assert(decreases_to!(e => e.1));
                    }
                    let k = t.entries[i].0.clone();
                    let v = t.entries[i].1.copy();
                    out.push((k, v));
                    i += 1;
                }
                proof {
                    assert(ents(out@) =~= ents(t.entries@));
                    lemma_entries_map(out@);
                    lemma_entries_map(t.entries@);
                }
                TomlValue::Table(TomlTable { entries: out })
            },
        }
    }
}

impl TomlTable {
    /// A copy of the table, entry for entry.
    pub fn copy(&self) -> (res: TomlTable)
        ensures
            res@ == self@,
    {
        let mut out: Vec<(String, TomlValue)> = Vec::new();
        let mut i: usize = 0;
        while i < self.entries.len()
            invariant
                i <= self.entries@.len(),
                out@.len() == i,
                forall|j: int| 0 <= j < i ==> (#[trigger] out@[j]).0@ == self.entries@[j].0@
                    && toml_of(out@[j].1) == toml_of(self.entries@[j].1),
            decreases self.entries@.len() - i,
        {
            let k = self.entries[i].0.clone();
            let c = self.entries[i].1.copy();
            out.push((k, c));
            i += 1;
        }
        assert(ents(out@) =~= ents(self.entries@));
        TomlTable { entries: out }
    }
}

} // verus!
