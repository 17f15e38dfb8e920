//! Declarations of node templates for the editor: ports in display order,
//! with their data types.
use vstd::prelude::*;
use vstd::seq_lib::{to_multiset_insert, to_multiset_build};
use crate::text::same_text;

verus! {

/// Why a node script could not be read.
#[derive(Clone, Debug, PartialEq, Eq)]
pub enum NodeScriptLoadingError {
    InvalidScript,
    MissingValue(String),
    InvalidIODeclaration,
}

/// Data carried by a port.
#[derive(Clone, Copy, Debug, PartialEq, Eq)]
pub enum DataType {
    Flow,
    Number,
    Text,
    Boolean,
    Structure,
    Any,
}

/// The data type named by a port declaration's `type` field; unknown names are `Any`.
pub open spec fn data_type_of(name: Seq<char>) -> DataType {
    if name == "flow"@ {
        DataType::Flow
    } else if name == "number"@ {
        DataType::Number
    } else if name == "text"@ {
        DataType::Text
    } else if name == "boolean"@ {
        DataType::Boolean
    } else if name == "struct"@ {
        DataType::Structure
    } else {
        DataType::Any
    }
}

/// The number that stands for each data type in declarations.
pub open spec fn data_type_code(t: DataType) -> u8 {
    match t {
        DataType::Flow => 0,
        DataType::Number => 1,
        DataType::Text => 2,
        DataType::Boolean => 3,
        DataType::Structure => 4,
        DataType::Any => 5,
    }
}

impl DataType {
    /// The data type named `name`.
    pub fn from_type_name(name: &str) -> (r: DataType)
        ensures
            r == data_type_of(name@),
    {
        if same_text(name, "flow") {
            DataType::Flow
        } else if same_text(name, "number") {
            DataType::Number
        } else if same_text(name, "text") {
            DataType::Text
        } else if same_text(name, "boolean") {
            DataType::Boolean
        } else if same_text(name, "struct") {
            DataType::Structure
        } else {
            DataType::Any
        }
    }

    /// The number standing for this type.
    pub fn code(&self) -> (r: u8)
        ensures
            r == data_type_code(*self),
    {
        match self {
            DataType::Flow => 0,
            DataType::Number => 1,
            DataType::Text => 2,
            DataType::Boolean => 3,
            DataType::Structure => 4,
            DataType::Any => 5,
        }
    }

    /// The type standing for `code`; codes above 4 are `Any`.
    pub fn from_code(code: u8) -> (r: DataType)
        ensures
            code <= 5 ==> data_type_code(r) == code,
            code > 5 ==> r == DataType::Any,
    {
        if code == 0 {
            DataType::Flow
        } else if code == 1 {
            DataType::Number
        } else if code == 2 {
            DataType::Text
        } else if code == 3 {
            DataType::Boolean
        } else if code == 4 {
            DataType::Structure
        } else {
            DataType::Any
        }
    }
}

/// The type of a port: its data type and, for structures, their tags.
#[derive(Clone, Debug)]
pub struct NodeIOTy {
    pub ty: DataType,
    pub struct_tags: Vec<String>,
}

/// A port of a node template: its type and display name.
#[derive(Clone, Debug)]
pub struct NodeIO {
    pub ty: NodeIOTy,
    pub name: String,
}

impl NodeIO {
    /// A control-flow port with display name `name`.
    pub fn flow_port(name: String) -> (r: NodeIO)
        ensures
            r.ty.ty == DataType::Flow,
            r.ty.struct_tags@.len() == 0,
            r.name@ == name@,
    {
        NodeIO { ty: NodeIOTy { ty: DataType::Flow, struct_tags: Vec::new() }, name }
    }
}

/// `s` is ordered by position number.
pub open spec fn sorted_by_index(s: Seq<(String, usize)>) -> bool {
    forall|i: int, j: int| 0 <= i < j < s.len() ==> s[i].1 <= s[j].1
}

/// The keys of `keymap`, ordered by their position numbers.
pub open spec fn keys_in_order(keymap: Seq<(String, usize)>, keys: Seq<Seq<char>>) -> bool {
    exists|s: Seq<(String, usize)>|
        s.to_multiset() == keymap.to_multiset() && sorted_by_index(s) && keys == s.map_values(
            |e: (String, usize)| e.0@,
        )
}

/// The keys of `keymap`, ordered by their position numbers; keys with equal
/// numbers keep their order.
fn order_keys(keymap: Vec<(String, usize)>) -> (r: Vec<String>)
    ensures
        keys_in_order(keymap@, r@.map_values(|k: String| k@)),
{
    broadcast use vstd::multiset::group_multiset_axioms;

    let ghost all = keymap@;
    let mut pending = keymap;
    let mut sorted: Vec<(String, usize)> = Vec::new();
    assert(sorted@.to_multiset() =~= vstd::multiset::Multiset::empty()) by {
        sorted@.to_multiset_ensures();
        vstd::multiset::lemma_multiset_empty_len(sorted@.to_multiset());
    }
    while pending.len() > 0
        invariant
            sorted_by_index(sorted@),
            sorted@.to_multiset().add(pending@.to_multiset()) == all.to_multiset(),
        decreases pending@.len(),
    {
        let ghost before_pending = pending@;
        let item = pending.remove(0);
        proof {
            assert(before_pending =~= pending@.insert(0, item));
            to_multiset_insert(pending@, 0, item);
        }
        let mut k: usize = 0;
        while k < sorted.len() && sorted[k].1 <= item.1
            invariant
                k <= sorted@.len(),
                forall|t: int| 0 <= t < k ==> sorted@[t].1 <= item.1,
            decreases sorted@.len() - k,
        {
            k = k + 1;
        }
        let ghost before = sorted@;
        let ghost it = item;
        sorted.insert(k, item);
        proof {
            to_multiset_insert(before, k as int, it);
            assert(sorted@.to_multiset().add(pending@.to_multiset()) =~= before.to_multiset().add(before_pending.to_multiset()));
            assert forall|i: int, j: int| 0 <= i < j < sorted@.len() implies sorted@[i].1 <= sorted@[j].1 by {
                if j < k {
                    assert(sorted@[i] == before[i] && sorted@[j] == before[j]);
                } else if j == k {
                    assert(sorted@[i] == before[i]);
                } else if i < k {
                    assert(sorted@[j] == before[j - 1]);
                    assert(sorted@[i] == before[i]);
                    assert(before[k as int].1 > it.1);
                    assert(before[k as int].1 <= before[j - 1].1);
                } else if i == k {
                    assert(sorted@[j] == before[j - 1]);
                    assert(before[k as int].1 <= before[j - 1].1);
                } else {
                    assert(sorted@[i] == before[i - 1]);
                    assert(sorted@[j] == before[j - 1]);
                }
            }
        }
    }
    proof {
        pending@.to_multiset_ensures();
        vstd::multiset::lemma_multiset_empty_len(pending@.to_multiset());
        assert(sorted@.to_multiset() =~= all.to_multiset());
    }
    let mut keys: Vec<String> = Vec::new();
    let mut i: usize = 0;
    while i < sorted.len()
        invariant
            i <= sorted@.len(),
            keys@.len() == i,
            keys@.map_values(|k: String| k@) == sorted@.subrange(0, i as int).map_values(|e: (String, usize)| e.0@),
        decreases sorted@.len() - i,
    {
        let ghost prev = keys@;
        keys.push(sorted[i].0.clone());
        assert forall|t: int| 0 <= t < i + 1 implies keys@[t]@ == sorted@[t].0@ by {
            if t < i {
                assert(keys@[t] == prev[t]);
                assert(prev.map_values(|k: String| k@)[t] == sorted@.subrange(0, i as int).map_values(
                    |e: (String, usize)| e.0@,
                )[t]);
            }
        }
        assert(keys@.map_values(|k: String| k@) =~= sorted@.subrange(0, i + 1).map_values(|e: (String, usize)| e.0@));
        i = i + 1;
    }
    assert(sorted@.subrange(0, sorted@.len() as int) =~= sorted@);
    assert(sorted@.to_multiset() == all.to_multiset() && sorted_by_index(sorted@)
        && keys@.map_values(|k: String| k@) == sorted@.map_values(|e: (String, usize)| e.0@));
    keys
}


/// The map that `entries` describe, a later entry for a key replacing an earlier one.
pub open spec fn entries_map<V>(entries: Seq<(String, V)>) -> Map<Seq<char>, V>
    decreases entries.len(),
{
    if entries.len() == 0 {
        Map::empty()
    } else {
        entries_map(entries.drop_last()).insert(entries.last().0@, entries.last().1)
    }
}

proof fn lemma_entries_map_append<V>(a: Seq<(String, V)>, b: Seq<(String, V)>)
    ensures
        entries_map(a + b) == entries_map_onto(entries_map(a), b),
    decreases b.len(),
{
    if b.len() > 0 {
        assert((a + b).drop_last() =~= a + b.drop_last());
        lemma_entries_map_append(a, b.drop_last());
    } else {
        assert(a + b =~= a);
    }
}

/// `m` with the entries of `b` put in, in order.
pub open spec fn entries_map_onto<V>(m: Map<Seq<char>, V>, b: Seq<(String, V)>) -> Map<Seq<char>, V>
    decreases b.len(),
{
    if b.len() == 0 {
        m
    } else {
        entries_map_onto(m, b.drop_last()).insert(b.last().0@, b.last().1)
    }
}

/// A map that keeps the order in which its keys were declared.
pub struct KeyMap<V> {
    keys: Vec<String>,
    values: Vec<(String, V)>,
}

impl<V> KeyMap<V> {
    /// The keys, in order.
    pub closed spec fn key_order(&self) -> Seq<Seq<char>> {
        self.keys@.map_values(|k: String| k@)
    }

    /// The values by key.
    pub closed spec fn values_map(&self) -> Map<Seq<char>, V> {
        entries_map(self.values@)
    }

    /// A map with no keys.
    pub fn new() -> (r: KeyMap<V>)
        ensures
            r.key_order().len() == 0,
            r.values_map() == Map::<Seq<char>, V>::empty(),
    {
        KeyMap { keys: Vec::new(), values: Vec::new() }
    }

    /// Appends `key` to the order and binds it to `value`.
    pub fn insert(&mut self, key: String, value: V)
        ensures
            final(self).key_order() == old(self).key_order().push(key@),
            final(self).values_map() == old(self).values_map().insert(key@, value),
    {
        let k2 = key.clone();
        self.keys.push(k2);
        self.values.push((key, value));
        assert(self.key_order() =~= old(self).key_order().push(key@));
        assert(self.values@.drop_last() =~= old(self).values@);
    }

    /// The keys of `keymap` ordered by their position numbers, with the values of `map`.
    pub fn from_map_and_keymap(map: Vec<(String, V)>, keymap: Vec<(String, usize)>) -> (r: KeyMap<V>)
        ensures
            keys_in_order(keymap@, r.key_order()),
            r.values_map() == entries_map(map@),
    {
        let keys = order_keys(keymap);
        KeyMap { keys, values: map }
    }

    /// Appends the keys of `keymap`, ordered by their position numbers, and
    /// puts in the values of `map`.
    pub fn extend_from_map_and_keymap(&mut self, map: Vec<(String, V)>, keymap: Vec<(String, usize)>)
        ensures
            exists|added: Seq<Seq<char>>|
                keys_in_order(keymap@, added) && final(self).key_order() == old(self).key_order() + added,
            final(self).values_map() == entries_map_onto(old(self).values_map(), map@),
    {
        let ghost km = keymap@;
        let ghost mv = map@;
        let mut keys = order_keys(keymap);
        let ghost added = keys@.map_values(|k: String| k@);
        let ghost old_values = self.values@;
        self.keys.append(&mut keys);
        let mut map = map;
        self.values.append(&mut map);
        proof {
            assert(self.key_order() =~= old(self).key_order() + added);
            lemma_entries_map_append(old_values, mv);
        }
    }

    /// The keys in order.
    pub fn keys(&self) -> (r: &Vec<String>)
        ensures
            r@.map_values(|k: String| k@) == self.key_order(),
    {
        &self.keys
    }

    /// The value bound to `key`, if any.
    pub fn get(&self, key: &str) -> (r: Option<&V>)
        ensures
            r is None <==> !self.values_map().contains_key(key@),
            r matches Some(v) ==> *v == self.values_map()[key@],
    {
        let mut i: usize = self.values.len();
        assert(self.values@.subrange(0, i as int) =~= self.values@);
        while i > 0
            invariant
                i <= self.values@.len(),
                entries_map(self.values@).contains_key(key@) == entries_map(self.values@.subrange(0, i as int)).contains_key(key@),
                entries_map(self.values@).contains_key(key@) ==> entries_map(self.values@)[key@] == entries_map(self.values@.subrange(0, i as int))[key@],
            decreases i,
        {
            let ghost pre = self.values@.subrange(0, i as int);
            assert(pre.drop_last() =~= self.values@.subrange(0, i - 1));
            if same_text(&self.values[i - 1].0, key) {
                return Some(&self.values[i - 1].1);
            }
            i = i - 1;
        }
        assert(self.values@.subrange(0, 0) =~= Seq::<(String, V)>::empty());
        None
    }
}

} // verus!
