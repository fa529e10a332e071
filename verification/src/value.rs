//! The decoded key/value tree: tagged values and nodes.
//!
//! A node is a mapping from string keys to tagged values; a value may itself
//! be a nested node. At the specification level a node is a
//! `Map<Seq<char>, ValueView>`; the executable [`KeyValue`] stores its
//! entries in decode order and lets a later binding for a key shadow an
//! earlier one, so its view collapses duplicates exactly as the wire format
//! demands: the last occurrence of a key wins.

use vstd::prelude::*;

verus! {

broadcast use vstd::std_specs::vec::group_vec_axioms, vstd::seq::group_seq_axioms;

/// Specification-level form of a decoded value.
///
/// `Float32` carries the raw IEEE-754 bit pattern of the 4-byte payload;
/// the bits are preserved verbatim and never interpreted here.
pub ghost enum ValueView {
    Text(Seq<char>),
    WideText(Seq<char>),
    Int32(i32),
    Pointer(i32),
    Color(i32),
    UInt64(u64),
    Int64(i64),
    Float32(u32),
    Node(Map<Seq<char>, ValueView>),
}

/// A decoded value, one case per wire type tag.
///
/// `PointerType` and `ColorType` share the 4-byte signed wire layout with
/// `Int32Type` but are distinct semantic tags and are kept distinct.
/// `Float32Type` holds the raw IEEE-754 bit pattern of the payload,
/// uninterpreted.
#[derive(Debug, PartialEq)]
pub enum Value {
    StringType(String),
    WideStringType(String),
    Int32Type(i32),
    PointerType(i32),
    ColorType(i32),
    UInt64Type(u64),
    Int64Type(i64),
    Float32Type(u32),
    KeyValueType(KeyValue),
}

/// A decoded node: a string-keyed mapping whose values may be nested nodes.
///
/// Entries are kept in the order they were inserted; when a key is bound
/// twice, the later entry shadows the earlier one everywhere the node is
/// observed.
#[derive(Debug, PartialEq)]
pub struct KeyValue {
    entries: Vec<(String, Value)>,
}

/// What a [`Value`] denotes.
pub open spec fn value_view(v: Value) -> ValueView
    decreases v,
{
    match v {
        Value::StringType(s) => ValueView::Text(s@),
        Value::WideStringType(s) => ValueView::WideText(s@),
        Value::Int32Type(n) => ValueView::Int32(n),
        Value::PointerType(n) => ValueView::Pointer(n),
        Value::ColorType(n) => ValueView::Color(n),
        Value::UInt64Type(n) => ValueView::UInt64(n),
        Value::Int64Type(n) => ValueView::Int64(n),
        Value::Float32Type(bits) => ValueView::Float32(bits),
        Value::KeyValueType(kv) => ValueView::Node(node_view(kv)),
    }
}

/// The mapping a [`KeyValue`] denotes. Its entries are folded in insertion
/// order, so a later binding for a key overwrites an earlier one; how the
/// node stores the entries stays hidden behind this function, and
/// [`KeyValue`]'s methods state everything a caller may rely on.
pub closed spec fn node_view(kv: KeyValue) -> Map<Seq<char>, ValueView>
    decreases kv,
{
    entries_view(kv.entries@)
}

/// The mapping denoted by a sequence of entries; see [`node_view`].
spec fn entries_view(s: Seq<(String, Value)>) -> Map<Seq<char>, ValueView>
    decreases s,
{
    if s.len() == 0 {
        Map::empty()
    } else {
        entries_view(s.drop_last()).insert(s.last().0@, value_view(s.last().1))
    }
}

impl View for Value {
    type V = ValueView;

    open spec fn view(&self) -> ValueView {
        value_view(*self)
    }
}

impl View for KeyValue {
    type V = Map<Seq<char>, ValueView>;

    open spec fn view(&self) -> Map<Seq<char>, ValueView> {
        node_view(*self)
    }
}

impl KeyValue {
    /// An empty node.
    pub fn new() -> (r: KeyValue)
        ensures
            r@ == Map::<Seq<char>, ValueView>::empty(),
    {
        KeyValue { entries: Vec::new() }
    }

    /// Binds `key` to `value`, overwriting any prior binding of `key`.
    pub fn insert(&mut self, key: String, value: Value)
        ensures
            final(self)@ == old(self)@.insert(key@, value@),
    {
        self.entries.push((key, value));
        proof {
            assert(self.entries@.drop_last() =~= old(self).entries@);
        }
    }

    /// Looks `key` up; the binding returned is the most recent one.
    pub fn get(&self, key: &String) -> (r: Option<&Value>)
        ensures
            match r {
                Some(v) => self@.contains_key(key@) && v@ == self@[key@],
                None => !self@.contains_key(key@),
            },
    {
        let mut i: usize = self.entries.len();
        while i > 0
            invariant
                i <= self.entries@.len(),
                forall|j: int| i <= j < self.entries@.len() ==> self.entries@[j].0@ != key@,
            decreases i,
        {
            i = i - 1;
            if self.entries[i].0 == *key {
                proof {
                    lemma_entries_view_found(self.entries@, i as int, key@);
                }
                return Some(&self.entries[i].1);
            }
        }
        proof {
            lemma_entries_view_absent(self.entries@, key@);
        }
        None
    }

    /// Walks a path of keys through nested nodes.
    ///
    /// At each step the current key is looked up in the current node; if the
    /// value found is itself a node and keys remain, the walk descends into
    /// it; when the keys are exhausted the value found last is the result.
    /// The walk yields `None` for an empty path, for a missing intermediate
    /// key, and for an intermediate value that is not a node.
    pub fn lookup(&self, keys: &[String]) -> (r: Option<&Value>)
        ensures
            match r {
                Some(v) => spec_lookup(self@, path_view(keys@)) == Some(v@),
                None => spec_lookup(self@, path_view(keys@)) is None,
            },
        decreases keys@.len(),
    {
        if keys.len() == 0 {
            return None;
        }
        let key = vstd::slice::slice_index_get(keys, 0);
        match self.get(key) {
            None => None,
            Some(v) => {
                if keys.len() == 1 {
                    Some(v)
                } else {
                    match v {
                        Value::KeyValueType(sub) => {
                            let rest = vstd::slice::slice_subrange(keys, 1, keys.len());
                            proof {
                                assert(path_view(rest@) =~= path_view(keys@).skip(1));
                            }
                            sub.lookup(rest)
                        },
                        _ => None,
                    }
                }
            },
        }
    }
}

/// What walking a path of keys through nested nodes yields; see
/// [`KeyValue::lookup`].
pub open spec fn spec_lookup(m: Map<Seq<char>, ValueView>, keys: Seq<Seq<char>>) -> Option<
    ValueView,
>
    decreases keys.len(),
{
    if keys.len() == 0 {
        None
    } else if !m.contains_key(keys[0]) {
        None
    } else if keys.len() == 1 {
        Some(m[keys[0]])
    } else {
        match m[keys[0]] {
            ValueView::Node(sub) => spec_lookup(sub, keys.skip(1)),
            _ => None,
        }
    }
}

/// The key path denoted by a sequence of key strings.
pub open spec fn path_view(keys: Seq<String>) -> Seq<Seq<char>> {
    Seq::new(keys.len(), |i: int| keys[i]@)
}

/// Within one node, a later binding for a key overwrites an earlier one:
/// after binding `k` to `v1` and then to `v2`, the node maps `k` to `v2`
/// alone, as if `v1` had never been bound.
pub proof fn lemma_insert_overwrites(
    m: Map<Seq<char>, ValueView>,
    k: Seq<char>,
    v1: ValueView,
    v2: ValueView,
)
    ensures
        m.insert(k, v1).insert(k, v2) == m.insert(k, v2),
        m.insert(k, v1).insert(k, v2)[k] == v2,
{
    assert(m.insert(k, v1).insert(k, v2) =~= m.insert(k, v2));
}

/// In the mapping denoted by `s`, a key whose last occurrence is at `i` is
/// bound to the value of that occurrence.
proof fn lemma_entries_view_found(s: Seq<(String, Value)>, i: int, k: Seq<char>)
    requires
        0 <= i < s.len(),
        s[i].0@ == k,
        forall|j: int| i < j < s.len() ==> s[j].0@ != k,
    ensures
        entries_view(s).contains_key(k),
        entries_view(s)[k] == value_view(s[i].1),
    decreases s.len(),
{
    if i == s.len() - 1 {
    } else {
        lemma_entries_view_found(s.drop_last(), i, k);
    }
}

/// A key that occurs in no entry is absent from the denoted mapping.
proof fn lemma_entries_view_absent(s: Seq<(String, Value)>, k: Seq<char>)
    requires
        forall|j: int| 0 <= j < s.len() ==> s[j].0@ != k,
    ensures
        !entries_view(s).contains_key(k),
    decreases s.len(),
{
    if s.len() > 0 {
        lemma_entries_view_absent(s.drop_last(), k);
    }
}

} // verus!
