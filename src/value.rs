use vstd::prelude::*;

verus! {

/// A format-agnostic structured value, as produced by a JSON or YAML reader.
///
/// Numbers that are integers are held exactly; any other number is held as its
/// decimal text. An object keeps its entries in the order in which they were read.
#[derive(Debug, PartialEq)]
pub enum Value {
    Null,
    Bool(bool),
    Integer(i128),
    Decimal(String),
    Str(String),
    Array(Vec<Value>),
    Object(Vec<(String, Value)>),
}

/// Whether two values are the same tree: equal scalars, and arrays and objects whose
/// entries are pairwise the same, in the same order.
pub open spec fn same(a: Value, b: Value) -> bool
    decreases a,
{
    match (a, b) {
        (Value::Array(x), Value::Array(y)) => x@.len() == y@.len() && forall|i: int|
            0 <= i < x@.len() ==> same(#[trigger] x@[i], y@[i]),
        (Value::Object(x), Value::Object(y)) => x@.len() == y@.len() && forall|i: int|
            0 <= i < x@.len() ==> #[trigger] x@[i].0@ == y@[i].0@ && same(x@[i].1, y@[i].1),
        _ => a == b,
    }
}

/// The value of the first entry named `key`, if any.
pub open spec fn lookup(entries: Seq<(String, Value)>, key: Seq<char>) -> Option<Value>
    decreases entries.len(),
{
    if entries.len() == 0 {
        None
    } else if entries[0].0@ == key {
        Some(entries[0].1)
    } else {
        lookup(entries.drop_first(), key)
    }
}

/// The entry `key` of an object value; `None` for a value that is no object.
pub open spec fn field(v: Value, key: Seq<char>) -> Option<Value> {
    match v {
        Value::Object(entries) => lookup(entries@, key),
        _ => None,
    }
}

/// Sameness of values goes both ways.
pub proof fn lemma_same_symmetric(a: Value, b: Value)
    requires
        same(a, b),
    ensures
        same(b, a),
    decreases a,
{
    match a {
        Value::Array(x) => {
            assert forall|i: int| 0 <= i < x@.len() implies same(
                #[trigger] b->Array_0@[i],
                x@[i],
            ) by {
                vstd::std_specs::vec::axiom_vec_index_decreases(x, i);
                lemma_same_symmetric(x@[i], b->Array_0@[i]);
            }
        },
        Value::Object(x) => {
            assert forall|i: int| 0 <= i < x@.len() implies (#[trigger] b->Object_0@[i]).0@
                == x@[i].0@ && same(b->Object_0@[i].1, x@[i].1) by {
                vstd::std_specs::vec::axiom_vec_index_decreases(x, i);
                assert(decreases_to!(a => x@[i].1));
                assert(x@[i].0@ == b->Object_0@[i].0@);
                lemma_same_symmetric(x@[i].1, b->Object_0@[i].1);
            }
        },
        _ => {},
    }
}

/// Sameness of values carries over: what is the same as a value that is the same as
/// `a` is the same as `a`.
pub proof fn lemma_same_transitive(a: Value, b: Value, c: Value)
    requires
        same(a, b),
        same(b, c),
    ensures
        same(a, c),
    decreases a,
{
    match a {
        Value::Array(x) => {
            assert forall|i: int| 0 <= i < x@.len() implies same(
                #[trigger] x@[i],
                c->Array_0@[i],
            ) by {
                vstd::std_specs::vec::axiom_vec_index_decreases(x, i);
                lemma_same_transitive(x@[i], b->Array_0@[i], c->Array_0@[i]);
            }
        },
        Value::Object(x) => {
            assert forall|i: int| 0 <= i < x@.len() implies (#[trigger] x@[i]).0@
                == c->Object_0@[i].0@ && same(x@[i].1, c->Object_0@[i].1) by {
                vstd::std_specs::vec::axiom_vec_index_decreases(x, i);
                assert(decreases_to!(a => x@[i].1));
                assert(x@[i].0@ == b->Object_0@[i].0@);
                assert(b->Object_0@[i].0@ == c->Object_0@[i].0@);
                lemma_same_transitive(x@[i].1, b->Object_0@[i].1, c->Object_0@[i].1);
            }
        },
        _ => {},
    }
}

/// Entry lists that are the same answer every lookup alike.
pub proof fn lemma_lookup_same(a: Seq<(String, Value)>, b: Seq<(String, Value)>, k: Seq<char>)
    requires
        same_entries(a, b),
    ensures
        lookup(a, k) is Some <==> lookup(b, k) is Some,
        lookup(a, k) is Some ==> same(lookup(a, k)->Some_0, lookup(b, k)->Some_0),
    decreases a.len(),
{
    if a.len() > 0 {
        assert(a[0].0@ == b[0].0@);
        assert forall|i: int| 0 <= i < a.drop_first().len() implies (
        #[trigger] a.drop_first()[i]).0@ == b.drop_first()[i].0@ && same(
            a.drop_first()[i].1,
            b.drop_first()[i].1,
        ) by {
            assert(a.drop_first()[i] == a[i + 1]);
        }
        lemma_lookup_same(a.drop_first(), b.drop_first(), k);
    }
}

/// A lookup after appending an entry finds what it found before, else the new entry
/// where its key matches.
pub proof fn lemma_lookup_push(e: Seq<(String, Value)>, x: (String, Value), k: Seq<char>)
    ensures
        lookup(e.push(x), k) == if lookup(e, k) is Some {
            lookup(e, k)
        } else if x.0@ == k {
            Some(x.1)
        } else {
            None::<Value>
        },
    decreases e.len(),
{
    if e.len() > 0 {
        assert(e.push(x)[0] == e[0]);
        assert(e.push(x).drop_first() =~= e.drop_first().push(x));
        lemma_lookup_push(e.drop_first(), x, k);
    } else {
        assert(e.push(x)[0] == x);
        assert(e.push(x).drop_first() =~= Seq::<(String, Value)>::empty());
        assert(lookup(e.push(x).drop_first(), k) is None);
    }
}

/// A lookup finds something only under a key that some entry has.
pub proof fn lemma_lookup_key(e: Seq<(String, Value)>, k: Seq<char>)
    requires
        lookup(e, k) is Some,
    ensures
        exists|i: int| 0 <= i < e.len() && (#[trigger] e[i]).0@ == k,
    decreases e.len(),
{
    if e[0].0@ != k {
        lemma_lookup_key(e.drop_first(), k);
        let i = choose|i: int| 0 <= i < e.drop_first().len() && (#[trigger] e.drop_first()[i]).0@ == k;
        assert(e[i + 1] == e.drop_first()[i]);
    }
}

impl Value {
    /// The first entry named `key` of an object value.
    pub fn get(&self, key: &String) -> (r: Option<&Value>)
        ensures
            r is Some == field(*self, key@) is Some,
            r is Some ==> *r->Some_0 == field(*self, key@)->Some_0,
    {
        match self {
            Value::Object(entries) => {
                let mut i: usize = 0;
                assert(entries@.subrange(0, entries@.len() as int) =~= entries@);
                while i < entries.len()
                    invariant
                        0 <= i <= entries@.len(),
                        *self == Value::Object(*entries),
                        field(*self, key@) == lookup(entries@.subrange(i as int, entries@.len() as int), key@),
                    decreases entries.len() - i,
                {
                    let ghost rest = entries@.subrange(i as int, entries@.len() as int);
                    assert(rest[0] == entries@[i as int]);
                    if entries[i].0 == *key {
                        return Some(&entries[i].1);
                    }
                    assert(rest.drop_first() =~= entries@.subrange(i + 1, entries@.len() as int));
                    i = i + 1;
                }
                None
            },
            _ => None,
        }
    }

    /// A copy of the value, the same tree as it.
    pub fn deep_clone(&self) -> (r: Value)
        ensures
            same(*self, r),
        decreases *self,
    {
        match self {
            Value::Null => Value::Null,
            Value::Bool(b) => Value::Bool(*b),
            Value::Integer(n) => Value::Integer(*n),
            Value::Decimal(s) => Value::Decimal(s.clone()),
            Value::Str(s) => Value::Str(s.clone()),
            Value::Array(items) => {
                let mut out: Vec<Value> = Vec::new();
                let mut i: usize = 0;
                while i < items.len()
                    invariant
                        0 <= i <= items@.len(),
                        *self == Value::Array(*items),
                        out@.len() == i,
                        forall|j: int| 0 <= j < i ==> same(#[trigger] items@[j], out@[j]),
                    decreases items.len() - i,
                {
                    proof {
                        vstd::std_specs::vec::axiom_vec_index_decreases(*items, i as int);
                        assert(decreases_to!(*self => self->Array_0));
                        assert(decreases_to!(*self => items[i as int]));
                    }
                    let c = items[i].deep_clone();
                    out.push(c);
                    i = i + 1;
                }
                Value::Array(out)
            },
            Value::Object(entries) => {
                let mut out: Vec<(String, Value)> = Vec::new();
                let mut i: usize = 0;
                while i < entries.len()
                    invariant
                        0 <= i <= entries@.len(),
                        *self == Value::Object(*entries),
                        out@.len() == i,
                        forall|j: int|
                            0 <= j < i ==> #[trigger] entries@[j].0@ == out@[j].0@ && same(
                                entries@[j].1,
                                out@[j].1,
                            ),
                    decreases entries.len() - i,
                {
                    proof {
                        vstd::std_specs::vec::axiom_vec_index_decreases(*entries, i as int);
                        assert(decreases_to!(*self => self->Object_0));
                        assert(decreases_to!(*self => entries[i as int].1));
                    }
                    let c = entries[i].1.deep_clone();
                    out.push((entries[i].0.clone(), c));
                    i = i + 1;
                }
                Value::Object(out)
            },
        }
    }
}

/// Whether two entry lists have the same keys, in order, with the same values.
pub open spec fn same_entries(a: Seq<(String, Value)>, b: Seq<(String, Value)>) -> bool {
    &&& a.len() == b.len()
    &&& forall|i: int| 0 <= i < a.len() ==> (#[trigger] a[i]).0@ == b[i].0@ && same(a[i].1, b[i].1)
}

/// A copy of a list of object entries, the same as it.
pub fn clone_entries(entries: &Vec<(String, Value)>) -> (r: Vec<(String, Value)>)
    ensures
        same_entries(entries@, r@),
{
    let mut out: Vec<(String, Value)> = Vec::new();
    let mut i: usize = 0;
    while i < entries.len()
        invariant
            0 <= i <= entries@.len(),
            out@.len() == i,
            forall|j: int|
                0 <= j < i ==> (#[trigger] entries@[j]).0@ == out@[j].0@ && same(
                    entries@[j].1,
                    out@[j].1,
                ),
        decreases entries.len() - i,
    {
        let v = entries[i].1.deep_clone();
        out.push((entries[i].0.clone(), v));
        i = i + 1;
    }
    out
}

} // verus!
