//! The dynamic document value, its mathematical model, and destructive reads.
use vstd::prelude::*;

verus! {

/// The model of a document value. Strings are character sequences; an
/// object is a sequence of (key, value) entries.
pub enum Val {
    Null,
    Bool(bool),
    Int(i64),
    /// A floating-point number, held as its IEEE-754 bit pattern.
    Float(u64),
    Str(Seq<char>),
    Array(Seq<Val>),
    Object(Seq<(Seq<char>, Val)>),
}

/// A dynamically typed document value.
#[derive(Debug, PartialEq)]
pub enum DynValue {
    Null,
    Bool(bool),
    Int(i64),
    /// A floating-point number, held as its IEEE-754 bit pattern.
    Float(u64),
    Str(String),
    Array(Vec<DynValue>),
    Object(Vec<(String, DynValue)>),
}

pub open spec fn view_of(d: DynValue) -> Val
    decreases d,
{
    match d {
        DynValue::Null => Val::Null,
        DynValue::Bool(b) => Val::Bool(b),
        DynValue::Int(i) => Val::Int(i),
        DynValue::Float(f) => Val::Float(f),
        DynValue::Str(s) => Val::Str(s@),
        DynValue::Array(v) => Val::Array(
            Seq::new(v@.len(), |i: int| if 0 <= i < v@.len() { view_of(v@[i]) } else { Val::Null }),
        ),
        DynValue::Object(v) => Val::Object(
            Seq::new(
                v@.len(),
                |i: int|
                    if 0 <= i < v@.len() {
                        (v@[i].0@, view_of(v@[i].1))
                    } else {
                        (Seq::empty(), Val::Null)
                    },
            ),
        ),
    }
}

impl View for DynValue {
    type V = Val;

    open spec fn view(&self) -> Val {
        view_of(*self)
    }
}

/// The model of a sequence of object entries.
pub open spec fn entries_view(s: Seq<(String, DynValue)>) -> Seq<(Seq<char>, Val)> {
    Seq::new(s.len(), |i: int| (s[i].0@, view_of(s[i].1)))
}

/// The model of a sequence of values.
pub open spec fn values_view(s: Seq<DynValue>) -> Seq<Val> {
    Seq::new(s.len(), |i: int| view_of(s[i]))
}

pub proof fn lemma_object_view(v: Vec<(String, DynValue)>)
    ensures
        view_of(DynValue::Object(v)) == Val::Object(entries_view(v@)),
{
    assert(entries_view(v@) =~= match view_of(DynValue::Object(v)) {
        Val::Object(es) => es,
        _ => Seq::empty(),
    });
}

pub proof fn lemma_array_view(v: Vec<DynValue>)
    ensures
        view_of(DynValue::Array(v)) == Val::Array(values_view(v@)),
{
    assert(values_view(v@) =~= match view_of(DynValue::Array(v)) {
        Val::Array(es) => es,
        _ => Seq::empty(),
    });
}

/// The entries of `es` whose key differs from `key`, in order.
pub open spec fn without_key(es: Seq<(Seq<char>, Val)>, key: Seq<char>) -> Seq<(Seq<char>, Val)>
    decreases es.len(),
{
    if es.len() == 0 {
        es
    } else {
        let pre = without_key(es.drop_last(), key);
        if es.last().0 == key {
            pre
        } else {
            pre.push(es.last())
        }
    }
}

/// The value of the last entry of `es` under `key`, if there is one.
pub open spec fn lookup<V>(es: Seq<(Seq<char>, V)>, key: Seq<char>) -> Option<V>
    decreases es.len(),
{
    if es.len() == 0 {
        None
    } else if es.last().0 == key {
        Some(es.last().1)
    } else {
        lookup(es.drop_last(), key)
    }
}

/// Whether no two entries share a key.
pub open spec fn keys_unique<V>(es: Seq<(Seq<char>, V)>) -> bool {
    forall|i: int, j: int| 0 <= i < j < es.len() ==> es[i].0 != es[j].0
}

/// A well-formed object has distinct keys; other values are well-formed.
pub open spec fn wf_object(v: Val) -> bool {
    v is Object ==> keys_unique(v->Object_0)
}

/// What a read of `key` from `v` yields: the value stored there, or null.
pub open spec fn get_spec(v: Val, key: Seq<char>) -> Val {
    match v {
        Val::Object(es) => match lookup(es, key) {
            Some(x) => x,
            None => Val::Null,
        },
        _ => Val::Null,
    }
}

/// `v` with every entry under `key` removed; a value that is not an object
/// stays as it is.
pub open spec fn remove_spec(v: Val, key: Seq<char>) -> Val {
    match v {
        Val::Object(es) => Val::Object(without_key(es, key)),
        _ => v,
    }
}

/// `v` with `key` bound to `x`; a value that is not an object stays as it is.
pub open spec fn set_spec(v: Val, key: Seq<char>, x: Val) -> Val {
    match v {
        Val::Object(es) => Val::Object(without_key(es, key).push((key, x))),
        _ => v,
    }
}

impl DynValue {
    /// A copy of the whole tree.
    pub fn deep_clone(&self) -> (r: DynValue)
        ensures
            r@ == self@,
        decreases self,
    {
        match self {
            DynValue::Null => DynValue::Null,
            DynValue::Bool(b) => DynValue::Bool(*b),
            DynValue::Int(i) => DynValue::Int(*i),
            DynValue::Float(f) => DynValue::Float(*f),
            DynValue::Str(s) => DynValue::Str(s.clone()),
            DynValue::Array(items) => {
                let mut out: Vec<DynValue> = Vec::new();
                let mut i: usize = 0;
                while i < items.len()
                    invariant
                        *self == DynValue::Array(*items),
                        i <= items@.len(),
                        out@.len() == i,
                        forall|j: int| 0 <= j < i ==> view_of(#[trigger] out@[j]) == view_of(items@[j]),
                    decreases items@.len() - i,
                {
                    assert(decreases_to!(*self => items@[i as int])) by {
                        assert(decreases_to!(*self => (*self)->Array_0));
                        assert(decreases_to!(*items => items@));
                        assert(decreases_to!(items@ => items@[i as int]));
                    }
                    out.push(items[i].deep_clone());
                    i = i + 1;
                }
                proof {
                    lemma_array_view(*items);
                    lemma_array_view(out);
                    assert(values_view(out@) =~= values_view(items@));
                }
                DynValue::Array(out)
            },
            DynValue::Object(es) => {
                let mut out: Vec<(String, DynValue)> = Vec::new();
                let mut i: usize = 0;
                while i < es.len()
                    invariant
                        *self == DynValue::Object(*es),
                        i <= es@.len(),
                        out@.len() == i,
                        forall|j: int|
                            0 <= j < i ==> (#[trigger] out@[j]).0@ == es@[j].0@ && view_of(out@[j].1)
                                == view_of(es@[j].1),
                    decreases es@.len() - i,
                {
                    assert(decreases_to!(*self => es@[i as int].1)) by {
                        assert(decreases_to!(*self => (*self)->Object_0));
                        assert(decreases_to!(*es => es@));
                        assert(decreases_to!(es@ => es@[i as int]));
                        assert(decreases_to!(es@[i as int] => es@[i as int].1));
                    }
                    let k = es[i].0.clone();
                    let x = es[i].1.deep_clone();
                    out.push((k, x));
                    i = i + 1;
                }
                proof {
                    lemma_object_view(*es);
                    lemma_object_view(out);
                    assert(entries_view(out@) =~= entries_view(es@));
                }
                DynValue::Object(out)
            },
        }
    }
}

pub proof fn lemma_view_shapes(d: DynValue)
    ensures
        d is Object ==> view_of(d) == Val::Object(entries_view(d->Object_0@)),
        d is Array ==> view_of(d) == Val::Array(values_view(d->Array_0@)),
{
    if let DynValue::Object(v) = d {
        lemma_object_view(v);
    }
    if let DynValue::Array(v) = d {
        lemma_array_view(v);
    }
}

/// Splits `es` into the value of the last entry under `key` (null if there
/// is none) and the entries under other keys.
fn split_key(es: &Vec<(String, DynValue)>, key: &String) -> (r: (DynValue, Vec<(String, DynValue)>))
    ensures
        r.0@ == (match lookup(entries_view(es@), key@) {
            Some(x) => x,
            None => Val::Null,
        }),
        entries_view(r.1@) == without_key(entries_view(es@), key@),
{
    let ghost ev = entries_view(es@);
    let mut found = DynValue::Null;
    let mut kept: Vec<(String, DynValue)> = Vec::new();
    let mut i: usize = 0;
    assert(ev.subrange(0, 0) =~= Seq::<(Seq<char>, Val)>::empty());
    assert(entries_view(kept@) =~= Seq::<(Seq<char>, Val)>::empty());
    while i < es.len()
        invariant
            ev == entries_view(es@),
            i <= es@.len(),
            found@ == (match lookup(ev.subrange(0, i as int), key@) {
                Some(x) => x,
                None => Val::Null,
            }),
            entries_view(kept@) == without_key(ev.subrange(0, i as int), key@),
        decreases es@.len() - i,
    {
        let ghost before = kept@;
        assert(ev.subrange(0, i + 1).drop_last() =~= ev.subrange(0, i as int));
        if es[i].0 == *key {
            found = es[i].1.deep_clone();
        } else {
            let k = es[i].0.clone();
            let x = es[i].1.deep_clone();
            kept.push((k, x));
            assert(entries_view(kept@) =~= entries_view(before).push(ev[i as int]));
        }
        i = i + 1;
    }
    assert(ev.subrange(0, es@.len() as int) =~= ev);
    (found, kept)
}

impl DynValue {
    /// Removes every entry under `key` and returns the value that was stored
    /// there, or null when there was none or `self` is not an object.
    pub fn take(&mut self, key: &String) -> (r: DynValue)
        ensures
            r@ == get_spec(old(self)@, key@),
            final(self)@ == remove_spec(old(self)@, key@),
            wf_object(old(self)@) ==> wf_object(final(self)@),
    {
        proof {
            lemma_wf_remove_set(self@, key@, Val::Null);
            lemma_view_shapes(*self);
        }
        let split = match &*self {
            DynValue::Object(es) => Some(split_key(es, key)),
            _ => None,
        };
        match split {
            Some((found, kept)) => {
                *self = DynValue::Object(kept);
                proof {
                    lemma_object_view(kept);
                }
                found
            },
            None => DynValue::Null,
        }
    }

    /// Binds `key` to `x`, replacing what was stored there; a value that is
    /// not an object is left as it is.
    pub fn set(&mut self, key: String, x: DynValue)
        ensures
            final(self)@ == set_spec(old(self)@, key@, x@),
            wf_object(old(self)@) ==> wf_object(final(self)@),
    {
        proof {
            lemma_wf_remove_set(self@, key@, x@);
            lemma_view_shapes(*self);
        }
        let split = match &*self {
            DynValue::Object(es) => Some(split_key(es, &key)),
            _ => None,
        };
        if let Some((_, kept)) = split {
            let mut kept = kept;
            let ghost before = kept@;
            kept.push((key, x));
            proof {
                assert(entries_view(kept@) =~= entries_view(before).push((key@, x@)));
                lemma_object_view(kept);
            }
            *self = DynValue::Object(kept);
        }
    }

    pub fn is_null(&self) -> (r: bool)
        ensures
            r == (self@ is Null),
    {
        match self {
            DynValue::Null => true,
            _ => false,
        }
    }

    pub fn as_bool(&self) -> (r: Option<bool>)
        ensures
            r == (match self@ {
                Val::Bool(b) => Some(b),
                _ => None,
            }),
    {
        match self {
            DynValue::Bool(b) => Some(*b),
            _ => None,
        }
    }

    pub fn as_integer(&self) -> (r: Option<i64>)
        ensures
            r == (match self@ {
                Val::Int(i) => Some(i),
                _ => None,
            }),
    {
        match self {
            DynValue::Int(i) => Some(*i),
            _ => None,
        }
    }

    /// The bit pattern of a floating-point value.
    pub fn as_float(&self) -> (r: Option<u64>)
        ensures
            r == (match self@ {
                Val::Float(f) => Some(f),
                _ => None,
            }),
    {
        match self {
            DynValue::Float(f) => Some(*f),
            _ => None,
        }
    }

    pub fn as_string(&self) -> (r: Option<String>)
        ensures
            r is Some <==> self@ is Str,
            r is Some ==> self@ == Val::Str(r->0@),
    {
        match self {
            DynValue::Str(s) => Some(s.clone()),
            _ => None,
        }
    }

    pub fn as_array(&self) -> (r: Option<&Vec<DynValue>>)
        ensures
            r is Some <==> self@ is Array,
            r is Some ==> self@ == Val::Array(values_view(r->0@)),
    {
        proof {
            lemma_view_shapes(*self);
        }
        match self {
            DynValue::Array(v) => Some(v),
            _ => None,
        }
    }

    pub fn as_object(&self) -> (r: Option<&Vec<(String, DynValue)>>)
        ensures
            r is Some <==> self@ is Object,
            r is Some ==> self@ == Val::Object(entries_view(r->0@)),
    {
        proof {
            lemma_view_shapes(*self);
        }
        match self {
            DynValue::Object(v) => Some(v),
            _ => None,
        }
    }
}

proof fn lemma_lookup_without(es: Seq<(Seq<char>, Val)>, key: Seq<char>, other: Seq<char>)
    ensures
        lookup(without_key(es, key), key) is None,
        other != key ==> lookup(without_key(es, key), other) == lookup(es, other),
    decreases es.len(),
{
    if es.len() > 0 {
        lemma_lookup_without(es.drop_last(), key, other);
        let pre = without_key(es.drop_last(), key);
        if es.last().0 != key {
            assert(pre.push(es.last()).drop_last() =~= pre);
        }
    }
}

/// Reading a key after removing it yields null; reading any other key
/// yields what it did before.
pub proof fn lemma_get_remove(v: Val, key: Seq<char>, other: Seq<char>)
    ensures
        get_spec(remove_spec(v, key), key) == Val::Null,
        other != key ==> get_spec(remove_spec(v, key), other) == get_spec(v, other),
{
    if let Val::Object(es) = v {
        lemma_lookup_without(es, key, other);
    }
}

/// Reading a key after binding it to `x` yields `x` (when `v` is an object);
/// reading any other key yields what it did before.
pub proof fn lemma_get_set(v: Val, key: Seq<char>, x: Val, other: Seq<char>)
    ensures
        v is Object ==> get_spec(set_spec(v, key, x), key) == x,
        other != key ==> get_spec(set_spec(v, key, x), other) == get_spec(v, other),
{
    if let Val::Object(es) = v {
        lemma_lookup_without(es, key, other);
        let w = without_key(es, key);
        assert(w.push((key, x)).drop_last() =~= w);
    }
}

/// A key that has been taken reads as null: taking it again yields null and
/// leaves the value as it is.
pub proof fn law_take_twice(v: Val, key: Seq<char>)
    ensures
        get_spec(remove_spec(v, key), key) == Val::Null,
        remove_spec(remove_spec(v, key), key) == remove_spec(v, key),
{
    lemma_get_remove(v, key, key);
    if let Val::Object(es) = v {
        lemma_without_twice(es, key);
    }
}

proof fn lemma_without_twice(es: Seq<(Seq<char>, Val)>, key: Seq<char>)
    ensures
        without_key(without_key(es, key), key) == without_key(es, key),
    decreases es.len(),
{
    if es.len() > 0 {
        lemma_without_twice(es.drop_last(), key);
        let pre = without_key(es.drop_last(), key);
        if es.last().0 != key {
            assert(pre.push(es.last()).drop_last() =~= pre);
        }
    }
}

/// Putting a taken value back under its key makes a later read return it.
pub proof fn law_restore(v: Val, key: Seq<char>)
    requires
        v is Object,
    ensures
        get_spec(set_spec(remove_spec(v, key), key, get_spec(v, key)), key) == get_spec(v, key),
{
    lemma_get_set(remove_spec(v, key), key, get_spec(v, key), key);
}

/// No entry holds `key` exactly when looking it up finds nothing.
pub proof fn lemma_lookup_none<V>(es: Seq<(Seq<char>, V)>, key: Seq<char>)
    ensures
        lookup(es, key) is None <==> forall|i: int| 0 <= i < es.len() ==> es[i].0 != key,
    decreases es.len(),
{
    if es.len() > 0 {
        lemma_lookup_none(es.drop_last(), key);
        assert forall|i: int| 0 <= i < es.len() - 1 implies es.drop_last()[i] == es[i] by {}
    }
}

/// Appending an entry under a key that is not there keeps keys distinct;
/// dropping the last entry keeps them distinct and leaves its key absent.
pub proof fn lemma_unique_push<V>(es: Seq<(Seq<char>, V)>, e: (Seq<char>, V))
    ensures
        keys_unique(es) && lookup(es, e.0) is None ==> keys_unique(es.push(e)),
        keys_unique(es.push(e)) ==> keys_unique(es) && lookup(es, e.0) is None,
{
    lemma_lookup_none(es, e.0);
    if keys_unique(es.push(e)) {
        assert forall|i: int| 0 <= i < es.len() implies es[i].0 != e.0 by {
            assert(es.push(e)[i] == es[i]);
            assert(es.push(e)[es.len() as int] == e);
        }
        assert forall|i: int, j: int| 0 <= i < j < es.len() implies es[i].0 != es[j].0 by {
            assert(es.push(e)[i] == es[i]);
            assert(es.push(e)[j] == es[j]);
        }
    }
}

proof fn lemma_without_unique(es: Seq<(Seq<char>, Val)>, key: Seq<char>)
    requires
        keys_unique(es),
    ensures
        keys_unique(without_key(es, key)),
    decreases es.len(),
{
    if es.len() > 0 {
        let pre = es.drop_last();
        assert(pre.push(es.last()) =~= es);
        lemma_unique_push(pre, es.last());
        lemma_without_unique(pre, key);
        if es.last().0 != key {
            lemma_lookup_without(pre, key, es.last().0);
            lemma_unique_push(without_key(pre, key), es.last());
        }
    }
}

/// Removing a key and binding a key keep an object's keys distinct.
pub proof fn lemma_wf_remove_set(v: Val, key: Seq<char>, x: Val)
    ensures
        wf_object(v) ==> wf_object(remove_spec(v, key)),
        wf_object(v) ==> wf_object(set_spec(v, key, x)),
{
    if let Val::Object(es) = v {
        if keys_unique(es) {
            lemma_without_unique(es, key);
            lemma_lookup_without(es, key, key);
            lemma_unique_push(without_key(es, key), (key, x));
        }
    }
}

} // verus!
