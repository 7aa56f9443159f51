//! Typed results of a conversion, and their mathematical model.
use vstd::prelude::*;

verus! {

/// The model of a typed result.
pub enum TV {
    Bool(bool),
    I16(i16),
    U16(u16),
    I32(i32),
    U32(u32),
    I64(i64),
    U64(u64),
    /// A 64-bit floating-point number, held as its bit pattern.
    Float(u64),
    Str(Seq<char>),
    Opt(Option<Box<TV>>),
    List(Seq<TV>),
    Dict(Seq<(Seq<char>, TV)>),
    Record(Seq<(Seq<char>, TV)>),
}

/// A typed value produced from a document value.
#[derive(Debug, PartialEq)]
pub enum Typed {
    Bool(bool),
    I16(i16),
    U16(u16),
    I32(i32),
    U32(u32),
    I64(i64),
    U64(u64),
    /// A 64-bit floating-point number, held as its bit pattern.
    Float(u64),
    Str(String),
    Opt(Option<Box<Typed>>),
    List(Vec<Typed>),
    /// String-keyed entries, in the order of the source object.
    Dict(Vec<(String, Typed)>),
    /// The fields of a record, in declared order; skipped fields are absent.
    Record(Vec<(String, Typed)>),
}

pub open spec fn tview(t: Typed) -> TV
    decreases t,
{
    match t {
        Typed::Bool(b) => TV::Bool(b),
        Typed::I16(x) => TV::I16(x),
        Typed::U16(x) => TV::U16(x),
        Typed::I32(x) => TV::I32(x),
        Typed::U32(x) => TV::U32(x),
        Typed::I64(x) => TV::I64(x),
        Typed::U64(x) => TV::U64(x),
        Typed::Float(x) => TV::Float(x),
        Typed::Str(s) => TV::Str(s@),
        Typed::Opt(o) => TV::Opt(
            match o {
                Some(b) => Some(Box::new(tview(*b))),
                None => None,
            },
        ),
        Typed::List(v) => TV::List(
            Seq::new(v@.len(), |i: int| if 0 <= i < v@.len() { tview(v@[i]) } else { TV::Bool(false) }),
        ),
        Typed::Dict(v) => TV::Dict(
            Seq::new(
                v@.len(),
                |i: int|
                    if 0 <= i < v@.len() {
                        (v@[i].0@, tview(v@[i].1))
                    } else {
                        (Seq::empty(), TV::Bool(false))
                    },
            ),
        ),
        Typed::Record(v) => TV::Record(
            Seq::new(
                v@.len(),
                |i: int|
                    if 0 <= i < v@.len() {
                        (v@[i].0@, tview(v@[i].1))
                    } else {
                        (Seq::empty(), TV::Bool(false))
                    },
            ),
        ),
    }
}

impl View for Typed {
    type V = TV;

    open spec fn view(&self) -> TV {
        tview(*self)
    }
}

/// The model of a result that may be absent.
pub open spec fn opt_view(r: Option<Typed>) -> Option<TV> {
    match r {
        Some(t) => Some(tview(t)),
        None => None,
    }
}

/// The model of a sequence of named typed values.
pub open spec fn named_view(s: Seq<(String, Typed)>) -> Seq<(Seq<char>, TV)> {
    Seq::new(s.len(), |i: int| (s[i].0@, tview(s[i].1)))
}

/// The model of a sequence of typed values.
pub open spec fn typed_view(s: Seq<Typed>) -> Seq<TV> {
    Seq::new(s.len(), |i: int| tview(s[i]))
}

pub proof fn lemma_typed_shapes(t: Typed)
    ensures
        t is List ==> tview(t) == TV::List(typed_view(t->List_0@)),
        t is Dict ==> tview(t) == TV::Dict(named_view(t->Dict_0@)),
        t is Record ==> tview(t) == TV::Record(named_view(t->Record_0@)),
{
    match t {
        Typed::List(v) => {
            assert(typed_view(v@) =~= tview(t)->List_0);
        },
        Typed::Dict(v) => {
            assert(named_view(v@) =~= tview(t)->Dict_0);
        },
        Typed::Record(v) => {
            assert(named_view(v@) =~= tview(t)->Record_0);
        },
        _ => {},
    }
}

impl Typed {
    /// A copy of the whole value.
    pub fn deep_clone(&self) -> (r: Typed)
        ensures
            r@ == self@,
        decreases self,
    {
        proof {
            lemma_typed_shapes(*self);
        }
        match self {
            Typed::Bool(b) => Typed::Bool(*b),
            Typed::I16(x) => Typed::I16(*x),
            Typed::U16(x) => Typed::U16(*x),
            Typed::I32(x) => Typed::I32(*x),
            Typed::U32(x) => Typed::U32(*x),
            Typed::I64(x) => Typed::I64(*x),
            Typed::U64(x) => Typed::U64(*x),
            Typed::Float(x) => Typed::Float(*x),
            Typed::Str(s) => Typed::Str(s.clone()),
            Typed::Opt(o) => match o {
                Some(b) => {
                    assert(decreases_to!(*self => *b)) by {
                        assert(decreases_to!(*self => (*self)->Opt_0));
                        assert(decreases_to!(*o => (*o)->0));
                    }
                    Typed::Opt(Some(Box::new(b.deep_clone())))
                },
                None => Typed::Opt(None),
            },
            Typed::List(items) => {
                let mut out: Vec<Typed> = Vec::new();
                let mut i: usize = 0;
                while i < items.len()
                    invariant
                        *self == Typed::List(*items),
                        i <= items@.len(),
                        out@.len() == i,
                        forall|j: int| 0 <= j < i ==> tview(#[trigger] out@[j]) == tview(items@[j]),
                    decreases items@.len() - i,
                {
                    assert(decreases_to!(*self => items@[i as int])) by {
                        assert(decreases_to!(*self => (*self)->List_0));
                        assert(decreases_to!(*items => items@));
                        assert(decreases_to!(items@ => items@[i as int]));
                    }
                    out.push(items[i].deep_clone());
                    i = i + 1;
                }
                assert(typed_view(out@) =~= typed_view(items@));
                let r = Typed::List(out);
                proof {
                    lemma_typed_shapes(r);
                }
                r
            },
            Typed::Dict(es) => {
                let mut out: Vec<(String, Typed)> = Vec::new();
                let mut i: usize = 0;
                while i < es.len()
                    invariant
                        *self == Typed::Dict(*es),
                        i <= es@.len(),
                        out@.len() == i,
                        forall|j: int|
                            0 <= j < i ==> (#[trigger] out@[j]).0@ == es@[j].0@ && tview(out@[j].1) == tview(es@[j].1),
                    decreases es@.len() - i,
                {
                    assert(decreases_to!(*self => es@[i as int].1)) by {
                        assert(decreases_to!(*self => (*self)->Dict_0));
                        assert(decreases_to!(*es => es@));
                        assert(decreases_to!(es@ => es@[i as int]));
                        assert(decreases_to!(es@[i as int] => es@[i as int].1));
                    }
                    let k = es[i].0.clone();
                    let x = es[i].1.deep_clone();
                    out.push((k, x));
                    i = i + 1;
                }
                assert(named_view(out@) =~= named_view(es@));
                let r = Typed::Dict(out);
                proof {
                    lemma_typed_shapes(r);
                }
                r
            },
            Typed::Record(es) => {
                let mut out: Vec<(String, Typed)> = Vec::new();
                let mut i: usize = 0;
                while i < es.len()
                    invariant
                        *self == Typed::Record(*es),
                        i <= es@.len(),
                        out@.len() == i,
                        forall|j: int|
                            0 <= j < i ==> (#[trigger] out@[j]).0@ == es@[j].0@ && tview(out@[j].1) == tview(es@[j].1),
                    decreases es@.len() - i,
                {
                    assert(decreases_to!(*self => es@[i as int].1)) by {
                        assert(decreases_to!(*self => (*self)->Record_0));
                        assert(decreases_to!(*es => es@));
                        assert(decreases_to!(es@ => es@[i as int]));
                        assert(decreases_to!(es@[i as int] => es@[i as int].1));
                    }
                    let k = es[i].0.clone();
                    let x = es[i].1.deep_clone();
                    out.push((k, x));
                    i = i + 1;
                }
                assert(named_view(out@) =~= named_view(es@));
                let r = Typed::Record(out);
                proof {
                    lemma_typed_shapes(r);
                }
                r
            },
        }
    }
}

}
