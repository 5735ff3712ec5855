use vstd::prelude::*;
use crate::types::{Binary, ByteStr, DoubleBits, FloatBits, Symbol, Timestamp, Uuid};

verus! {

/// A value of any primitive type, or a map of such values.
#[derive(Debug, PartialEq, Eq, Hash)]
pub enum Variant {
    Null,
    Boolean(bool),
    Ubyte(u8),
    Ushort(u16),
    Uint(u32),
    Ulong(u64),
    Byte(i8),
    Short(i16),
    Int(i32),
    Long(i64),
    Float(FloatBits),
    Double(DoubleBits),
    Char(char),
    Timestamp(Timestamp),
    Uuid(Uuid),
    Binary(Binary),
    String(ByteStr),
    Symbol(Symbol),
    Mapping(VariantMap),
}

/// A map from values to values, held as its entries in the order of the
/// wire. Nothing is done about a key that comes twice: both entries stay.
#[derive(Debug, PartialEq, Eq, Hash)]
pub struct VariantMap {
    pub entries: Vec<(Variant, Variant)>,
}

/// The model of a `Variant`.
pub enum VariantView {
    Null,
    Boolean(bool),
    Ubyte(u8),
    Ushort(u16),
    Uint(u32),
    Ulong(u64),
    Byte(i8),
    Short(i16),
    Int(i32),
    Long(i64),
    Float(FloatBits),
    Double(DoubleBits),
    Char(char),
    Timestamp(Timestamp),
    Uuid(Seq<u8>),
    Binary(Seq<u8>),
    String(Seq<char>),
    Symbol(Seq<char>),
    Mapping(Seq<(VariantView, VariantView)>),
}

/// The model of a value.
pub open spec fn variant_view(v: Variant) -> VariantView
    decreases v,
{
    match v {
        Variant::Null => VariantView::Null,
        Variant::Boolean(b) => VariantView::Boolean(b),
        Variant::Ubyte(x) => VariantView::Ubyte(x),
        Variant::Ushort(x) => VariantView::Ushort(x),
        Variant::Uint(x) => VariantView::Uint(x),
        Variant::Ulong(x) => VariantView::Ulong(x),
        Variant::Byte(x) => VariantView::Byte(x),
        Variant::Short(x) => VariantView::Short(x),
        Variant::Int(x) => VariantView::Int(x),
        Variant::Long(x) => VariantView::Long(x),
        Variant::Float(x) => VariantView::Float(x),
        Variant::Double(x) => VariantView::Double(x),
        Variant::Char(c) => VariantView::Char(c),
        Variant::Timestamp(t) => VariantView::Timestamp(t),
        Variant::Uuid(u) => VariantView::Uuid(u.deep_view()),
        Variant::Binary(b) => VariantView::Binary(b.deep_view()),
        Variant::String(s) => VariantView::String(s.deep_view()),
        Variant::Symbol(s) => VariantView::Symbol(s.deep_view()),
        Variant::Mapping(m) => VariantView::Mapping(entries_view(m.entries)),
    }
}

/// The model of the entries of a map.
pub open spec fn entries_view(entries: Vec<(Variant, Variant)>) -> Seq<(VariantView, VariantView)>
    decreases entries,
{
    Seq::new(
        entries@.len(),
        |i: int|
            if 0 <= i < entries@.len() {
                (variant_view(entries@[i].0), variant_view(entries@[i].1))
            } else {
                (VariantView::Null, VariantView::Null)
            },
    )
}

impl DeepView for Variant {
    type V = VariantView;

    open spec fn deep_view(&self) -> VariantView {
        variant_view(*self)
    }
}

impl DeepView for VariantMap {
    type V = Seq<(VariantView, VariantView)>;

    open spec fn deep_view(&self) -> Seq<(VariantView, VariantView)> {
        entries_view(self.entries)
    }
}

impl Variant {
    /// Whether the two are the same value: of the same case, and equal in
    /// what the case holds. Numbers of the floating-point cases are the
    /// same where their bits are; maps are the same where they hold the
    /// same entries in the same order.
    pub fn same_as(&self, other: &Variant) -> (r: bool)
        ensures
            r == (self.deep_view() == other.deep_view()),
        decreases self, 1nat,
    {
        match (self, other) {
            (Variant::Null, Variant::Null) => true,
            (Variant::Boolean(a), Variant::Boolean(b)) => *a == *b,
            (Variant::Ubyte(a), Variant::Ubyte(b)) => *a == *b,
            (Variant::Ushort(a), Variant::Ushort(b)) => *a == *b,
            (Variant::Uint(a), Variant::Uint(b)) => *a == *b,
            (Variant::Ulong(a), Variant::Ulong(b)) => *a == *b,
            (Variant::Byte(a), Variant::Byte(b)) => *a == *b,
            (Variant::Short(a), Variant::Short(b)) => *a == *b,
            (Variant::Int(a), Variant::Int(b)) => *a == *b,
            (Variant::Long(a), Variant::Long(b)) => *a == *b,
            (Variant::Float(a), Variant::Float(b)) => a.0 == b.0,
            (Variant::Double(a), Variant::Double(b)) => a.0 == b.0,
            (Variant::Char(a), Variant::Char(b)) => *a == *b,
            (Variant::Timestamp(a), Variant::Timestamp(b)) => a.seconds == b.seconds && a.nanos
                == b.nanos,
            (Variant::Uuid(a), Variant::Uuid(b)) => a.same_as(b),
            (Variant::Binary(a), Variant::Binary(b)) => a.same_as(b),
            (Variant::String(a), Variant::String(b)) => a.same_as(b),
            (Variant::Symbol(a), Variant::Symbol(b)) => a.same_as(b),
            (Variant::Mapping(a), Variant::Mapping(b)) => a.same_as(b),
            _ => false,
        }
    }

    /// A copy of the value.
    pub fn clone(&self) -> (copy: Variant)
        ensures
            copy.deep_view() == self.deep_view(),
        decreases self, 1nat,
    {
        match self {
            Variant::Null => Variant::Null,
            Variant::Boolean(x) => Variant::Boolean(*x),
            Variant::Ubyte(x) => Variant::Ubyte(*x),
            Variant::Ushort(x) => Variant::Ushort(*x),
            Variant::Uint(x) => Variant::Uint(*x),
            Variant::Ulong(x) => Variant::Ulong(*x),
            Variant::Byte(x) => Variant::Byte(*x),
            Variant::Short(x) => Variant::Short(*x),
            Variant::Int(x) => Variant::Int(*x),
            Variant::Long(x) => Variant::Long(*x),
            Variant::Float(x) => Variant::Float(*x),
            Variant::Double(x) => Variant::Double(*x),
            Variant::Char(x) => Variant::Char(*x),
            Variant::Timestamp(x) => Variant::Timestamp(*x),
            Variant::Uuid(x) => Variant::Uuid(*x),
            Variant::Binary(x) => Variant::Binary(Binary::from_slice(x.as_bytes())),
            Variant::String(x) => Variant::String(ByteStr::from_str(x.as_str())),
            Variant::Symbol(x) => Variant::Symbol(Symbol::from_str(x.as_str())),
            Variant::Mapping(m) => Variant::Mapping(m.clone()),
        }
    }
}

impl VariantMap {
    /// Whether the two maps hold the same entries in the same order.
    pub fn same_as(&self, other: &VariantMap) -> (r: bool)
        ensures
            r == (self.deep_view() == other.deep_view()),
        decreases self, 0nat,
    {
        if self.entries.len() != other.entries.len() {
            return false;
        }
        let mut i: usize = 0;
        while i < self.entries.len()
            invariant
                i <= self.entries.len(),
                self.entries.len() == other.entries.len(),
                forall|j: int|
                    0 <= j < i ==> variant_view((#[trigger] self.entries@[j]).0) == variant_view(
                        other.entries@[j].0,
                    ) && variant_view(self.entries@[j].1) == variant_view(other.entries@[j].1),
            decreases self.entries.len() - i,
        {
            let same = self.entries[i].0.same_as(&other.entries[i].0) && self.entries[i].1.same_as(
                &other.entries[i].1,
            );
            if !same {
                assert(entries_view(self.entries)[i as int] != entries_view(other.entries)[i as int]);
                return false;
            }
            i = i + 1;
        }
        assert(entries_view(self.entries) =~= entries_view(other.entries));
        true
    }

    /// A copy of the map.
    pub fn clone(&self) -> (copy: VariantMap)
        ensures
            copy.deep_view() == self.deep_view(),
        decreases self, 0nat,
    {
        let mut entries: Vec<(Variant, Variant)> = Vec::new();
        let mut i: usize = 0;
        while i < self.entries.len()
            invariant
                i <= self.entries.len(),
                entries@.len() == i,
                forall|j: int|
                    0 <= j < i ==> variant_view((#[trigger] entries@[j]).0) == variant_view(
                        self.entries@[j].0,
                    ) && variant_view(entries@[j].1) == variant_view(self.entries@[j].1),
            decreases self.entries.len() - i,
        {
            let key = self.entries[i].0.clone();
            let value = self.entries[i].1.clone();
            entries.push((key, value));
            i = i + 1;
        }
        assert(entries_view(entries) =~= entries_view(self.entries));
        VariantMap { entries }
    }

    /// The map with the given entries.
    pub fn new(entries: Vec<(Variant, Variant)>) -> (m: VariantMap)
        ensures
            m.entries == entries,
    {
        VariantMap { entries }
    }

    /// The number of entries.
    pub fn len(&self) -> (n: usize)
        ensures
            n == self.deep_view().len(),
    {
        self.entries.len()
    }
}

/// A sequence of values of any type.
#[derive(Debug, PartialEq, Eq, Hash)]
pub struct List(pub Vec<Variant>);

impl DeepView for List {
    type V = Seq<VariantView>;

    open spec fn deep_view(&self) -> Seq<VariantView> {
        self.0.deep_view()
    }
}

impl List {
    /// A copy of the list.
    pub fn clone(&self) -> (copy: List)
        ensures
            copy.deep_view() == self.deep_view(),
    {
        let mut items: Vec<Variant> = Vec::new();
        let mut i: usize = 0;
        while i < self.0.len()
            invariant
                i <= self.0.len(),
                items@.len() == i,
                forall|j: int|
                    0 <= j < i ==> (#[trigger] items@[j]).deep_view() == self.0@[j].deep_view(),
            decreases self.0.len() - i,
        {
            items.push(self.0[i].clone());
            i = i + 1;
        }
        assert(items.deep_view() =~= self.0.deep_view());
        List(items)
    }

    pub fn len(&self) -> (n: usize)
        ensures
            n == self.0@.len(),
    {
        self.0.len()
    }

    /// An iterator over the values, first to last.
    pub fn iter(&self) -> (it: core::slice::Iter<'_, Variant>)
        ensures
            vstd::std_specs::slice::into_iter_elts(it) == self.0@,
    {
        self.0.as_slice().iter()
    }
}

} // verus!
