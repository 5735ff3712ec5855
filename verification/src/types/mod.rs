//! The values that the codec reads and writes.

use vstd::prelude::*;

pub mod str;
pub mod symbol;
pub mod variant;

pub use self::str::ByteStr;
pub use self::symbol::Symbol;
pub use self::variant::{List, Variant, VariantMap, VariantView};

verus! {

/// The AMQP null value.
#[derive(Debug, PartialEq, Eq, Clone, Copy, Hash)]
pub struct Null;

impl DeepView for Null {
    type V = Null;

    open spec fn deep_view(&self) -> Null {
        *self
    }
}

/// A 32-bit IEEE 754 number, held as its bit pattern. Two of them are equal
/// where their bits are.
#[derive(Debug, PartialEq, Eq, Clone, Copy, Hash)]
pub struct FloatBits(pub u32);

impl DeepView for FloatBits {
    type V = FloatBits;

    open spec fn deep_view(&self) -> FloatBits {
        *self
    }
}

/// A 64-bit IEEE 754 number, held as its bit pattern. Two of them are equal
/// where their bits are.
#[derive(Debug, PartialEq, Eq, Clone, Copy, Hash)]
pub struct DoubleBits(pub u64);

impl DeepView for DoubleBits {
    type V = DoubleBits;

    open spec fn deep_view(&self) -> DoubleBits {
        *self
    }
}

/// One second, in nanoseconds.
pub const NANOS_PER_SECOND: u32 = 1_000_000_000;

/// One millisecond, in nanoseconds.
pub const NANOS_PER_MILLI: u32 = 1_000_000;

/// An instant of UTC: whole seconds since 1970-01-01T00:00:00Z, which are
/// negative before it, and the nanoseconds into that second, which never
/// are.
#[derive(Debug, PartialEq, Eq, Clone, Copy, Hash)]
pub struct Timestamp {
    pub seconds: i64,
    pub nanos: u32,
}

impl DeepView for Timestamp {
    type V = Timestamp;

    open spec fn deep_view(&self) -> Timestamp {
        *self
    }
}

impl Timestamp {
    /// The nanoseconds stay within their second.
    pub open spec fn wf(self) -> bool {
        self.nanos < NANOS_PER_SECOND
    }

    /// The instant in milliseconds since the epoch; what is finer than a
    /// millisecond is dropped.
    pub open spec fn millis(self) -> int {
        self.seconds * 1000 + self.nanos as int / (NANOS_PER_MILLI as int)
    }

    /// The instant is a whole number of milliseconds.
    pub open spec fn whole_millis(self) -> bool {
        self.nanos as int % (NANOS_PER_MILLI as int) == 0
    }

    /// The instant that lies `millis` milliseconds from the epoch.
    pub open spec fn of_millis(millis: int) -> Timestamp {
        Timestamp { seconds: (millis / 1000) as i64, nanos: ((millis % 1000) * NANOS_PER_MILLI) as u32 }
    }
}

/// A universally unique identifier: sixteen bytes.
#[derive(Debug, PartialEq, Eq, Clone, Copy, Hash)]
pub struct Uuid(pub [u8; 16]);

impl DeepView for Uuid {
    type V = Seq<u8>;

    open spec fn deep_view(&self) -> Seq<u8> {
        self.0@
    }
}

impl Uuid {
    /// The identifier that the first sixteen bytes of `bytes` are.
    pub fn from_bytes(bytes: &[u8]) -> (r: Option<Uuid>)
        ensures
            r.is_some() == (bytes@.len() == 16),
            r matches Some(u) ==> u.deep_view() == bytes@,
    {
        if bytes.len() != 16 {
            return None;
        }
        let u = Uuid(
            [
                bytes[0],
                bytes[1],
                bytes[2],
                bytes[3],
                bytes[4],
                bytes[5],
                bytes[6],
                bytes[7],
                bytes[8],
                bytes[9],
                bytes[10],
                bytes[11],
                bytes[12],
                bytes[13],
                bytes[14],
                bytes[15],
            ],
        );
        assert(u.0@ =~= bytes@);
        Some(u)
    }

    /// Whether the two are the same identifier.
    pub fn same_as(&self, other: &Uuid) -> (r: bool)
        ensures
            r == (self.deep_view() == other.deep_view()),
    {
        crate::codec::described::bytes_equal(self.0.as_slice(), other.0.as_slice())
    }

    /// The sixteen bytes.
    pub fn as_bytes(&self) -> (r: &[u8])
        ensures
            r@ == self.deep_view(),
            r@.len() == 16,
    {
        self.0.as_slice()
    }
}

/// Opaque binary data.
#[derive(Debug, PartialEq, Eq, Clone, Hash)]
pub struct Binary(pub Vec<u8>);

impl DeepView for Binary {
    type V = Seq<u8>;

    open spec fn deep_view(&self) -> Seq<u8> {
        self.0@
    }
}

impl Binary {
    /// A copy of `bytes`.
    pub fn from_slice(bytes: &[u8]) -> (r: Binary)
        ensures
            r.deep_view() == bytes@,
    {
        Binary(vstd::slice::slice_to_vec(bytes))
    }

    pub fn len(&self) -> (n: usize)
        ensures
            n == self.deep_view().len(),
    {
        self.0.len()
    }

    pub fn as_bytes(&self) -> (r: &[u8])
        ensures
            r@ == self.deep_view(),
    {
        self.0.as_slice()
    }

    /// Whether the two hold the same bytes.
    pub fn same_as(&self, other: &Binary) -> (r: bool)
        ensures
            r == (self.deep_view() == other.deep_view()),
    {
        crate::codec::described::bytes_equal(self.as_bytes(), other.as_bytes())
    }
}

/// What names a described type: its numeric code, the domain in the upper
/// and the code in the lower 32 bits, or its symbolic name.
#[derive(Debug, PartialEq, Eq, Clone, Hash)]
pub enum Descriptor {
    Ulong(u64),
    Symbol(Symbol),
}

/// The model of a `Descriptor`.
pub enum DescriptorView {
    Ulong(u64),
    Symbol(Seq<char>),
}

impl DeepView for Descriptor {
    type V = DescriptorView;

    open spec fn deep_view(&self) -> DescriptorView {
        match self {
            Descriptor::Ulong(code) => DescriptorView::Ulong(*code),
            Descriptor::Symbol(name) => DescriptorView::Symbol(name.deep_view()),
        }
    }
}

/// A field that the wire holds either as one `T` or as an array of `T`:
/// here it is a sequence in both cases.
#[derive(Debug, PartialEq, Eq, Clone, Hash)]
pub struct Multiple<T>(pub Vec<T>);

impl<T: DeepView> DeepView for Multiple<T> {
    type V = Seq<T::V>;

    open spec fn deep_view(&self) -> Seq<T::V> {
        self.0.deep_view()
    }
}

impl<T> Multiple<T> {
    pub fn len(&self) -> (n: usize)
        ensures
            n == self.0@.len(),
    {
        self.0.len()
    }

    /// An iterator over the items, first to last.
    pub fn iter(&self) -> (it: core::slice::Iter<'_, T>)
        ensures
            vstd::std_specs::slice::into_iter_elts(it) == self.0@,
    {
        self.0.as_slice().iter()
    }
}

} // verus!
