use vstd::prelude::*;
use vstd::string::StringSliceAdditionalSpecFns;
use vstd::utf8::{encode_utf8, valid_utf8, decode_utf8};

verus! {

/// A symbolic name from a constrained domain. On the wire it has the shape
/// of a string; it is a type of its own because the protocol tells names
/// from text.
#[derive(Debug, Clone, PartialEq, Eq, Hash)]
pub struct Symbol(String);

impl View for Symbol {
    type V = Seq<char>;

    closed spec fn view(&self) -> Seq<char> {
        self.0@
    }
}

impl DeepView for Symbol {
    type V = Seq<char>;

    open spec fn deep_view(&self) -> Seq<char> {
        self@
    }
}

impl Symbol {
    /// The bytes of the name: its characters in UTF-8.
    pub open spec fn bytes(&self) -> Seq<u8> {
        encode_utf8(self@)
    }

    pub fn from_static(s: &'static str) -> (r: Symbol)
        ensures
            r@ == s@,
    {
        Symbol(s.to_owned())
    }

    /// The name that `s` holds.
    pub fn from_str(s: &str) -> (r: Symbol)
        ensures
            r@ == s@,
    {
        Symbol(s.to_owned())
    }

    /// The name that `bytes` hold in UTF-8, where they are well formed.
    pub fn from_utf8(bytes: &[u8]) -> (r: Option<Symbol>)
        ensures
            r.is_some() == valid_utf8(bytes@),
            r matches Some(s) ==> s@ == decode_utf8(bytes@) && s.bytes() == bytes@,
    {
        match crate::external::str_from_utf8(bytes) {
            Some(s) => {
                proof {
                    vstd::utf8::encode_utf8_decode_utf8(s@);
                }
                Some(Symbol(s.to_owned()))
            },
            None => None,
        }
    }

    pub fn as_bytes(&self) -> (r: &[u8])
        ensures
            r@ == self.bytes(),
    {
        self.0.as_str().as_bytes()
    }

    pub fn as_str(&self) -> (r: &str)
        ensures
            r@ == self@,
    {
        self.0.as_str()
    }

    /// Whether the two hold the same text.
    pub fn same_as(&self, other: &Symbol) -> (r: bool)
        ensures
            r == (self@ == other@),
    {
        let same = crate::codec::described::bytes_equal(self.as_bytes(), other.as_bytes());
        proof {
            vstd::utf8::encode_utf8_decode_utf8(self@);
            vstd::utf8::encode_utf8_decode_utf8(other@);
        }
        same
    }

    /// The length in bytes.
    pub fn len(&self) -> (n: usize)
        ensures
            n == self.bytes().len(),
    {
        self.0.as_str().as_bytes().len()
    }
}


impl<'a> From<&'a str> for Symbol {
    fn from(s: &'a str) -> (r: Symbol)
        ensures
            r@ == s@,
    {
        Symbol::from_str(s)
    }
}

impl<'a> vstd::std_specs::convert::FromSpecImpl<&'a str> for Symbol {
    open spec fn obeys_from_spec() -> bool {
        false
    }

    open spec fn from_spec(v: &'a str) -> Self {
        arbitrary()
    }
}

} // verus!
