use vstd::prelude::*;
use vstd::string::StringSliceAdditionalSpecFns;
use vstd::utf8::{encode_utf8, is_char_boundary, valid_utf8, decode_utf8};

verus! {

/// An immutable UTF-8 string.
#[derive(Debug, Clone, PartialEq, Eq, Hash)]
pub struct ByteStr(String);

impl View for ByteStr {
    type V = Seq<char>;

    closed spec fn view(&self) -> Seq<char> {
        self.0@
    }
}

impl DeepView for ByteStr {
    type V = Seq<char>;

    open spec fn deep_view(&self) -> Seq<char> {
        self@
    }
}

impl ByteStr {
    /// The bytes of the string: its characters in UTF-8.
    pub open spec fn bytes(&self) -> Seq<u8> {
        encode_utf8(self@)
    }

    pub fn from_static(s: &'static str) -> (r: ByteStr)
        ensures
            r@ == s@,
    {
        ByteStr(s.to_owned())
    }

    /// The string that `s` holds.
    pub fn from_str(s: &str) -> (r: ByteStr)
        ensures
            r@ == s@,
    {
        ByteStr(s.to_owned())
    }

    /// The string that `bytes` hold in UTF-8, where they are well formed.
    pub fn from_utf8(bytes: &[u8]) -> (r: Option<ByteStr>)
        ensures
            r.is_some() == valid_utf8(bytes@),
            r matches Some(s) ==> s@ == decode_utf8(bytes@) && s.bytes() == bytes@,
    {
        match crate::external::str_from_utf8(bytes) {
            Some(s) => {
                proof {
                    vstd::utf8::encode_utf8_decode_utf8(s@);
                }
                Some(ByteStr(s.to_owned()))
            },
            None => None,
        }
    }

    pub fn as_bytes(&self) -> (r: &[u8])
        ensures
            r@ == self.bytes(),
    {
        self.0.as_str().as_bytes()
    }

    pub fn as_str(&self) -> (r: &str)
        ensures
            r@ == self@,
    {
        self.0.as_str()
    }

    /// Whether the two hold the same text.
    pub fn same_as(&self, other: &ByteStr) -> (r: bool)
        ensures
            r == (self@ == other@),
    {
        let same = crate::codec::described::bytes_equal(self.as_bytes(), other.as_bytes());
        proof {
            vstd::utf8::encode_utf8_decode_utf8(self@);
            vstd::utf8::encode_utf8_decode_utf8(other@);
        }
        same
    }

    /// The length in bytes.
    pub fn len(&self) -> (n: usize)
        ensures
            n == self.bytes().len(),
    {
        self.0.as_str().as_bytes().len()
    }

    /// The part of the string from byte `from` up to byte `to`, both of
    /// which lie between two characters.
    pub fn slice(&self, from: usize, to: usize) -> (r: ByteStr)
        requires
            from <= to <= self.bytes().len(),
            is_char_boundary(self.bytes(), from as int),
            is_char_boundary(self.bytes(), to as int),
        ensures
            r.bytes() == self.bytes().subrange(from as int, to as int),
    {
        let s = self.0.as_str();
        let ghost all = self.bytes();
        proof {
            vstd::utf8::encode_utf8_valid_utf8(self@);
        }
        let (head, _) = s.split_at(to);
        proof {
            let front = all.subrange(0, to as int);
            assert(head.spec_bytes() == front);
            vstd::utf8::valid_utf8_split(all, to as int);
            if from < to {
                vstd::utf8::is_char_boundary_iff_not_is_continuation_byte(all, from as int);
                vstd::utf8::is_char_boundary_iff_not_is_continuation_byte(front, from as int);
            } else {
                vstd::utf8::is_char_boundary_start_end_of_seq(front);
            }
        }
        let (_, mid) = head.split_at(from);
        proof {
            assert(mid.spec_bytes() =~= all.subrange(from as int, to as int));
        }
        ByteStr(mid.to_owned())
    }

    /// The part of the string before byte `idx`, which lies between two
    /// characters.
    pub fn slice_to(&self, idx: usize) -> (r: ByteStr)
        requires
            idx <= self.bytes().len(),
            is_char_boundary(self.bytes(), idx as int),
        ensures
            r.bytes() == self.bytes().subrange(0, idx as int),
    {
        let s = self.0.as_str();
        proof {
            vstd::utf8::encode_utf8_valid_utf8(self@);
        }
        let (head, _) = s.split_at(idx);
        ByteStr(head.to_owned())
    }
}


impl<'a> From<&'a str> for ByteStr {
    fn from(s: &'a str) -> (r: ByteStr)
        ensures
            r@ == s@,
    {
        ByteStr::from_str(s)
    }
}

impl<'a> vstd::std_specs::convert::FromSpecImpl<&'a str> for ByteStr {
    open spec fn obeys_from_spec() -> bool {
        false
    }

    open spec fn from_spec(v: &'a str) -> Self {
        arbitrary()
    }
}

} // verus!
