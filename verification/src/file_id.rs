//! The opaque 20-byte file identifier: a fixed hex rendering, and equality
//! and ordering taken byte-wise from the underlying buffer.

use core::cmp::Ordering;
use vstd::prelude::*;
use crate::codec::{char_of_digit, digit_char, push_char};

verus! {

/// The lowercase hex rendering of a byte string: two digits per byte, high
/// nibble first, no separators.
pub open spec fn hex_of_bytes(s: Seq<u8>) -> Seq<char>
    decreases s.len(),
{
    if s.len() == 0 {
        Seq::empty()
    } else {
        hex_of_bytes(s.drop_last()).push(digit_char(s.last() as int / 16)).push(
            digit_char(s.last() as int % 16),
        )
    }
}

/// A hex rendering always has two characters per byte.
pub proof fn lemma_hex_len(s: Seq<u8>)
    ensures
        hex_of_bytes(s).len() == 2 * s.len(),
    decreases s.len(),
{
    if s.len() > 0 {
        lemma_hex_len(s.drop_last());
    }
}

/// Byte-wise lexicographic order: the first differing byte decides; with no
/// differing byte the shorter string comes first.
pub open spec fn lex_cmp(a: Seq<u8>, b: Seq<u8>) -> Ordering
    decreases a.len(),
{
    if a.len() == 0 && b.len() == 0 {
        Ordering::Equal
    } else if a.len() == 0 {
        Ordering::Less
    } else if b.len() == 0 {
        Ordering::Greater
    } else if a[0] < b[0] {
        Ordering::Less
    } else if a[0] > b[0] {
        Ordering::Greater
    } else {
        lex_cmp(a.drop_first(), b.drop_first())
    }
}

/// An opaque 20-byte content-addressed file identifier.
#[derive(Debug, Clone, Copy, Eq, Ord, Hash)]
pub struct FileId(pub [u8; 20]);

impl FileId {
    /// Renders the 20 bytes as exactly 40 lowercase hex characters.
    pub fn to_base16(&self) -> (r: String)
        ensures
            r@ == hex_of_bytes(self.0@),
            r@.len() == 40,
    {
        let mut out = String::new();
        let mut i: usize = 0;
        while i < 20
            invariant
                i <= 20,
                out@ == hex_of_bytes(self.0@.take(i as int)),
            decreases 20 - i,
        {
            let b = self.0[i];
            push_char(&mut out, char_of_digit((b / 16) as u32));
            push_char(&mut out, char_of_digit((b % 16) as u32));
            proof {
                assert(self.0@.take(i + 1).drop_last() =~= self.0@.take(i as int));
                assert(self.0@.take(i + 1).last() == self.0@[i as int]);
            }
            i = i + 1;
        }
        proof {
            assert(self.0@.take(20) =~= self.0@);
            lemma_hex_len(self.0@);
        }
        out
    }
}

impl PartialEq for FileId {
    /// Two file identifiers are equal exactly when their bytes are.
    fn eq(&self, other: &FileId) -> (r: bool) {
        let mut i: usize = 0;
        while i < 20
            invariant
                i <= 20,
                forall|j: int| 0 <= j < i ==> self.0@[j] == other.0@[j],
            decreases 20 - i,
        {
            if self.0[i] != other.0[i] {
                proof {
                    assert(self.0@ != other.0@);
                }
                return false;
            }
            i = i + 1;
        }
        proof {
            assert(self.0@ =~= other.0@);
        }
        true
    }
}

impl vstd::std_specs::cmp::PartialEqSpecImpl for FileId {
    open spec fn obeys_eq_spec() -> bool {
        true
    }

    open spec fn eq_spec(&self, other: &FileId) -> bool {
        self.0@ == other.0@
    }
}

impl PartialOrd for FileId {
    /// File identifiers order by byte-wise lexicographic comparison.
    fn partial_cmp(&self, other: &FileId) -> (r: Option<Ordering>) {
        proof {
            assert(self.0@.skip(0) =~= self.0@);
            assert(other.0@.skip(0) =~= other.0@);
        }
        let mut i: usize = 0;
        while i < 20
            invariant
                i <= 20,
                lex_cmp(self.0@, other.0@) == lex_cmp(
                    self.0@.skip(i as int),
                    other.0@.skip(i as int),
                ),
            decreases 20 - i,
        {
            let a = self.0[i];
            let b = other.0[i];
            proof {
                assert(self.0@.skip(i as int)[0] == self.0@[i as int]);
                assert(other.0@.skip(i as int)[0] == other.0@[i as int]);
            }
            if a < b {
                return Some(Ordering::Less);
            }
            if a > b {
                return Some(Ordering::Greater);
            }
            proof {
                assert(self.0@.skip(i as int).drop_first() =~= self.0@.skip(i + 1));
                assert(other.0@.skip(i as int).drop_first() =~= other.0@.skip(i + 1));
            }
            i = i + 1;
        }
        proof {
            assert(self.0@.skip(20).len() == 0);
            assert(other.0@.skip(20).len() == 0);
        }
        Some(Ordering::Equal)
    }
}

impl vstd::std_specs::cmp::PartialOrdSpecImpl for FileId {
    open spec fn obeys_partial_cmp_spec() -> bool {
        true
    }

    open spec fn partial_cmp_spec(&self, other: &FileId) -> Option<Ordering> {
        Some(lex_cmp(self.0@, other.0@))
    }
}

} // verus!
