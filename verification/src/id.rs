//! The content identifier: a 128-bit magnitude with a category tag, built
//! from and rendered to base16 text, base62 text, 16 raw big-endian bytes,
//! or a colon-delimited resource reference.

use vstd::prelude::*;
use vstd::string::StrSliceExecFns;
use crate::codec::{decode_digits, decode_str, encode_digits, encode_fixed, radix};
use crate::raw::{be_bytes, be_val, lemma_be_bytes_len, lemma_be_bytes_split, lemma_be_val_be_bytes, lemma_be_val_concat, read_u64_be, write_u64_be};
use crate::text::{colon_from, contains_pat, contains_seq, find_colon};

verus! {

/// The kind of content an identifier points at.
#[derive(Debug, Clone, Copy, PartialEq, Eq, Hash, Structural)]
pub enum SpotifyTrackType {
    Track,
    Podcast,
}

/// Why a textual or binary form failed to decode.
#[derive(Debug, Copy, Clone, PartialEq, Eq, Hash, Structural)]
pub enum SpotifyIdError {
    /// A character outside the expected alphabet.
    InvalidDigit,
    /// A raw buffer that does not hold exactly 16 bytes.
    InvalidLength,
    /// A reference with fewer than three colon-separated segments.
    InvalidReference,
}

/// A 128-bit content identifier with its category tag.
#[derive(Debug, Clone, Copy, PartialEq, Eq, Hash, Structural)]
pub struct SpotifyId {
    pub id: u128,
    pub track_type: SpotifyTrackType,
}

/// The third colon-separated segment of `s` (the payload of a resource
/// reference), or `None` when `s` has fewer than three segments.
pub open spec fn third_segment(s: Seq<char>) -> Option<Seq<char>> {
    let i1 = colon_from(s, 0);
    let i2 = colon_from(s, (i1 + 1) as nat);
    if i2 >= s.len() {
        None
    } else {
        Some(s.subrange(i2 as int + 1, colon_from(s, (i2 + 1) as nat) as int))
    }
}

/// A reference names podcast content when it contains a `:show:` or
/// `:episode:` segment.
pub open spec fn is_podcast_reference(s: Seq<char>) -> bool {
    contains_seq(s, ":show:"@) || contains_seq(s, ":episode:"@)
}

impl SpotifyId {
    /// Wraps a magnitude as a track identifier.
    fn as_track(n: u128) -> (s: SpotifyId)
        ensures
            s.id == n,
            s.track_type == SpotifyTrackType::Track,
    {
        SpotifyId { id: n, track_type: SpotifyTrackType::Track }
    }

    /// Decodes big-endian base16 text, wrapping modulo `2^128`; any
    /// character outside `0123456789abcdef` is rejected.
    pub fn from_base16(id: &str) -> (r: Result<SpotifyId, SpotifyIdError>)
        ensures
            r is Ok <==> decode_digits(id@, 16) is Some,
            r matches Ok(s) ==> decode_digits(id@, 16) == Some(s.id as nat) && s.track_type
                == SpotifyTrackType::Track,
            r matches Err(e) ==> e == SpotifyIdError::InvalidDigit,
    {
        match decode_str(id, 16) {
            Some(n) => Ok(SpotifyId::as_track(n)),
            None => Err(SpotifyIdError::InvalidDigit),
        }
    }

    /// Decodes big-endian base62 text, wrapping modulo `2^128`; any
    /// character outside the base62 alphabet is rejected.
    pub fn from_base62(id: &str) -> (r: Result<SpotifyId, SpotifyIdError>)
        ensures
            r is Ok <==> decode_digits(id@, 62) is Some,
            r matches Ok(s) ==> decode_digits(id@, 62) == Some(s.id as nat) && s.track_type
                == SpotifyTrackType::Track,
            r matches Err(e) ==> e == SpotifyIdError::InvalidDigit,
    {
        match decode_str(id, 62) {
            Some(n) => Ok(SpotifyId::as_track(n)),
            None => Err(SpotifyIdError::InvalidDigit),
        }
    }

    /// Reads a 16-byte big-endian buffer; any other length is rejected.
    pub fn from_raw(data: &[u8]) -> (r: Result<SpotifyId, SpotifyIdError>)
        ensures
            r is Ok <==> data@.len() == 16,
            r matches Ok(s) ==> s.id as nat == be_val(data@) && s.track_type
                == SpotifyTrackType::Track,
            r matches Err(e) ==> e == SpotifyIdError::InvalidLength,
    {
        if data.len() != 16 {
            return Err(SpotifyIdError::InvalidLength);
        }
        let high = read_u64_be(data, 0);
        let low = read_u64_be(data, 8);
        proof {
            assert(data@ =~= data@.subrange(0, 8) + data@.subrange(8, 16));
            lemma_be_val_concat(data@.subrange(0, 8), data@.subrange(8, 16));
            reveal_with_fuel(vstd::arithmetic::power::pow, 9);
            assert(vstd::arithmetic::power::pow(256, 8) == 0x1_0000_0000_0000_0000);
        }
        proof {
            vstd::arithmetic::mul::lemma_mul_inequality(
                high as int,
                u64::MAX as int,
                0x1_0000_0000_0000_0000,
            );
        }
        let n: u128 = (high as u128) * 0x1_0000_0000_0000_0000u128 + (low as u128);
        Ok(SpotifyId::as_track(n))
    }

    /// Decodes the third colon-separated segment of a resource reference as
    /// base62; a reference containing `:show:` or `:episode:` is tagged as
    /// podcast content, every other one as a track.
    pub fn from_uri(uri: &str) -> (r: Result<SpotifyId, SpotifyIdError>)
        ensures
            r is Ok <==> (third_segment(uri@) matches Some(seg) && decode_digits(seg, 62)
                is Some),
            r matches Ok(s) ==> (third_segment(uri@) matches Some(seg) && decode_digits(seg, 62)
                == Some(s.id as nat) && s.track_type == (if is_podcast_reference(uri@) {
                SpotifyTrackType::Podcast
            } else {
                SpotifyTrackType::Track
            })),
            r matches Err(e) ==> match third_segment(uri@) {
                Some(seg) => decode_digits(seg, 62) is None && e == SpotifyIdError::InvalidDigit,
                None => e == SpotifyIdError::InvalidReference,
            },
    {
        let len = uri.unicode_len();
        let i1 = find_colon(uri, 0, len);
        if i1 >= len {
            return Err(SpotifyIdError::InvalidReference);
        }
        let i2 = find_colon(uri, i1 + 1, len);
        if i2 >= len {
            return Err(SpotifyIdError::InvalidReference);
        }
        let i3 = find_colon(uri, i2 + 1, len);
        let seg = uri.substring_char(i2 + 1, i3);
        match decode_str(seg, 62) {
            None => Err(SpotifyIdError::InvalidDigit),
            Some(n) => {
                if contains_pat(uri, ":show:") || contains_pat(uri, ":episode:") {
                    Ok(SpotifyId { id: n, track_type: SpotifyTrackType::Podcast })
                } else {
                    Ok(SpotifyId::as_track(n))
                }
            },
        }
    }

    /// Renders the magnitude as exactly 32 lowercase base16 characters,
    /// zero-padded on the left.
    pub fn to_base16(&self) -> (r: String)
        ensures
            r@ == encode_digits(self.id as nat, 32, 16),
            r@.len() == 32,
    {
        encode_fixed(self.id, 32, 16)
    }

    /// Renders the magnitude as exactly 22 base62 characters, zero-padded
    /// on the left.
    pub fn to_base62(&self) -> (r: String)
        ensures
            r@ == encode_digits(self.id as nat, 22, 62),
            r@.len() == 22,
    {
        encode_fixed(self.id, 22, 62)
    }

    /// Renders the magnitude as its 16 big-endian bytes, high 64 bits first.
    pub fn to_raw(&self) -> (r: [u8; 16])
        ensures
            r@ == be_bytes(self.id as nat, 16),
            r@.len() == 16,
    {
        let high: u64 = (self.id / 0x1_0000_0000_0000_0000u128) as u64;
        let low: u64 = (self.id % 0x1_0000_0000_0000_0000u128) as u64;
        let hv = write_u64_be(high);
        let lv = write_u64_be(low);
        proof {
            lemma_be_bytes_split(self.id as nat, 16, 8);
            reveal_with_fuel(vstd::arithmetic::power::pow, 9);
            assert(vstd::arithmetic::power::pow(256, 8) == 0x1_0000_0000_0000_0000);
            lemma_be_bytes_len(self.id as nat / 0x1_0000_0000_0000_0000, 8);
            lemma_be_bytes_len(self.id as nat % 0x1_0000_0000_0000_0000, 8);
        }
        let mut out = [0u8; 16];
        let mut i: usize = 0;
        while i < 8
            invariant
                i <= 8,
                hv@.len() == 8,
                lv@.len() == 8,
                out@.len() == 16,
                forall|j: int| 0 <= j < i ==> out@[j] == hv@[j],
                forall|j: int| 0 <= j < i ==> out@[j + 8] == lv@[j],
            decreases 8 - i,
        {
            out[i] = hv[i];
            out[i + 8] = lv[i];
            i = i + 1;
        }
        proof {
            assert(out@ =~= hv@ + lv@);
        }
        out
    }
}

/// Decoding the base16 rendering of any identifier yields its magnitude
/// back, for every 128-bit magnitude.
pub proof fn lemma_base16_round_trip(m: u128)
    ensures
        decode_digits(encode_digits(m as nat, 32, 16), 16) == Some(m as nat),
{
    reveal_with_fuel(vstd::arithmetic::power::pow, 33);
    assert(vstd::arithmetic::power::pow(16, 32) == radix());
    crate::codec::lemma_decode_encode(m as nat, 32, 16);
}

/// Decoding the base62 rendering of any identifier yields its magnitude
/// back, for every 128-bit magnitude.
pub proof fn lemma_base62_round_trip(m: u128)
    ensures
        decode_digits(encode_digits(m as nat, 22, 62), 62) == Some(m as nat),
{
    reveal_with_fuel(vstd::arithmetic::power::pow, 23);
    assert(vstd::arithmetic::power::pow(62, 22) > radix());
    crate::codec::lemma_decode_encode(m as nat, 22, 62);
}

/// Reading back the 16 raw bytes of any identifier yields its magnitude,
/// for every 128-bit magnitude.
pub proof fn lemma_raw_round_trip(m: u128)
    ensures
        be_val(be_bytes(m as nat, 16)) == m as nat,
{
    lemma_be_val_be_bytes(m as nat, 16);
    reveal_with_fuel(vstd::arithmetic::power::pow, 17);
    assert(vstd::arithmetic::power::pow(256, 16) == radix());
    vstd::arithmetic::div_mod::lemma_small_mod(m as nat, radix());
}

} // verus!
