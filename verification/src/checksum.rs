//! Content addresses of raw bytecode.
//!
//! A [`Checksum`] is the SHA-1 digest of a contract's raw bytes.  Equal
//! bytecode always yields an equal checksum, and the checksum is the sole
//! key under which every cache tier stores its data.

use vstd::prelude::*;

use crate::crypto::{sha1_digest, sha1_of};

verus! {

/// A fixed-length content address: the SHA-1 digest of raw bytecode.
#[derive(Clone, Copy, Debug)]
pub struct Checksum {
    bytes: [u8; 20],
}

impl View for Checksum {
    type V = Seq<u8>;

    closed spec fn view(&self) -> Seq<u8> {
        self.bytes@
    }
}

impl PartialEq for Checksum {
    fn eq(&self, other: &Self) -> bool {
        let mut i: usize = 0;
        while i < 20
            invariant
                0 <= i <= 20,
                forall|j: int| 0 <= j < i ==> self.bytes@[j] == other.bytes@[j],
            decreases 20 - i,
        {
            if self.bytes[i] != other.bytes[i] {
                return false;
            }
            i += 1;
        }
        proof {
            assert(self.bytes@ =~= other.bytes@);
        }
        true
    }
}

impl Eq for Checksum {}

impl vstd::std_specs::cmp::PartialEqSpecImpl for Checksum {
    open spec fn obeys_eq_spec() -> bool {
        true
    }

    open spec fn eq_spec(&self, other: &Self) -> bool {
        self@ == other@
    }
}

impl Checksum {
    /// Computes the content address of `wasm`.  Pure and deterministic:
    /// equal bytes always give an equal checksum.
    pub fn generate(wasm: &[u8]) -> (r: Checksum)
        ensures
            r@ == sha1_of(wasm@),
            r@.len() == 20,
    {
        Checksum { bytes: sha1_digest(wasm) }
    }

    /// Rebuilds a checksum from its 20 raw bytes.
    pub fn from_bytes(bytes: [u8; 20]) -> (r: Checksum)
        ensures
            r@ == bytes@,
    {
        Checksum { bytes }
    }

    /// Rebuilds a checksum from a 20-byte slice.
    pub fn from_slice(s: &[u8]) -> (r: Checksum)
        requires
            s@.len() == 20,
        ensures
            r@ == s@,
    {
        let mut bytes: [u8; 20] = [0; 20];
        let mut i: usize = 0;
        while i < 20
            invariant
                0 <= i <= 20,
                s@.len() == 20,
                forall|j: int| 0 <= j < i ==> bytes@[j] == s@[j],
            decreases 20 - i,
        {
            bytes[i] = s[i];
            i += 1;
        }
        proof {
            assert(bytes@ =~= s@);
        }
        Checksum { bytes }
    }

    /// The raw digest bytes.
    pub fn as_bytes(&self) -> (r: &[u8; 20])
        ensures
            r@ == self@,
    {
        &self.bytes
    }

    /// The lower-case hexadecimal encoding of the digest, as ASCII bytes:
    /// the stable textual form used for content-addressed file names.
    pub fn to_hex(&self) -> (r: Vec<u8>)
        ensures
            r@ == hex_of(self@),
    {
        let mut out: Vec<u8> = Vec::new();
        let mut i: usize = 0;
        while i < 20
            invariant
                0 <= i <= 20,
                self@.len() == 20,
                out@ == hex_of(self@.take(i as int)),
            decreases 20 - i,
        {
            let b = self.bytes[i];
            out.push(hex_digit(b / 16));
            out.push(hex_digit(b % 16));
            proof {
                assert(self@.take(i + 1).drop_last() =~= self@.take(i as int));
                assert(self@.take(i + 1).last() == self@[i as int]);
            }
            i += 1;
        }
        proof {
            assert(self@.take(20) =~= self@);
        }
        out
    }
}

impl Checksum {
    /// Reads a checksum back from its lower-case hexadecimal encoding:
    /// the inverse of [`Checksum::to_hex`].  `None` for every input that
    /// no checksum encodes to.
    pub fn from_hex(input: &[u8]) -> (r: Option<Checksum>)
        ensures
            r matches Some(ck) ==> hex_of(ck@) == input@ && ck@.len() == 20,
            r is None ==> forall|b: Seq<u8>| b.len() == 20 ==> hex_of(b) != input@,
    {
        if input.len() != 40 {
            proof {
                assert forall|b: Seq<u8>| b.len() == 20 implies hex_of(b) != input@ by {
                    lemma_hex_of_len(b);
                }
            }
            return None;
        }
        let mut bytes: [u8; 20] = [0; 20];
        let mut i: usize = 0;
        while i < 20
            invariant
                0 <= i <= 20,
                input@.len() == 40,
                forall|j: int| 0 <= j < i ==> #[trigger] nibble_pair_at(input@, bytes@[j], j),
            decreases 20 - i,
        {
            let hi = match hex_digit_back(input[2 * i]) {
                Some(v) => v,
                None => {
                    proof {
                        assert forall|b: Seq<u8>| b.len() == 20 implies hex_of(b)
                            != input@ by {
                            lemma_hex_of_len(b);
                            lemma_hex_of_index(b, i as int);
                            if hex_of(b) == input@ {
                                assert(input@[2 * i] == spec_hex_digit(b[i as int] / 16));
                            }
                        }
                    }
                    return None;
                },
            };
            let lo = match hex_digit_back(input[2 * i + 1]) {
                Some(v) => v,
                None => {
                    proof {
                        assert forall|b: Seq<u8>| b.len() == 20 implies hex_of(b)
                            != input@ by {
                            lemma_hex_of_len(b);
                            lemma_hex_of_index(b, i as int);
                            if hex_of(b) == input@ {
                                assert(input@[2 * i + 1] == spec_hex_digit(b[i as int] % 16));
                            }
                        }
                    }
                    return None;
                },
            };
            let ghost prev = bytes@;
            bytes[i] = hi * 16 + lo;
            proof {
                assert forall|j: int|
                    0 <= j < i + 1 implies #[trigger] nibble_pair_at(input@, bytes@[j], j) by {
                    if j < i {
                        assert(bytes@[j] == prev[j]);
                        assert(nibble_pair_at(input@, prev[j], j));
                    } else {
                        assert(bytes@[j] == hi * 16 + lo);
                        assert(hex_digit_value(input@[2 * j]) == hi);
                        assert(hex_digit_value(input@[2 * j + 1]) == lo);
                    }
                }
            }
            i += 1;
        }
        let checksum = Checksum { bytes };
        proof {
            lemma_hex_of_len(bytes@);
            assert forall|k: int| 0 <= k < 40 implies hex_of(bytes@)[k] == input@[k] by {
                let j = k / 2;
                lemma_hex_of_index(bytes@, j);
                assert(nibble_pair_at(input@, bytes@[j], j));
                let hv = hex_digit_value(input@[2 * j]);
                let lv = hex_digit_value(input@[2 * j + 1]);
                assert(hv < 16 && lv < 16);
                assert((hv * 16 + lv) / 16 == hv && (hv * 16 + lv) % 16 == lv) by (nonlinear_arith)
                    requires
                        hv < 16,
                        lv < 16,
                ;
                if k % 2 == 0 {
                    assert(k == 2 * j);
                    assert(hex_of(bytes@)[k] == spec_hex_digit(bytes@[j] / 16));
                } else {
                    assert(k == 2 * j + 1);
                    assert(hex_of(bytes@)[k] == spec_hex_digit(bytes@[j] % 16));
                }
            }
            assert(hex_of(bytes@) =~= input@);
        }
        Some(checksum)
    }
}

/// Two byte sequences of one length with the same hexadecimal encoding
/// are the same: the textual form is lossless.
pub proof fn lemma_hex_of_injective(a: Seq<u8>, b: Seq<u8>)
    requires
        a.len() == b.len(),
        hex_of(a) == hex_of(b),
    ensures
        a == b,
{
    assert forall|i: int| 0 <= i < a.len() implies a[i] == b[i] by {
        lemma_hex_of_index(a, i);
        lemma_hex_of_index(b, i);
        lemma_hex_of_len(a);
        lemma_hex_of_len(b);
        assert(spec_hex_digit(a[i] / 16) == spec_hex_digit(b[i] / 16));
        assert(spec_hex_digit(a[i] % 16) == spec_hex_digit(b[i] % 16));
        assert(a[i] / 16 == b[i] / 16 && a[i] % 16 == b[i] % 16);
    }
    assert(a =~= b);
}

/// The hexadecimal encoding is two digits per byte.
proof fn lemma_hex_of_len(b: Seq<u8>)
    ensures
        hex_of(b).len() == 2 * b.len(),
    decreases b.len(),
{
    if b.len() > 0 {
        lemma_hex_of_len(b.drop_last());
    }
}

/// The two digits a byte contributes, by position.
proof fn lemma_hex_of_index(b: Seq<u8>, i: int)
    requires
        0 <= i < b.len(),
    ensures
        hex_of(b)[2 * i] == spec_hex_digit(b[i] / 16),
        hex_of(b)[2 * i + 1] == spec_hex_digit(b[i] % 16),
    decreases b.len(),
{
    lemma_hex_of_len(b.drop_last());
    if i < b.len() - 1 {
        lemma_hex_of_index(b.drop_last(), i);
    }
}

/// `b` is the byte the two hexadecimal digits at positions `2 * j` and
/// `2 * j + 1` of `input` encode.
pub open spec fn nibble_pair_at(input: Seq<u8>, b: u8, j: int) -> bool {
    is_hex_digit(input[2 * j]) && is_hex_digit(input[2 * j + 1]) && b == hex_digit_value(
        input[2 * j],
    ) * 16 + hex_digit_value(input[2 * j + 1])
}

/// Whether `c` is a lower-case hexadecimal digit.
pub open spec fn is_hex_digit(c: u8) -> bool {
    (48 <= c <= 57) || (97 <= c <= 102)
}

/// The nibble a lower-case hexadecimal digit stands for.
pub open spec fn hex_digit_value(c: u8) -> u8 {
    if 48 <= c <= 57 {
        (c - 48) as u8
    } else {
        (c - 87) as u8
    }
}

/// Maps a lower-case hexadecimal ASCII digit back to its nibble.
fn hex_digit_back(c: u8) -> (r: Option<u8>)
    ensures
        r matches Some(v) ==> is_hex_digit(c) && v == hex_digit_value(c) && v < 16
            && spec_hex_digit(v) == c,
        r is None ==> !is_hex_digit(c),
{
    if 48 <= c && c <= 57 {
        Some(c - 48)
    } else if 97 <= c && c <= 102 {
        Some(c - 87)
    } else {
        None
    }
}

/// The ASCII code of the lower-case hexadecimal digit for a nibble.
pub open spec fn spec_hex_digit(n: u8) -> u8 {
    if n < 10 {
        (48 + n) as u8
    } else {
        (87 + n) as u8
    }
}

/// Maps a nibble (0..16) to its lower-case hexadecimal ASCII code.
fn hex_digit(n: u8) -> (r: u8)
    requires
        n < 16,
    ensures
        r == spec_hex_digit(n),
{
    if n < 10 {
        48 + n
    } else {
        87 + n
    }
}

/// The lower-case hexadecimal encoding of a byte sequence.
pub open spec fn hex_of(s: Seq<u8>) -> Seq<u8>
    decreases s.len(),
{
    if s.len() == 0 {
        Seq::empty()
    } else {
        hex_of(s.drop_last()) + seq![
            spec_hex_digit(s.last() / 16),
            spec_hex_digit(s.last() % 16),
        ]
    }
}

} // verus!
