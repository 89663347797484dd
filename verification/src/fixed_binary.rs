//! Fixed-width byte arrays: the value type behind a SQL `BINARY(32)`
//! column, stored as four 64-bit words in little-endian byte order, with
//! the bytewise operations SQL exposes on it.

use vstd::prelude::*;

verus! {

/// The little-endian value of a byte sequence.
pub open spec fn le_bytes(s: Seq<u8>) -> int
    decreases s.len(),
{
    if s.len() == 0 {
        0
    } else {
        s[0] + 256 * le_bytes(s.drop_first())
    }
}

/// Why a byte-array value could not be read from its encoded form.
#[derive(PartialEq, Eq, Structural, Clone, Copy, Debug)]
pub enum BinaryDecodeError {
    /// The text was not valid standard base64.
    InvalidBase64,
    /// The decoded bytes do not fill exactly four 64-bit words.
    WrongLength,
}

/// A fixed-width byte array of 32 bytes, held as four little-endian words.
#[derive(PartialEq, Eq, Clone, Copy, Debug)]
pub struct FixedByteArray {
    data: [u64; 4],
}

impl View for FixedByteArray {
    type V = Seq<u64>;

    closed spec fn view(&self) -> Seq<u64> {
        self.data@
    }
}

impl Default for FixedByteArray {
    /// The all-zero byte array.
    fn default() -> (r: Self)
        ensures
            r@.len() == 4,
            forall|i: int| 0 <= i < 4 ==> r@[i] == 0,
    {
        FixedByteArray::zero(32)
    }
}

impl FixedByteArray {
    /// Wraps four words as a byte array.
    pub fn new(d: [u64; 4]) -> (r: FixedByteArray)
        ensures
            r@ == d@,
    {
        FixedByteArray { data: d }
    }

    /// The all-zero byte array; the size must be the one width this type
    /// carries.
    pub fn zero(size: usize) -> (r: FixedByteArray)
        requires
            size == 32,
        ensures
            r@.len() == 4,
            forall|i: int| 0 <= i < 4 ==> r@[i] == 0,
    {
        FixedByteArray { data: [0u64, 0u64, 0u64, 0u64] }
    }

    /// Takes the first four words of a vector.
    pub fn from_vec(d: Vec<u64>) -> (r: FixedByteArray)
        requires
            d@.len() >= 4,
        ensures
            r@ =~= d@.subrange(0, 4),
    {
        FixedByteArray { data: [d[0], d[1], d[2], d[3]] }
    }

    /// Reads one little-endian word from eight bytes of a slice.
    fn le_word(d: &[u8], off: usize) -> (w: u64)
        requires
            off + 8 <= d@.len(),
        ensures
            w as int == le_bytes(d@.subrange(off as int, off as int + 8)),
    {
        let b0 = d[off] as u64;
        let b1 = d[off + 1] as u64;
        let b2 = d[off + 2] as u64;
        let b3 = d[off + 3] as u64;
        let b4 = d[off + 4] as u64;
        let b5 = d[off + 5] as u64;
        let b6 = d[off + 6] as u64;
        let b7 = d[off + 7] as u64;
        let w = b0 + 256 * (b1 + 256 * (b2 + 256 * (b3 + 256 * (b4 + 256 * (b5 + 256 * (b6 + 256
            * b7))))));
        proof {
            let o = off as int;
            let s0 = d@.subrange(o, o + 8);
            let s1 = d@.subrange(o + 1, o + 8);
            let s2 = d@.subrange(o + 2, o + 8);
            let s3 = d@.subrange(o + 3, o + 8);
            let s4 = d@.subrange(o + 4, o + 8);
            let s5 = d@.subrange(o + 5, o + 8);
            let s6 = d@.subrange(o + 6, o + 8);
            let s7 = d@.subrange(o + 7, o + 8);
            assert(s0.drop_first() =~= s1);
            assert(s1.drop_first() =~= s2);
            assert(s2.drop_first() =~= s3);
            assert(s3.drop_first() =~= s4);
            assert(s4.drop_first() =~= s5);
            assert(s5.drop_first() =~= s6);
            assert(s6.drop_first() =~= s7);
            assert(s7.drop_first() =~= Seq::<u8>::empty());
            assert(s0[0] == b0 && s1[0] == b1 && s2[0] == b2 && s3[0] == b3 && s4[0] == b4 && s5[0]
                == b5 && s6[0] == b6 && s7[0] == b7);
            assert(le_bytes(Seq::<u8>::empty()) == 0);
            assert(le_bytes(s7) == b7 + 256 * le_bytes(Seq::<u8>::empty()));
            assert(le_bytes(s6) == b6 + 256 * le_bytes(s7));
            assert(le_bytes(s5) == b5 + 256 * le_bytes(s6));
            assert(le_bytes(s4) == b4 + 256 * le_bytes(s5));
            assert(le_bytes(s3) == b3 + 256 * le_bytes(s4));
            assert(le_bytes(s2) == b2 + 256 * le_bytes(s3));
            assert(le_bytes(s1) == b1 + 256 * le_bytes(s2));
            assert(le_bytes(s0) == b0 + 256 * le_bytes(s1));
            assert(le_bytes(s0) == w as int);
        }
        w
    }

    /// Reads a byte array from its little-endian byte encoding; the slice
    /// must fill exactly four words (a remainder of fewer than eight bytes
    /// is ignored).
    pub fn from_bytes(d: &[u8]) -> (r: FixedByteArray)
        requires
            d@.len() / 8 == 4,
        ensures
            r@.len() == 4,
            forall|i: int|
                0 <= i < 4 ==> #[trigger] r@[i] as int == le_bytes(
                    d@.subrange(8 * i, 8 * i + 8),
                ),
    {
        let w0 = Self::le_word(d, 0);
        let w1 = Self::le_word(d, 8);
        let w2 = Self::le_word(d, 16);
        let w3 = Self::le_word(d, 24);
        FixedByteArray { data: [w0, w1, w2, w3] }
    }

    /// Length of the byte array in bytes.
    pub fn length(&self) -> (n: usize)
        ensures
            n == 32,
    {
        32
    }

    /// Combines two byte arrays word by word with a pointwise function.
    pub fn zip<F: Fn(u64, u64) -> u64>(&self, other: &FixedByteArray, op: F) -> (r: FixedByteArray)
        requires
            forall|i: int| 0 <= i < 4 ==> call_requires(op, ((self@[i], other@[i]))),
        ensures
            r@.len() == 4,
            forall|i: int|
                0 <= i < 4 ==> #[trigger] call_ensures(op, ((self@[i], other@[i])), r@[i]),
    {
        proof {
            assert(call_requires(op, ((self@[0], other@[0]))));
            assert(call_requires(op, ((self@[1], other@[1]))));
            assert(call_requires(op, ((self@[2], other@[2]))));
            assert(call_requires(op, ((self@[3], other@[3]))));
        }
        let w0 = op(self.data[0], other.data[0]);
        let w1 = op(self.data[1], other.data[1]);
        let w2 = op(self.data[2], other.data[2]);
        let w3 = op(self.data[3], other.data[3]);
        let r = FixedByteArray { data: [w0, w1, w2, w3] };
        proof {
            assert(r@[0] == w0 && r@[1] == w1 && r@[2] == w2 && r@[3] == w3);
            assert forall|i: int|
                0 <= i < 4 implies #[trigger] call_ensures(op, ((self@[i], other@[i])), r@[i]) by {
                if i == 0 {
                } else if i == 1 {
                } else if i == 2 {
                }
            }
        }
        r
    }

    /// Bitwise and, word by word.
    pub fn and(&self, other: &FixedByteArray) -> (r: FixedByteArray)
        ensures
            r@.len() == 4,
            forall|i: int| 0 <= i < 4 ==> #[trigger] r@[i] == self@[i] & other@[i],
    {
        let w0 = self.data[0] & other.data[0];
        let w1 = self.data[1] & other.data[1];
        let w2 = self.data[2] & other.data[2];
        let w3 = self.data[3] & other.data[3];
        FixedByteArray { data: [w0, w1, w2, w3] }
    }

    /// Bitwise or, word by word.
    pub fn or(&self, other: &FixedByteArray) -> (r: FixedByteArray)
        ensures
            r@.len() == 4,
            forall|i: int| 0 <= i < 4 ==> #[trigger] r@[i] == self@[i] | other@[i],
    {
        let w0 = self.data[0] | other.data[0];
        let w1 = self.data[1] | other.data[1];
        let w2 = self.data[2] | other.data[2];
        let w3 = self.data[3] | other.data[3];
        FixedByteArray { data: [w0, w1, w2, w3] }
    }

    /// Bitwise exclusive or, word by word.
    pub fn xor(&self, other: &FixedByteArray) -> (r: FixedByteArray)
        ensures
            r@.len() == 4,
            forall|i: int| 0 <= i < 4 ==> #[trigger] r@[i] == self@[i] ^ other@[i],
    {
        let w0 = self.data[0] ^ other.data[0];
        let w1 = self.data[1] ^ other.data[1];
        let w2 = self.data[2] ^ other.data[2];
        let w3 = self.data[3] ^ other.data[3];
        FixedByteArray { data: [w0, w1, w2, w3] }
    }

    /// The words of the byte array.
    pub fn as_slice(&self) -> (r: &[u64])
        ensures
            r@ == self@,
    {
        self.data.as_slice()
    }

    /// Emits the eight little-endian bytes of one word.
    fn push_word_bytes(out: &mut Vec<u8>, w: u64)
        ensures
            final(out)@.len() == old(out)@.len() + 8,
            final(out)@.subrange(0, old(out)@.len() as int) =~= old(out)@,
            le_bytes(final(out)@.subrange(old(out)@.len() as int, final(out)@.len() as int))
                == w as int,
    {
        let b0 = (w % 256) as u8;
        let w1 = w / 256;
        let b1 = (w1 % 256) as u8;
        let w2 = w1 / 256;
        let b2 = (w2 % 256) as u8;
        let w3 = w2 / 256;
        let b3 = (w3 % 256) as u8;
        let w4 = w3 / 256;
        let b4 = (w4 % 256) as u8;
        let w5 = w4 / 256;
        let b5 = (w5 % 256) as u8;
        let w6 = w5 / 256;
        let b6 = (w6 % 256) as u8;
        let w7 = w6 / 256;
        let b7 = (w7 % 256) as u8;
        out.push(b0);
        out.push(b1);
        out.push(b2);
        out.push(b3);
        out.push(b4);
        out.push(b5);
        out.push(b6);
        out.push(b7);
        proof {
            let base = old(out)@.len() as int;
            let s0 = out@.subrange(base, base + 8);
            let s1 = out@.subrange(base + 1, base + 8);
            let s2 = out@.subrange(base + 2, base + 8);
            let s3 = out@.subrange(base + 3, base + 8);
            let s4 = out@.subrange(base + 4, base + 8);
            let s5 = out@.subrange(base + 5, base + 8);
            let s6 = out@.subrange(base + 6, base + 8);
            let s7 = out@.subrange(base + 7, base + 8);
            assert(s0.drop_first() =~= s1);
            assert(s1.drop_first() =~= s2);
            assert(s2.drop_first() =~= s3);
            assert(s3.drop_first() =~= s4);
            assert(s4.drop_first() =~= s5);
            assert(s5.drop_first() =~= s6);
            assert(s6.drop_first() =~= s7);
            assert(s7.drop_first() =~= Seq::<u8>::empty());
            assert(s0[0] == b0 && s1[0] == b1 && s2[0] == b2 && s3[0] == b3 && s4[0] == b4 && s5[0]
                == b5 && s6[0] == b6 && s7[0] == b7);
            assert(w7 < 256) by {
                assert(w <= u64::MAX);
            }
            assert(w as int == b0 + 256 * w1);
            assert(w1 as int == b1 + 256 * w2);
            assert(w2 as int == b2 + 256 * w3);
            assert(w3 as int == b3 + 256 * w4);
            assert(w4 as int == b4 + 256 * w5);
            assert(w5 as int == b5 + 256 * w6);
            assert(w6 as int == b6 + 256 * w7);
            assert(le_bytes(Seq::<u8>::empty()) == 0);
            assert(le_bytes(s7) == b7 + 256 * le_bytes(Seq::<u8>::empty()));
            assert(le_bytes(s6) == b6 + 256 * le_bytes(s7));
            assert(le_bytes(s5) == b5 + 256 * le_bytes(s6));
            assert(le_bytes(s4) == b4 + 256 * le_bytes(s5));
            assert(le_bytes(s3) == b3 + 256 * le_bytes(s4));
            assert(le_bytes(s2) == b2 + 256 * le_bytes(s3));
            assert(le_bytes(s1) == b1 + 256 * le_bytes(s2));
            assert(le_bytes(s0) == b0 + 256 * le_bytes(s1));
            assert(b7 == w7);
            assert(le_bytes(s7) == w7 as int);
            assert(le_bytes(s6) == w6 as int);
            assert(le_bytes(s5) == w5 as int);
            assert(le_bytes(s4) == w4 as int);
            assert(le_bytes(s3) == w3 as int);
            assert(le_bytes(s2) == w2 as int);
            assert(le_bytes(s1) == w1 as int);
            assert(le_bytes(s0) == w as int);
        }
    }

    /// The byte array as its little-endian byte encoding, word by word.
    pub fn to_byte_array(&self) -> (r: Vec<u8>)
        ensures
            r@.len() == 32,
            forall|i: int|
                0 <= i < 4 ==> le_bytes(#[trigger] r@.subrange(8 * i, 8 * i + 8)) == self@[i]
                    as int,
    {
        let mut out: Vec<u8> = Vec::new();
        Self::push_word_bytes(&mut out, self.data[0]);
        let ghost o1 = out@;
        Self::push_word_bytes(&mut out, self.data[1]);
        let ghost o2 = out@;
        Self::push_word_bytes(&mut out, self.data[2]);
        let ghost o3 = out@;
        Self::push_word_bytes(&mut out, self.data[3]);
        proof {
            let o4 = out@;
            assert(o4.subrange(0, 8) =~= o3.subrange(0, 8));
            assert(o4.subrange(8, 16) =~= o3.subrange(8, 16));
            assert(o4.subrange(16, 24) =~= o3.subrange(16, 24));
            assert(o3.subrange(0, 8) =~= o2.subrange(0, 8));
            assert(o3.subrange(8, 16) =~= o2.subrange(8, 16));
            assert(o2.subrange(0, 8) =~= o1.subrange(0, 8));
            assert(le_bytes(o4.subrange(0, 8)) == self@[0] as int);
            assert(le_bytes(o4.subrange(8, 16)) == self@[1] as int);
            assert(le_bytes(o4.subrange(16, 24)) == self@[2] as int);
            assert(le_bytes(o4.subrange(24, 32)) == self@[3] as int);
        }
        out
    }

    /// Reads a byte array from standard base64 text, as binary columns
    /// arrive in the base64 input format.  Invalid text and any decoded
    /// length that does not fill exactly four words are rejected.
    pub fn from_base64(s: &str) -> (r: Result<FixedByteArray, BinaryDecodeError>)
        ensures
            base64_decode_of(s@) is None ==> r == Err::<FixedByteArray, BinaryDecodeError>(
                BinaryDecodeError::InvalidBase64,
            ),
            (match base64_decode_of(s@) {
                Option::Some(bytes) => if bytes.len() / 8 == 4 {
                    r matches Ok(fb) && fb@.len() == 4 && (forall|i: int|
                        0 <= i < 4 ==> #[trigger] fb@[i] as int == le_bytes(
                            bytes.subrange(8 * i, 8 * i + 8),
                        ))
                } else {
                    r == Err::<FixedByteArray, BinaryDecodeError>(BinaryDecodeError::WrongLength)
                },
                Option::None => true,
            }),
    {
        match base64_decode(s) {
            Option::Some(bytes) => {
                if bytes.len() / 8 == 4 {
                    Ok(Self::from_bytes(bytes.as_slice()))
                } else {
                    Err(BinaryDecodeError::WrongLength)
                }
            },
            Option::None => Err(BinaryDecodeError::InvalidBase64),
        }
    }
}

/// Every byte-array value views as exactly its four words, whatever
/// constructor produced it.
pub proof fn lemma_fixed_byte_array_len(fb: FixedByteArray)
    ensures
        fb@.len() == 4,
{
}

/// What base64's standard-alphabet decode yields on given text: the bytes,
/// or nothing when the text is not valid base64.
pub uninterp spec fn base64_decode_of(s: Seq<char>) -> Option<Seq<u8>>;

/// Relies on base64's `Engine::decode` with the `STANDARD` engine: the
/// outcome depends on the input characters alone, and is an error exactly
/// on text that is not valid padded standard base64.
#[verifier::external_body]
fn base64_decode(s: &str) -> (r: Option<Vec<u8>>)
    ensures
        (match r {
            Option::Some(v) => base64_decode_of(s@) == Some(v@),
            Option::None => base64_decode_of(s@) is None,
        }),
{
    base64::Engine::decode(&base64::prelude::BASE64_STANDARD, s).ok()
}

} // verus!
