//! Byte sources, the error taxonomy and the traits every wire type obeys.

use crate::endian::{
    be_bytes, be_value, lemma_be_bytes_len, lemma_be_bytes_of_be_value, lemma_be_value_bound,
    lemma_be_value_of_be_bytes, lemma_pow256_values, pow256, read_be, write_be,
};
use crate::hex::{append_lower_hex, lower_hex};
use vstd::prelude::*;
use vstd::slice::{slice_subrange, slice_to_vec};

verus! {

/// Why a decode stopped. None of these can be retried away inside the codec.
#[derive(Debug, Clone, Copy, PartialEq, Eq, Structural)]
pub enum DecodeError {
    /// The source ended before a fixed-width field or a declared length was
    /// complete.
    ShortRead,
    /// A well-framed field breaks a rule of the format.
    InvalidData,
    /// An even type the decoder does not know.
    UnknownRequiredFeature,
}

impl DecodeError {
    /// The error in words.
    pub open spec fn description(self) -> Seq<char> {
        match self {
            DecodeError::ShortRead => "short read"@,
            DecodeError::InvalidData => "invalid data"@,
            DecodeError::UnknownRequiredFeature => "unknown required feature"@,
        }
    }

    /// The error in words.
    pub fn to_string(&self) -> (text: String)
        ensures
            text@ == self.description(),
    {
        match self {
            DecodeError::ShortRead => "short read".to_owned(),
            DecodeError::InvalidData => "invalid data".to_owned(),
            DecodeError::UnknownRequiredFeature => "unknown required feature".to_owned(),
        }
    }
}

/// A byte source over a slice that remembers whether any byte has been taken
/// from it. A source that fails before its first byte ended exactly on a
/// boundary; one that fails later was cut short.
pub struct ReadTrackingReader<'a> {
    /// The bytes not yet taken.
    pub read: &'a [u8],
    /// Whether a byte has been taken since the reader was made.
    pub have_read: bool,
}

impl<'a> View for ReadTrackingReader<'a> {
    type V = Seq<u8>;

    /// The bytes not yet taken.
    open spec fn view(&self) -> Seq<u8> {
        self.read@
    }
}

impl<'a> ReadTrackingReader<'a> {
    /// The state `self` is in once `n` bytes have been taken since `before`.
    pub open spec fn took(&self, before: Self, n: nat) -> bool {
        &&& n <= before@.len()
        &&& self@ == before@.skip(n as int)
        &&& self.have_read == (before.have_read || n > 0)
    }

    /// Taking `m` bytes and then `n` more is taking `m + n`.
    pub proof fn lemma_took_twice(self, before: Self, m: nat, between: Self, n: nat)
        requires
            between.took(before, m),
            self.took(between, n),
        ensures
            self.took(before, m + n),
    {
        assert(before@.skip(m as int).skip(n as int) =~= before@.skip((m + n) as int));
    }

    /// A source at the start of `read`, with nothing taken yet.
    pub fn new(read: &'a [u8]) -> (reader: Self)
        ensures
            reader@ == read@,
            !reader.have_read,
    {
        Self { read, have_read: false }
    }

    /// Takes up to `limit` bytes: all `limit` of them if that many are left,
    /// else whatever is left. An empty result at a non-zero `limit` is the
    /// end of the source and leaves `have_read` as it was.
    pub fn read(&mut self, limit: usize) -> (out: &'a [u8])
        ensures
            out@ == old(self)@.take(
                if limit <= old(self)@.len() {
                    limit as int
                } else {
                    old(self)@.len() as int
                },
            ),
            final(self).took(*old(self), out@.len()),
    {
        let available = self.read.len();
        let n = if limit <= available {
            limit
        } else {
            available
        };
        let out = slice_subrange(self.read, 0, n);
        self.read = slice_subrange(self.read, n, available);
        if n > 0 {
            self.have_read = true;
        }
        out
    }

    /// Takes exactly `length` bytes, or fails with `ShortRead` after taking
    /// all that was left. Zero bytes are always there to take.
    pub fn read_exact(&mut self, length: usize) -> (r: Result<&'a [u8], DecodeError>)
        ensures
            match r {
                Ok(out) => {
                    &&& length <= old(self)@.len()
                    &&& out@ == old(self)@.take(length as int)
                    &&& final(self).took(*old(self), length as nat)
                },
                Err(e) => {
                    &&& e == DecodeError::ShortRead
                    &&& old(self)@.len() < length
                    &&& final(self).took(*old(self), old(self)@.len())
                },
            },
    {
        let out = self.read(length);
        if out.len() < length {
            Err(DecodeError::ShortRead)
        } else {
            Ok(out)
        }
    }
}

/// What a decoder does on a source that still holds given bytes: the value
/// it returns or the error it fails with, and how many bytes it takes from
/// the source either way.
pub struct Decoding<T> {
    pub result: Result<T, DecodeError>,
    pub consumed: nat,
}

/// Whether `r` is the result that `model` describes: the same error, or a
/// value with the described view.
pub open spec fn matches_model<T: View>(
    r: Result<T, DecodeError>,
    model: Result<T::V, DecodeError>,
) -> bool {
    match r {
        Ok(value) => model == Ok::<T::V, DecodeError>(value@),
        Err(e) => model == Err::<T::V, DecodeError>(e),
    }
}

/// Decoding of exactly `length` raw bytes: the first `length` bytes of the
/// input, or `ShortRead` with the whole input taken if it holds fewer.
pub open spec fn bytes_decoding(input: Seq<u8>, length: nat) -> Decoding<Seq<u8>> {
    if length <= input.len() {
        Decoding { result: Ok(input.take(length as int)), consumed: length }
    } else {
        Decoding { result: Err(DecodeError::ShortRead), consumed: input.len() }
    }
}

/// Decoding of an unsigned big-endian integer of `width` bytes.
pub open spec fn uint_decoding(input: Seq<u8>, width: nat) -> Decoding<nat> {
    let raw = bytes_decoding(input, width);
    Decoding {
        result: match raw.result {
            Ok(bytes) => Ok(be_value(bytes)),
            Err(e) => Err(e),
        },
        consumed: raw.consumed,
    }
}

/// Round trip of the fixed-width integers: the `width` bytes that spell a
/// number which fits in them decode to that number, whatever follows.
pub proof fn lemma_uint_round_trip(x: nat, width: nat, rest: Seq<u8>)
    requires
        x < pow256(width),
    ensures
        uint_decoding(be_bytes(x, width) + rest, width) == (Decoding::<nat> {
            result: Ok(x),
            consumed: width,
        }),
{
    lemma_be_bytes_len(x, width);
    lemma_be_value_of_be_bytes(x, width);
    assert((be_bytes(x, width) + rest).take(width as int) =~= be_bytes(x, width));
}

/// The bytes that a decoding of raw bytes took are the bytes it gives, and
/// the input is those bytes and what is left.
pub proof fn lemma_bytes_canonical(input: Seq<u8>, length: nat)
    requires
        bytes_decoding(input, length).result is Ok,
    ensures
        bytes_decoding(input, length).consumed == length,
        bytes_decoding(input, length).result->Ok_0.len() == length,
        input == bytes_decoding(input, length).result->Ok_0 + input.skip(length as int),
{
    assert(input =~= input.take(length as int) + input.skip(length as int));
}

/// The bytes that a decoding of an integer took are the spelling of the
/// integer in `width` bytes, and the input is those bytes and what is left.
pub proof fn lemma_uint_canonical(input: Seq<u8>, width: nat)
    requires
        uint_decoding(input, width).result is Ok,
    ensures
        uint_decoding(input, width).consumed == width,
        uint_decoding(input, width).result->Ok_0 < pow256(width),
        input == be_bytes(uint_decoding(input, width).result->Ok_0, width) + input.skip(
            width as int,
        ),
{
    let bytes = input.take(width as int);
    lemma_be_value_bound(bytes);
    lemma_be_bytes_of_be_value(bytes);
    assert(input =~= bytes + input.skip(width as int));
}

/// Values with a wire encoding.
pub trait Writeable {
    /// The bytes that stand for the value on the wire.
    spec fn encoding(&self) -> Seq<u8>;

    /// Appends the encoding to `writer` and returns its length.
    fn write(&self, writer: &mut Vec<u8>) -> (n: usize)
        ensures
            final(writer)@ == old(writer)@ + self.encoding(),
            n == self.encoding().len(),
    ;

    /// Appends the encoding to `writer` as lowercase hexadecimal text.
    fn write_fmt(&self, writer: &mut String)
        ensures
            final(writer)@ == old(writer)@ + lower_hex(self.encoding()),
    {
        let msg = self.encode();
        append_lower_hex(msg.as_slice(), writer);
    }

    /// The encoding as a vector of its own.
    fn encode(&self) -> (msg: Vec<u8>)
        ensures
            msg@ == self.encoding(),
    {
        let mut msg = Vec::new();
        self.write(&mut msg);
        msg
    }
}

/// Values that can be decoded from the front of a byte source.
pub trait Readable: Sized + View {
    /// What `read` does on a source whose remaining bytes are `input`.
    spec fn decoding(input: Seq<u8>) -> Decoding<Self::V>;

    /// Decodes one value from `reader`. The result and the bytes taken are
    /// those of `decoding` on what the reader held; the bytes are taken also
    /// where the result is an error.
    fn read(reader: &mut ReadTrackingReader<'_>) -> (r: Result<Self, DecodeError>)
        ensures
            matches_model(r, Self::decoding(old(reader)@).result),
            final(reader).took(*old(reader), Self::decoding(old(reader)@).consumed),
    ;
}

/// Values decoded from a number of bytes that the caller states.
pub trait FixedLengthReadable: Sized + View {
    /// What `read` does on a source whose remaining bytes are `input`.
    spec fn decoding(input: Seq<u8>, length: usize) -> Decoding<Self::V>;

    /// Decodes one value from the next `length` bytes of `reader`.
    fn read(reader: &mut ReadTrackingReader<'_>, length: usize) -> (r: Result<Self, DecodeError>)
        ensures
            matches_model(r, Self::decoding(old(reader)@, length).result),
            final(reader).took(*old(reader), Self::decoding(old(reader)@, length).consumed),
    ;
}

impl FixedLengthReadable for Vec<u8> {
    open spec fn decoding(input: Seq<u8>, length: usize) -> Decoding<Seq<u8>> {
        bytes_decoding(input, length as nat)
    }

    fn read(reader: &mut ReadTrackingReader<'_>, length: usize) -> (r: Result<Self, DecodeError>) {
        match reader.read_exact(length) {
            Ok(bytes) => Ok(slice_to_vec(bytes)),
            Err(e) => Err(e),
        }
    }
}

impl Writeable for u8 {
    open spec fn encoding(&self) -> Seq<u8> {
        be_bytes(*self as nat, 1)
    }

    fn write(&self, writer: &mut Vec<u8>) -> (n: usize) {
        proof {
            lemma_be_bytes_len(*self as nat, 1);
        }
        write_be(*self as u64, 1, writer);
        assert(self.encoding() == be_bytes(*self as nat, 1));
        1
    }
}

impl Writeable for u16 {
    open spec fn encoding(&self) -> Seq<u8> {
        be_bytes(*self as nat, 2)
    }

    fn write(&self, writer: &mut Vec<u8>) -> (n: usize) {
        proof {
            lemma_be_bytes_len(*self as nat, 2);
        }
        write_be(*self as u64, 2, writer);
        assert(self.encoding() == be_bytes(*self as nat, 2));
        2
    }
}

impl Writeable for u32 {
    open spec fn encoding(&self) -> Seq<u8> {
        be_bytes(*self as nat, 4)
    }

    fn write(&self, writer: &mut Vec<u8>) -> (n: usize) {
        proof {
            lemma_be_bytes_len(*self as nat, 4);
        }
        write_be(*self as u64, 4, writer);
        assert(self.encoding() == be_bytes(*self as nat, 4));
        4
    }
}

impl Writeable for u64 {
    open spec fn encoding(&self) -> Seq<u8> {
        be_bytes(*self as nat, 8)
    }

    fn write(&self, writer: &mut Vec<u8>) -> (n: usize) {
        proof {
            lemma_be_bytes_len(*self as nat, 8);
        }
        write_be(*self, 8, writer);
        assert(self.encoding() == be_bytes(*self as nat, 8));
        8
    }
}

impl Readable for u8 {
    open spec fn decoding(input: Seq<u8>) -> Decoding<u8> {
        let n = uint_decoding(input, 1);
        Decoding {
            result: match n.result {
                Ok(x) => Ok(x as u8),
                Err(e) => Err(e),
            },
            consumed: n.consumed,
        }
    }

    fn read(reader: &mut ReadTrackingReader<'_>) -> (r: Result<Self, DecodeError>) {
        match reader.read_exact(1) {
            Ok(bytes) => {
                proof {
                    lemma_be_value_bound(bytes@);
                    lemma_pow256_values();
                }
                Ok(read_be(bytes) as u8)
            },
            Err(e) => Err(e),
        }
    }
}

impl Readable for u16 {
    open spec fn decoding(input: Seq<u8>) -> Decoding<u16> {
        let n = uint_decoding(input, 2);
        Decoding {
            result: match n.result {
                Ok(x) => Ok(x as u16),
                Err(e) => Err(e),
            },
            consumed: n.consumed,
        }
    }

    fn read(reader: &mut ReadTrackingReader<'_>) -> (r: Result<Self, DecodeError>) {
        match reader.read_exact(2) {
            Ok(bytes) => {
                proof {
                    lemma_be_value_bound(bytes@);
                    lemma_pow256_values();
                }
                Ok(read_be(bytes) as u16)
            },
            Err(e) => Err(e),
        }
    }
}

impl Readable for u32 {
    open spec fn decoding(input: Seq<u8>) -> Decoding<u32> {
        let n = uint_decoding(input, 4);
        Decoding {
            result: match n.result {
                Ok(x) => Ok(x as u32),
                Err(e) => Err(e),
            },
            consumed: n.consumed,
        }
    }

    fn read(reader: &mut ReadTrackingReader<'_>) -> (r: Result<Self, DecodeError>) {
        match reader.read_exact(4) {
            Ok(bytes) => {
                proof {
                    lemma_be_value_bound(bytes@);
                    lemma_pow256_values();
                }
                Ok(read_be(bytes) as u32)
            },
            Err(e) => Err(e),
        }
    }
}

impl Readable for u64 {
    open spec fn decoding(input: Seq<u8>) -> Decoding<u64> {
        let n = uint_decoding(input, 8);
        Decoding {
            result: match n.result {
                Ok(x) => Ok(x as u64),
                Err(e) => Err(e),
            },
            consumed: n.consumed,
        }
    }

    fn read(reader: &mut ReadTrackingReader<'_>) -> (r: Result<Self, DecodeError>) {
        match reader.read_exact(8) {
            Ok(bytes) => Ok(read_be(bytes)),
            Err(e) => Err(e),
        }
    }
}

} // verus!
