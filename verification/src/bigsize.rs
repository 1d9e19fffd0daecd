//! `BigSize`: an unsigned 64-bit integer in one, three, five or nine bytes,
//! the shortest that holds it.

use crate::endian::{
    be_bytes, be_value, lemma_be_bytes_len, lemma_be_bytes_of_be_value, lemma_be_value_bound,
    lemma_be_value_of_be_bytes, lemma_pow256_values,
};
use crate::ser::{uint_decoding, DecodeError, Decoding, ReadTrackingReader, Readable, Writeable};
use vstd::prelude::*;

verus! {

/// An unsigned 64-bit integer with the variable-length encoding: below
/// `0xfd` the value is its own single byte; above, a prefix byte `0xfd`,
/// `0xfe` or `0xff` announces a big-endian tail of 2, 4 or 8 bytes.
#[derive(Debug, Clone, Copy, PartialEq, Eq)]
pub struct BigSize(pub u64);

impl View for BigSize {
    type V = u64;

    open spec fn view(&self) -> u64 {
        self.0
    }
}

/// The number of bytes that follow the prefix byte `prefix`.
pub open spec fn tail_width(prefix: u8) -> nat {
    if prefix < 0xfd {
        0
    } else if prefix == 0xfd {
        2
    } else if prefix == 0xfe {
        4
    } else {
        8
    }
}

/// The least value that is entitled to a tail of `width` bytes: anything
/// smaller fits a shorter form.
pub open spec fn least_with_tail(width: nat) -> nat {
    if width == 2 {
        0xfd
    } else if width == 4 {
        0x1_0000
    } else {
        0x1_0000_0000
    }
}

/// The encoding of `x`.
pub open spec fn bigsize_encoding(x: u64) -> Seq<u8> {
    if x < 0xfd {
        seq![x as u8]
    } else if x < 0x1_0000 {
        seq![0xfdu8] + be_bytes(x as nat, 2)
    } else if x < 0x1_0000_0000 {
        seq![0xfeu8] + be_bytes(x as nat, 4)
    } else {
        seq![0xffu8] + be_bytes(x as nat, 8)
    }
}

/// Decoding of one `BigSize` from the front of `input`. No input at all is
/// a `ShortRead` that takes nothing; a missing or partial tail is a
/// `ShortRead` that takes everything; a complete tail that spells a value
/// too small for its width is `InvalidData`.
pub open spec fn bigsize_decoding(input: Seq<u8>) -> Decoding<u64> {
    if input.len() == 0 {
        Decoding { result: Err(DecodeError::ShortRead), consumed: 0 }
    } else if input[0] < 0xfd {
        Decoding { result: Ok(input[0] as u64), consumed: 1 }
    } else {
        let width = tail_width(input[0]);
        let tail = uint_decoding(input.skip(1), width);
        Decoding {
            result: match tail.result {
                Ok(x) => if x < least_with_tail(width) {
                    Err(DecodeError::InvalidData)
                } else {
                    Ok(x as u64)
                },
                Err(e) => Err(e),
            },
            consumed: 1 + tail.consumed,
        }
    }
}

impl Writeable for BigSize {
    open spec fn encoding(&self) -> Seq<u8> {
        bigsize_encoding(self.0)
    }

    fn write(&self, writer: &mut Vec<u8>) -> (n: usize) {
        let x = self.0;
        proof {
            lemma_be_bytes_len(x as nat, 2);
            lemma_be_bytes_len(x as nat, 4);
            lemma_be_bytes_len(x as nat, 8);
        }
        if x < 0xfd {
            writer.push(x as u8);
            1
        } else if x < 0x1_0000 {
            writer.push(0xfd);
            let tail = (x as u16).write(writer);
            1 + tail
        } else if x < 0x1_0000_0000 {
            writer.push(0xfe);
            let tail = (x as u32).write(writer);
            1 + tail
        } else {
            writer.push(0xff);
            let tail = x.write(writer);
            1 + tail
        }
    }
}

impl Readable for BigSize {
    open spec fn decoding(input: Seq<u8>) -> Decoding<u64> {
        bigsize_decoding(input)
    }

    fn read(reader: &mut ReadTrackingReader<'_>) -> (r: Result<Self, DecodeError>) {
        let ghost start = *reader;
        assert(Self::decoding(start@) == bigsize_decoding(start@));
        let prefix: Result<u8, DecodeError> = Readable::read(reader);
        let ghost after_prefix = *reader;
        proof {
            assert(<u8 as Readable>::decoding(start@).consumed == uint_decoding(start@, 1).consumed);
            if start@.len() > 0 {
                assert(start@.take(1).drop_last() =~= Seq::<u8>::empty());
                reveal_with_fuel(be_value, 2);
                assert(be_value(start@.take(1)) == start@[0]);
            }
        }
        let size = prefix?;
        assert(size == start@[0]);
        assert(after_prefix@ == start@.skip(1));
        if size == 0xfd {
            let tail: Result<u16, DecodeError> = Readable::read(reader);
            proof {
                let model = uint_decoding(after_prefix@, 2);
                assert(<u16 as Readable>::decoding(after_prefix@).consumed == model.consumed);
                reader.lemma_took_twice(start, 1, after_prefix, model.consumed);
                if model.result is Ok {
                    lemma_be_value_bound(after_prefix@.take(2));
                    lemma_pow256_values();
                }
            }
            let x = tail?;
            if x < 0xfd {
                return Err(DecodeError::InvalidData);
            }
            Ok(BigSize(x as u64))
        } else if size == 0xfe {
            let tail: Result<u32, DecodeError> = Readable::read(reader);
            proof {
                let model = uint_decoding(after_prefix@, 4);
                assert(<u32 as Readable>::decoding(after_prefix@).consumed == model.consumed);
                reader.lemma_took_twice(start, 1, after_prefix, model.consumed);
                if model.result is Ok {
                    lemma_be_value_bound(after_prefix@.take(4));
                    lemma_pow256_values();
                }
            }
            let x = tail?;
            if x < 0x1_0000 {
                return Err(DecodeError::InvalidData);
            }
            Ok(BigSize(x as u64))
        } else if size == 0xff {
            let tail: Result<u64, DecodeError> = Readable::read(reader);
            proof {
                let model = uint_decoding(after_prefix@, 8);
                assert(<u64 as Readable>::decoding(after_prefix@).consumed == model.consumed);
                reader.lemma_took_twice(start, 1, after_prefix, model.consumed);
                if model.result is Ok {
                    lemma_be_value_bound(after_prefix@.take(8));
                    lemma_pow256_values();
                }
            }
            let x = tail?;
            if x < 0x1_0000_0000 {
                return Err(DecodeError::InvalidData);
            }
            Ok(BigSize(x))
        } else {
            Ok(BigSize(size as u64))
        }
    }
}

/// The prefix byte that announces a tail of `width` bytes.
pub open spec fn prefix_of(width: nat) -> u8 {
    if width == 2 {
        0xfd
    } else if width == 4 {
        0xfe
    } else {
        0xff
    }
}

/// Round trip: decoding the encoding of `v`, whatever follows it in the
/// source, gives `v` back and takes the encoding and nothing more.
pub proof fn lemma_bigsize_round_trip(v: u64, rest: Seq<u8>)
    ensures
        bigsize_decoding(bigsize_encoding(v) + rest) == (Decoding::<u64> {
            result: Ok(v),
            consumed: bigsize_encoding(v).len(),
        }),
{
    let encoding = bigsize_encoding(v);
    let input = encoding + rest;
    lemma_pow256_values();
    if v < 0xfd {
        assert(input[0] == v as u8);
    } else {
        let width: nat = if v < 0x1_0000 {
            2
        } else if v < 0x1_0000_0000 {
            4
        } else {
            8
        };
        let tail = be_bytes(v as nat, width);
        lemma_be_bytes_len(v as nat, width);
        lemma_be_value_of_be_bytes(v as nat, width);
        assert(encoding == seq![prefix_of(width)] + tail);
        assert(input[0] == prefix_of(width));
        assert(input.skip(1).take(width as int) =~= tail);
    }
}

/// Canonicality: the only bytes that decode to `v` are the encoding of `v`.
/// A value has one accepted spelling, the shortest.
pub proof fn lemma_bigsize_canonical(input: Seq<u8>, v: u64)
    requires
        bigsize_decoding(input).result == Ok::<u64, DecodeError>(v),
    ensures
        input.take(bigsize_decoding(input).consumed as int) == bigsize_encoding(v),
{
    lemma_pow256_values();
    if input[0] < 0xfd {
        assert(input.take(1) =~= seq![v as u8]);
    } else {
        let width = tail_width(input[0]);
        let tail = input.skip(1).take(width as int);
        lemma_be_value_bound(tail);
        lemma_be_bytes_of_be_value(tail);
        assert(input.take((1 + width) as int) =~= seq![input[0]] + tail);
    }
}

/// A value spelled in a wider form than it needs is refused: a tail of
/// `width` bytes that holds less than `least_with_tail(width)` is
/// `InvalidData`, after the tail is taken.
pub proof fn lemma_bigsize_wider_form_refused(x: nat, width: nat, rest: Seq<u8>)
    requires
        width == 2 || width == 4 || width == 8,
        x < least_with_tail(width),
    ensures
        bigsize_decoding(seq![prefix_of(width)] + be_bytes(x, width) + rest) == (Decoding::<u64> {
            result: Err(DecodeError::InvalidData),
            consumed: 1 + width,
        }),
{
    let tail = be_bytes(x, width);
    let input = seq![prefix_of(width)] + tail + rest;
    lemma_pow256_values();
    lemma_be_bytes_len(x, width);
    lemma_be_value_of_be_bytes(x, width);
    assert(input[0] == prefix_of(width));
    assert(input.skip(1).take(width as int) =~= tail);
}

/// A source that ends where the value would begin gives `ShortRead` with
/// nothing taken; one that ends inside the tail gives `ShortRead` with
/// everything taken.
pub proof fn lemma_bigsize_short(input: Seq<u8>)
    requires
        input.len() == 0 || (input[0] >= 0xfd && input.len() < 1 + tail_width(input[0])),
    ensures
        bigsize_decoding(input) == (Decoding::<u64> {
            result: Err(DecodeError::ShortRead),
            consumed: input.len(),
        }),
{
}

/// What a decoding makes of its input does not depend on what follows the
/// bytes it takes: unless it ran out of input, more input changes nothing.
pub proof fn lemma_bigsize_decoding_extends(input: Seq<u8>, more: Seq<u8>)
    requires
        bigsize_decoding(input).result != Err::<u64, DecodeError>(DecodeError::ShortRead),
    ensures
        bigsize_decoding(input + more) == bigsize_decoding(input),
{
    let longer = input + more;
    assert(longer[0] == input[0]);
    if input[0] >= 0xfd {
        let width = tail_width(input[0]);
        assert(longer.skip(1).take(width as int) =~= input.skip(1).take(width as int));
    }
}

} // verus!
