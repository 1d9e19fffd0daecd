//! Type-length-value records and streams of them.
//!
//! A record is a `BigSize` type, a `BigSize` length and that many bytes of
//! value. Four types have a decoder of their own; of the others the even
//! ones are refused and the odd ones kept as opaque bytes. A stream is
//! records end to end with strictly increasing types, every record counted,
//! kept or not.

use crate::endian::{
    append_bytes, be_bytes, be_value, byte_len, lemma_be_bytes_len, lemma_be_bytes_of_be_value,
    lemma_be_value_bound, lemma_be_value_leading, lemma_be_value_of_be_bytes,
    lemma_byte_len_bounds, lemma_byte_len_of_be_value, lemma_pow256_monotonic,
    lemma_pow256_values, min_width, pow256, read_be, write_be,
};
use crate::bigsize::{
    bigsize_decoding, bigsize_encoding, lemma_bigsize_canonical, lemma_bigsize_decoding_extends,
    lemma_bigsize_round_trip, BigSize,
};
use crate::keys::{check_public_key, is_public_key};
use crate::ser::{
    bytes_decoding, matches_model, DecodeError, Decoding, ReadTrackingReader, Readable, Writeable,
};
use crate::hex::{lemma_lower_hex_concat, lower_hex};
use vstd::prelude::*;
use vstd::slice::{slice_subrange, slice_to_vec};

verus! {

/// The type of an amount in millisatoshi.
pub const TYPE_AMOUNT: u64 = 1;

/// The type of a short channel id.
pub const TYPE_SHORT_CHANNEL_ID: u64 = 2;

/// The type of a point with two amounts.
pub const TYPE_POINT_AMOUNT: u64 = 3;

/// The type of an expiry.
pub const TYPE_CLTV_EXPIRY: u64 = 254;

/// A node's public key in its 33-byte compressed form, and two amounts.
#[derive(Debug, Clone, Copy, PartialEq, Eq)]
pub struct PointAmount {
    pub point: [u8; 33],
    pub amount_msat_1: u64,
    pub amount_msat_2: u64,
}

/// A `PointAmount` as plain values.
pub struct PointAmountView {
    pub point: Seq<u8>,
    pub amount_msat_1: u64,
    pub amount_msat_2: u64,
}

impl View for PointAmount {
    type V = PointAmountView;

    open spec fn view(&self) -> PointAmountView {
        PointAmountView {
            point: self.point@,
            amount_msat_1: self.amount_msat_1,
            amount_msat_2: self.amount_msat_2,
        }
    }
}

/// The value of a record.
#[derive(Debug, PartialEq, Eq)]
pub enum Value {
    /// An amount in millisatoshi.
    Amount(u64),
    /// A short channel id, as its eight bytes.
    ShortChannelId([u8; 8]),
    /// A point and two amounts.
    PointAmount(PointAmount),
    /// An expiry, in blocks.
    CLTVExpiry(u16),
    /// The bytes of a record of an odd type that has no decoder.
    Unknown(Vec<u8>),
}

/// A `Value` as plain values.
pub enum ValueView {
    Amount(u64),
    ShortChannelId(Seq<u8>),
    PointAmount(PointAmountView),
    CLTVExpiry(u16),
    Unknown(Seq<u8>),
}

impl View for Value {
    type V = ValueView;

    open spec fn view(&self) -> ValueView {
        match self {
            Value::Amount(v) => ValueView::Amount(*v),
            Value::ShortChannelId(id) => ValueView::ShortChannelId(id@),
            Value::PointAmount(p) => ValueView::PointAmount(p@),
            Value::CLTVExpiry(v) => ValueView::CLTVExpiry(*v),
            Value::Unknown(raw) => ValueView::Unknown(raw@),
        }
    }
}

/// One record: its type, the length of its value in bytes, and the value.
#[derive(Debug, PartialEq, Eq)]
pub struct TLVRecord {
    /// Decides how the value is decoded.
    record_type: BigSize,
    /// The size of the value on the wire, in bytes.
    length: BigSize,
    /// What the decoder of the type made of the bytes. Decoding leaves no
    /// value out: an amount of no bytes is the amount zero.
    value: Option<Value>,
}

/// A `TLVRecord` as plain values.
pub struct TLVRecordView {
    pub record_type: u64,
    pub length: u64,
    pub value: Option<ValueView>,
}

impl View for TLVRecord {
    type V = TLVRecordView;

    closed spec fn view(&self) -> TLVRecordView {
        TLVRecordView {
            record_type: self.record_type.0,
            length: self.length.0,
            value: match self.value {
                Some(v) => Some(v@),
                None => None,
            },
        }
    }
}

/// A stream of records, in the order they stood on the wire.
#[derive(Debug, PartialEq, Eq)]
pub struct TLVStream(Vec<TLVRecord>);

impl View for TLVStream {
    type V = Seq<TLVRecordView>;

    closed spec fn view(&self) -> Seq<TLVRecordView> {
        self.0@.map_values(|record: TLVRecord| record@)
    }
}

/// Decoding of an amount: up to eight big-endian bytes, none of them a
/// leading zero. No bytes are the amount zero.
pub open spec fn amount_decoding(raw: Seq<u8>) -> Result<u64, DecodeError> {
    if raw.len() > 8 {
        Err(DecodeError::InvalidData)
    } else if raw.len() > 0 && raw[0] == 0 {
        Err(DecodeError::InvalidData)
    } else {
        Ok(be_value(raw) as u64)
    }
}

/// Decoding of a short channel id: exactly eight bytes, kept as they are.
pub open spec fn short_channel_id_decoding(raw: Seq<u8>) -> Result<Seq<u8>, DecodeError> {
    if raw.len() < 8 {
        Err(DecodeError::ShortRead)
    } else if raw.len() > 8 {
        Err(DecodeError::InvalidData)
    } else {
        Ok(raw)
    }
}

/// Decoding of a point with two amounts: exactly 49 bytes, of which the
/// first 33 are a public key (`on_curve` says whether they are), the next
/// eight the first amount and the last eight the second.
pub open spec fn point_amount_decoding(raw: Seq<u8>, on_curve: bool) -> Result<
    PointAmountView,
    DecodeError,
> {
    if raw.len() < 49 {
        Err(DecodeError::ShortRead)
    } else if raw.len() > 49 {
        Err(DecodeError::InvalidData)
    } else if !on_curve {
        Err(DecodeError::InvalidData)
    } else {
        Ok(
            PointAmountView {
                point: raw.subrange(0, 33),
                amount_msat_1: be_value(raw.subrange(33, 41)) as u64,
                amount_msat_2: be_value(raw.subrange(41, 49)) as u64,
            },
        )
    }
}

/// Decoding of an expiry: exactly two big-endian bytes.
pub open spec fn cltv_expiry_decoding(raw: Seq<u8>) -> Result<u16, DecodeError> {
    if raw.len() < 2 {
        Err(DecodeError::ShortRead)
    } else if raw.len() > 2 {
        Err(DecodeError::InvalidData)
    } else {
        Ok(be_value(raw) as u16)
    }
}

/// Decoding of the value of a record of type `record_type` from its bytes.
/// A type without a decoder is refused if even and kept as bytes if odd.
pub open spec fn value_decoding(record_type: u64, raw: Seq<u8>) -> Result<ValueView, DecodeError> {
    if record_type == TYPE_AMOUNT {
        match amount_decoding(raw) {
            Ok(v) => Ok(ValueView::Amount(v)),
            Err(e) => Err(e),
        }
    } else if record_type == TYPE_SHORT_CHANNEL_ID {
        match short_channel_id_decoding(raw) {
            Ok(id) => Ok(ValueView::ShortChannelId(id)),
            Err(e) => Err(e),
        }
    } else if record_type == TYPE_POINT_AMOUNT {
        match point_amount_decoding(raw, is_public_key(raw.take(33))) {
            Ok(p) => Ok(ValueView::PointAmount(p)),
            Err(e) => Err(e),
        }
    } else if record_type == TYPE_CLTV_EXPIRY {
        match cltv_expiry_decoding(raw) {
            Ok(v) => Ok(ValueView::CLTVExpiry(v)),
            Err(e) => Err(e),
        }
    } else if record_type % 2 == 0 {
        Err(DecodeError::UnknownRequiredFeature)
    } else {
        Ok(ValueView::Unknown(raw))
    }
}

/// Decoding of one record from the front of `input`: the type, the length,
/// that many bytes, and the value that the type's decoder makes of them. An
/// error in the value comes after its bytes are taken. An input with nothing
/// in it is a `ShortRead` that takes nothing, which a fresh
/// `ReadTrackingReader` shows by `have_read` still being unset: so ends a
/// stream.
pub open spec fn record_decoding(input: Seq<u8>) -> Decoding<TLVRecordView> {
    let ty = bigsize_decoding(input);
    match ty.result {
        Err(e) => Decoding { result: Err(e), consumed: ty.consumed },
        Ok(record_type) => {
            let after_type = input.skip(ty.consumed as int);
            let len = bigsize_decoding(after_type);
            match len.result {
                Err(e) => Decoding { result: Err(e), consumed: ty.consumed + len.consumed },
                Ok(length) => {
                    let raw = bytes_decoding(after_type.skip(len.consumed as int), length as nat);
                    Decoding {
                        result: match raw.result {
                            Err(e) => Err(e),
                            Ok(bytes) => match value_decoding(record_type, bytes) {
                                Ok(v) => Ok(TLVRecordView { record_type, length, value: Some(v) }),
                                Err(e) => Err(e),
                            },
                        },
                        consumed: ty.consumed + len.consumed + raw.consumed,
                    }
                },
            }
        },
    }
}

/// A record takes nothing from an empty input, at least one byte from any
/// other, and never more than there is.
pub proof fn lemma_record_consumed(input: Seq<u8>)
    ensures
        record_decoding(input).consumed <= input.len(),
        input.len() > 0 ==> record_decoding(input).consumed > 0,
        input.len() == 0 ==> record_decoding(input) == (Decoding::<TLVRecordView> {
            result: Err(DecodeError::ShortRead),
            consumed: 0,
        }),
{
}

/// Decoding of the records that follow one of type `previous`, up to the
/// end of `input`. The end of the input where a record would begin ends the
/// stream; any error of a record is the error of the stream, and so is a
/// record whose type is not greater than that of the record before it.
pub open spec fn stream_decoding_after(input: Seq<u8>, previous: Option<u64>) -> Decoding<
    Seq<TLVRecordView>,
>
    decreases input.len(),
{
    if input.len() == 0 {
        Decoding { result: Ok(Seq::empty()), consumed: 0 }
    } else {
        let first = record_decoding(input);
        match first.result {
            Err(e) => Decoding { result: Err(e), consumed: first.consumed },
            Ok(record) => {
                if previous is Some && previous->0 >= record.record_type {
                    Decoding { result: Err(DecodeError::InvalidData), consumed: first.consumed }
                } else {
                    proof {
                        lemma_record_consumed(input);
                    }
                    let rest = stream_decoding_after(
                        input.skip(first.consumed as int),
                        Some(record.record_type),
                    );
                    Decoding {
                        result: match rest.result {
                            Ok(records) => Ok(seq![record] + records),
                            Err(e) => Err(e),
                        },
                        consumed: first.consumed + rest.consumed,
                    }
                }
            },
        }
    }
}

/// Decoding of a whole stream.
pub open spec fn stream_decoding(input: Seq<u8>) -> Decoding<Seq<TLVRecordView>> {
    stream_decoding_after(input, None)
}

/// The bytes of a value on the wire: an amount in the fewest bytes that
/// hold it, an expiry in two, the rest as they were read.
pub open spec fn value_wire(value: ValueView) -> Seq<u8> {
    match value {
        ValueView::Amount(v) => be_bytes(v as nat, byte_len(v as nat)),
        ValueView::ShortChannelId(id) => id,
        ValueView::PointAmount(p) => p.point + be_bytes(p.amount_msat_1 as nat, 8) + be_bytes(
            p.amount_msat_2 as nat,
            8,
        ),
        ValueView::CLTVExpiry(v) => be_bytes(v as nat, 2),
        ValueView::Unknown(raw) => raw,
    }
}

/// The bytes of a record on the wire: type, length, value.
pub open spec fn record_wire(record: TLVRecordView) -> Seq<u8> {
    bigsize_encoding(record.record_type) + bigsize_encoding(record.length) + match record.value {
        Some(v) => value_wire(v),
        None => Seq::empty(),
    }
}

/// Whether a record is one that was kept without being understood.
pub open spec fn is_ignored(record: TLVRecordView) -> bool {
    record.value matches Some(ValueView::Unknown(_))
}

/// The canonical bytes of a record: those on the wire, or none at all for a
/// record that was kept without being understood.
pub open spec fn record_canonical(record: TLVRecordView) -> Seq<u8> {
    if is_ignored(record) {
        Seq::empty()
    } else {
        record_wire(record)
    }
}

/// The bytes of a stream on the wire: those of its records, in order.
pub open spec fn stream_wire(records: Seq<TLVRecordView>) -> Seq<u8>
    decreases records.len(),
{
    if records.len() == 0 {
        Seq::empty()
    } else {
        stream_wire(records.drop_last()) + record_wire(records.last())
    }
}

/// The canonical bytes of a stream: those of its records, in order.
pub open spec fn stream_canonical(records: Seq<TLVRecordView>) -> Seq<u8>
    decreases records.len(),
{
    if records.len() == 0 {
        Seq::empty()
    } else {
        stream_canonical(records.drop_last()) + record_canonical(records.last())
    }
}

/// The records that the canonical rendering shows.
pub open spec fn shown() -> spec_fn(TLVRecordView) -> bool {
    |record: TLVRecordView| !is_ignored(record)
}

/// Whether the parts of a record agree: the value is of the kind that the
/// type calls for, the length is the number of bytes that the value has on
/// the wire, and a point is a public key. A record without a value has no
/// bytes after its length.
pub open spec fn record_well_formed(record: TLVRecordView) -> bool {
    match record.value {
        Some(ValueView::Amount(v)) => {
            &&& record.record_type == TYPE_AMOUNT
            &&& record.length == byte_len(v as nat)
        },
        Some(ValueView::ShortChannelId(id)) => {
            &&& record.record_type == TYPE_SHORT_CHANNEL_ID
            &&& record.length == 8
            &&& id.len() == 8
        },
        Some(ValueView::PointAmount(p)) => {
            &&& record.record_type == TYPE_POINT_AMOUNT
            &&& record.length == 49
            &&& p.point.len() == 33
            &&& is_public_key(p.point)
        },
        Some(ValueView::CLTVExpiry(_)) => {
            &&& record.record_type == TYPE_CLTV_EXPIRY
            &&& record.length == 2
        },
        Some(ValueView::Unknown(raw)) => {
            &&& record.record_type % 2 == 1
            &&& record.record_type != TYPE_AMOUNT
            &&& record.record_type != TYPE_POINT_AMOUNT
            &&& record.length == raw.len()
        },
        None => record.length == 0,
    }
}

/// Whether each record's type is greater than that of the one before it.
pub open spec fn strictly_increasing(records: Seq<TLVRecordView>) -> bool {
    forall|i: int, j: int|
        0 <= i < j < records.len() ==> records[i].record_type < records[j].record_type
}

/// Whether records can stand in a stream after a record of type `previous`:
/// each is well formed and has a value, and the types grow strictly, from
/// above `previous` if there is one.
pub open spec fn stream_well_formed(records: Seq<TLVRecordView>, previous: Option<u64>) -> bool {
    &&& strictly_increasing(records)
    &&& forall|i: int|
        0 <= i < records.len() ==> record_well_formed(#[trigger] records[i])
            && records[i].value is Some
    &&& previous is Some && records.len() > 0 ==> previous->0 < records[0].record_type
}

/// Copies `N` bytes into an array.
fn array_of<const N: usize>(bytes: &[u8]) -> (out: [u8; N])
    requires
        bytes@.len() == N,
    ensures
        out@ == bytes@,
{
    let mut out = [0u8; N];
    let mut i: usize = 0;
    while i < N
        invariant
            i <= N,
            bytes@.len() == N,
            out@.len() == N,
            forall|j: int| 0 <= j < i ==> out@[j] == bytes@[j],
        decreases N - i,
    {
        out[i] = bytes[i];
        i += 1;
    }
    assert(out@ =~= bytes@);
    out
}

/// Decodes an amount.
pub fn decode_amount(raw: &[u8]) -> (r: Result<u64, DecodeError>)
    ensures
        r == amount_decoding(raw@),
{
    if raw.len() > 8 {
        Err(DecodeError::InvalidData)
    } else if raw.len() > 0 && raw[0] == 0 {
        Err(DecodeError::InvalidData)
    } else {
        Ok(read_be(raw))
    }
}

/// Decodes a short channel id.
pub fn decode_short_channel_id(raw: &[u8]) -> (r: Result<[u8; 8], DecodeError>)
    ensures
        matches_model(r, short_channel_id_decoding(raw@)),
{
    if raw.len() < 8 {
        Err(DecodeError::ShortRead)
    } else if raw.len() > 8 {
        Err(DecodeError::InvalidData)
    } else {
        Ok(array_of::<8>(raw))
    }
}

/// Decodes an expiry.
pub fn decode_cltv_expiry(raw: &[u8]) -> (r: Result<u16, DecodeError>)
    ensures
        r == cltv_expiry_decoding(raw@),
{
    if raw.len() < 2 {
        Err(DecodeError::ShortRead)
    } else if raw.len() > 2 {
        Err(DecodeError::InvalidData)
    } else {
        proof {
            lemma_be_value_bound(raw@);
            lemma_pow256_values();
        }
        Ok(read_be(raw) as u16)
    }
}

impl PointAmount {
    /// Decodes a point with two amounts. The key is checked only where the
    /// length is right.
    pub fn new(stream: Vec<u8>) -> (r: Result<Self, DecodeError>)
        ensures
            matches_model(r, point_amount_decoding(stream@, is_public_key(stream@.take(33)))),
    {
        let on_curve = stream.len() == 49 && check_public_key(
            slice_subrange(stream.as_slice(), 0, 33),
        );
        Self::assemble(stream.as_slice(), on_curve)
    }

    /// Decodes a point with two amounts from bytes whose first 33 are known
    /// to be a public key or known not to be one.
    pub fn assemble(stream: &[u8], on_curve: bool) -> (r: Result<Self, DecodeError>)
        ensures
            matches_model(r, point_amount_decoding(stream@, on_curve)),
    {
        if stream.len() < 49 {
            Err(DecodeError::ShortRead)
        } else if stream.len() > 49 {
            Err(DecodeError::InvalidData)
        } else if !on_curve {
            Err(DecodeError::InvalidData)
        } else {
            let point = array_of::<33>(slice_subrange(stream, 0, 33));
            let amount_msat_1 = read_be(slice_subrange(stream, 33, 41));
            let amount_msat_2 = read_be(slice_subrange(stream, 41, 49));
            Ok(PointAmount { point, amount_msat_1, amount_msat_2 })
        }
    }
}

impl Value {
    /// Decodes the value of a record of type `record_type` from its bytes.
    pub fn decode(record_type: u64, raw: Vec<u8>) -> (r: Result<Self, DecodeError>)
        ensures
            matches_model(r, value_decoding(record_type, raw@)),
    {
        if record_type == TYPE_AMOUNT {
            match decode_amount(raw.as_slice()) {
                Ok(v) => Ok(Value::Amount(v)),
                Err(e) => Err(e),
            }
        } else if record_type == TYPE_SHORT_CHANNEL_ID {
            match decode_short_channel_id(raw.as_slice()) {
                Ok(id) => Ok(Value::ShortChannelId(id)),
                Err(e) => Err(e),
            }
        } else if record_type == TYPE_POINT_AMOUNT {
            match PointAmount::new(raw) {
                Ok(p) => Ok(Value::PointAmount(p)),
                Err(e) => Err(e),
            }
        } else if record_type == TYPE_CLTV_EXPIRY {
            match decode_cltv_expiry(raw.as_slice()) {
                Ok(v) => Ok(Value::CLTVExpiry(v)),
                Err(e) => Err(e),
            }
        } else if record_type % 2 == 0 {
            Err(DecodeError::UnknownRequiredFeature)
        } else {
            Ok(Value::Unknown(raw))
        }
    }

    /// Appends the bytes of the value to `writer`.
    pub fn write(&self, writer: &mut Vec<u8>)
        ensures
            final(writer)@ == old(writer)@ + value_wire(self@),
    {
        match self {
            Value::Amount(v) => {
                write_be(*v, min_width(*v), writer);
            },
            Value::ShortChannelId(id) => {
                append_bytes(writer, id.as_slice());
            },
            Value::PointAmount(p) => {
                append_bytes(writer, p.point.as_slice());
                write_be(p.amount_msat_1, 8, writer);
                write_be(p.amount_msat_2, 8, writer);
                assert(writer@ =~= old(writer)@ + value_wire(self@));
            },
            Value::CLTVExpiry(v) => {
                write_be(*v as u64, 2, writer);
            },
            Value::Unknown(raw) => {
                append_bytes(writer, raw.as_slice());
            },
        }
    }
}

/// Reads exactly `length` bytes of value, or takes what is left and fails.
fn read_value(reader: &mut ReadTrackingReader<'_>, length: u64) -> (r: Result<Vec<u8>, DecodeError>)
    ensures
        matches_model(r, bytes_decoding(old(reader)@, length as nat).result),
        final(reader).took(*old(reader), bytes_decoding(old(reader)@, length as nat).consumed),
{
    let available = reader.read.len();
    if length > available as u64 {
        reader.read(available);
        Err(DecodeError::ShortRead)
    } else {
        match reader.read_exact(length as usize) {
            Ok(bytes) => Ok(slice_to_vec(bytes)),
            Err(e) => Err(e),
        }
    }
}

impl TLVRecord {
    /// Every record is well formed: records are made by decoding only.
    #[verifier::type_invariant]
    spec fn well_formed(self) -> bool {
        record_well_formed(self@)
    }

    /// The type of the record.
    pub fn record_type(&self) -> (t: BigSize)
        ensures
            t.0 == self@.record_type,
    {
        self.record_type
    }

    /// The length of the value on the wire, in bytes.
    pub fn length(&self) -> (l: BigSize)
        ensures
            l.0 == self@.length,
    {
        self.length
    }

    /// The value. It is of the kind that the type calls for and has as many
    /// bytes on the wire as the length says.
    pub fn value(&self) -> (v: &Option<Value>)
        ensures
            match *v {
                Some(value) => self@.value == Some(value@),
                None => self@.value is None,
            },
            record_well_formed(self@),
    {
        proof {
            use_type_invariant(self);
        }
        &self.value
    }

    /// Appends the record as it stands on the wire to `writer`, whether or
    /// not its type is known, and returns the number of bytes.
    pub fn write_wire(&self, writer: &mut Vec<u8>) -> (n: usize)
        ensures
            final(writer)@ == old(writer)@ + record_wire(self@),
            n == record_wire(self@).len(),
    {
        let before = writer.len();
        self.record_type.write(writer);
        self.length.write(writer);
        assert(self.record_type.encoding() == bigsize_encoding(self.record_type.0));
        assert(self.length.encoding() == bigsize_encoding(self.length.0));
        match &self.value {
            Some(v) => {
                v.write(writer);
            },
            None => {},
        }
        assert(writer@ =~= old(writer)@ + record_wire(self@));
        writer.len() - before
    }

    /// The canonical rendering: the record in lowercase hexadecimal, or
    /// nothing for a record that was kept without being understood.
    pub fn to_string(&self) -> (text: String)
        ensures
            text@ == lower_hex(record_canonical(self@)),
    {
        let mut text = String::new();
        self.write_fmt(&mut text);
        assert(self.encoding() == record_canonical(self@));
        text
    }
}

impl Readable for TLVRecord {
    open spec fn decoding(input: Seq<u8>) -> Decoding<TLVRecordView> {
        record_decoding(input)
    }

    fn read(reader: &mut ReadTrackingReader<'_>) -> (r: Result<Self, DecodeError>)
        ensures
            r is Ok ==> record_well_formed(r->Ok_0@),
    {
        let ghost start = *reader;
        assert(Self::decoding(start@) == record_decoding(start@));
        let ghost ty = bigsize_decoding(start@);
        assert(<BigSize as Readable>::decoding(start@) == ty);
        let record_type: BigSize = Readable::read(reader)?;

        let ghost after_type = *reader;
        let ghost len = bigsize_decoding(after_type@);
        assert(<BigSize as Readable>::decoding(after_type@) == len);
        let length: Result<BigSize, DecodeError> = Readable::read(reader);
        proof {
            reader.lemma_took_twice(start, ty.consumed, after_type, len.consumed);
        }
        let length = length?;

        let ghost after_length = *reader;
        let ghost raw = bytes_decoding(after_length@, length.0 as nat);
        let v = read_value(reader, length.0);
        proof {
            reader.lemma_took_twice(start, ty.consumed + len.consumed, after_length, raw.consumed);
        }
        let v = v?;

        let value = Value::decode(record_type.0, v)?;
        proof {
            lemma_record_round_trip(start@);
        }
        Ok(TLVRecord { record_type, length, value: Some(value) })
    }
}

impl Writeable for TLVRecord {
    open spec fn encoding(&self) -> Seq<u8> {
        record_canonical(self@)
    }

    fn write(&self, writer: &mut Vec<u8>) -> (n: usize) {
        assert(self.encoding() == record_canonical(self@));
        match &self.value {
            Some(Value::Unknown(_)) => {
                assert(writer@ =~= old(writer)@ + Seq::<u8>::empty());
                0
            },
            _ => self.write_wire(writer),
        }
    }
}

impl TLVStream {
    /// Every stream is in order: streams are made by decoding only.
    #[verifier::type_invariant]
    spec fn well_formed(self) -> bool {
        stream_well_formed(self@, None)
    }

    /// The number of records, those of unknown type included. The records
    /// are well formed and their types grow strictly from each to the next.
    pub fn len(&self) -> (n: usize)
        ensures
            n == self@.len(),
            stream_well_formed(self@, None),
    {
        proof {
            use_type_invariant(self);
        }
        self.0.len()
    }

    /// Whether the stream has no records.
    pub fn is_empty(&self) -> (empty: bool)
        ensures
            empty == (self@.len() == 0),
    {
        self.0.len() == 0
    }

    /// The record at position `index`.
    pub fn get(&self, index: usize) -> (record: Option<&TLVRecord>)
        ensures
            match record {
                Some(r) => index < self@.len() && r@ == self@[index as int] && record_well_formed(
                    r@,
                ),
                None => index >= self@.len(),
            },
    {
        proof {
            use_type_invariant(self);
        }
        if index < self.0.len() {
            Some(&self.0[index])
        } else {
            None
        }
    }

    /// Appends every record as it stands on the wire to `writer`, and
    /// returns the number of bytes.
    pub fn write_wire(&self, writer: &mut Vec<u8>) -> (n: usize)
        ensures
            final(writer)@ == old(writer)@ + stream_wire(self@),
            n == stream_wire(self@).len(),
    {
        let before = writer.len();
        let mut i: usize = 0;
        assert(self@.take(0) =~= Seq::<TLVRecordView>::empty());
        while i < self.0.len()
            invariant
                i <= self.0@.len(),
                self@.len() == self.0@.len(),
                before == old(writer)@.len(),
                writer@ == old(writer)@ + stream_wire(self@.take(i as int)),
            decreases self.0@.len() - i,
        {
            self.0[i].write_wire(writer);
            proof {
                let next = self@.take(i + 1);
                assert(next.drop_last() =~= self@.take(i as int));
                assert(next.last() == self.0@[i as int]@);
            }
            i += 1;
        }
        assert(self@.take(i as int) =~= self@);
        writer.len() - before
    }

    /// The canonical rendering: the records in lowercase hexadecimal, those
    /// that were kept without being understood left out.
    pub fn to_string(&self) -> (text: String)
        ensures
            text@ == lower_hex(stream_canonical(self@)),
    {
        let mut text = String::new();
        self.write_fmt(&mut text);
        assert(self.encoding() == stream_canonical(self@));
        text
    }
}

impl Readable for TLVStream {
    open spec fn decoding(input: Seq<u8>) -> Decoding<Seq<TLVRecordView>> {
        stream_decoding(input)
    }

    fn read(reader: &mut ReadTrackingReader<'_>) -> (r: Result<Self, DecodeError>)
        ensures
            r is Ok ==> stream_well_formed(r->Ok_0@, None),
    {
        let ghost start = *reader;
        let ghost whole = stream_decoding(start@);
        assert(Self::decoding(start@) == whole);
        let mut records: Vec<TLVRecord> = Vec::new();
        let mut previous: Option<u64> = None;
        let ghost mut taken: nat = 0;
        assert(start@.skip(0) =~= start@);
        loop
            invariant
                start == *old(reader),
                reader.took(start, taken),
                whole == stream_decoding(start@),
                whole == Self::decoding(start@),
                ({
                    let rest = stream_decoding_after(reader@, previous);
                    &&& whole.consumed == taken + rest.consumed
                    &&& whole.result == match rest.result {
                        Ok(more) => Ok::<Seq<TLVRecordView>, DecodeError>(
                            records@.map_values(|record: TLVRecord| record@) + more,
                        ),
                        Err(e) => Err(e),
                    }
                }),
            ensures
                reader.took(start, taken),
                whole.consumed == taken,
                whole.result == Ok::<Seq<TLVRecordView>, DecodeError>(
                    records@.map_values(|record: TLVRecord| record@),
                ),
            decreases reader@.len(),
        {
            let ghost before = *reader;
            let ghost first = record_decoding(before@);
            proof {
                lemma_record_consumed(before@);
            }
            // Each attempt has a tracker of its own, so that a source that
            // ends where a record would begin is told from one that ends
            // inside a record.
            let mut tracking_reader = ReadTrackingReader::new(reader.read);
            let ghost fresh = tracking_reader;
            assert(<TLVRecord as Readable>::decoding(fresh@) == first);
            let attempt: Result<TLVRecord, DecodeError> = Readable::read(&mut tracking_reader);
            reader.read = tracking_reader.read;
            if tracking_reader.have_read {
                reader.have_read = true;
            }
            proof {
                assert(reader.took(before, first.consumed));
                reader.lemma_took_twice(start, taken, before, first.consumed);
                taken = taken + first.consumed;
            }
            let record = match attempt {
                Ok(record) => record,
                Err(DecodeError::ShortRead) => {
                    if !tracking_reader.have_read {
                        assert(before@.len() == 0);
                        assert(records@.map_values(|record: TLVRecord| record@) + Seq::<
                            TLVRecordView,
                        >::empty() =~= records@.map_values(|record: TLVRecord| record@));
                        break ;
                    } else {
                        return Err(DecodeError::ShortRead);
                    }
                },
                Err(e) => {
                    return Err(e);
                },
            };
            // Types must grow from record to record, whether or not a record
            // is kept.
            let record_type = record.record_type.0;
            match previous {
                Some(p) if p >= record_type => {
                    return Err(DecodeError::InvalidData);
                },
                _ => {},
            }
            proof {
                let seen = records@.map_values(|record: TLVRecord| record@);
                let rest = stream_decoding_after(reader@, Some(record_type));
                assert(records@.push(record).map_values(|record: TLVRecord| record@) =~= seen.push(
                    record@,
                ));
                if rest.result is Ok {
                    assert(seen + (seq![record@] + rest.result->Ok_0) =~= seen.push(record@)
                        + rest.result->Ok_0);
                }
            }
            previous = Some(record_type);
            records.push(record);
        }
        proof {
            lemma_stream_types_increase(start@, None);
        }
        Ok(TLVStream(records))
    }
}

impl Writeable for TLVStream {
    open spec fn encoding(&self) -> Seq<u8> {
        stream_canonical(self@)
    }

    fn write(&self, writer: &mut Vec<u8>) -> (n: usize) {
        assert(self.encoding() == stream_canonical(self@));
        let before = writer.len();
        let mut i: usize = 0;
        assert(self@.take(0) =~= Seq::<TLVRecordView>::empty());
        while i < self.0.len()
            invariant
                i <= self.0@.len(),
                self@.len() == self.0@.len(),
                before == old(writer)@.len(),
                writer@ == old(writer)@ + stream_canonical(self@.take(i as int)),
            decreases self.0@.len() - i,
        {
            let record = &self.0[i];
            record.write(writer);
            assert(record.encoding() == record_canonical(record@));
            proof {
                let next = self@.take(i + 1);
                assert(next.drop_last() =~= self@.take(i as int));
                assert(next.last() == self.0@[i as int]@);
            }
            i += 1;
        }
        assert(self@.take(i as int) =~= self@);
        writer.len() - before
    }
}

/// Minimality of amounts: between one and eight bytes are accepted exactly
/// when the number they spell needs all of them, that is, when it does not
/// fit in one byte fewer.
pub proof fn lemma_amount_minimal(raw: Seq<u8>)
    requires
        1 <= raw.len() <= 8,
    ensures
        amount_decoding(raw) is Ok <==> be_value(raw) >= pow256((raw.len() - 1) as nat),
        amount_decoding(raw) is Err ==> amount_decoding(raw) == Err::<u64, DecodeError>(
            DecodeError::InvalidData,
        ),
{
    lemma_be_value_leading(raw);
    let p = pow256((raw.len() - 1) as nat);
    let b = raw[0] as nat;
    lemma_pow256_monotonic(0, (raw.len() - 1) as nat);
    if b == 0 {
        assert((b + 1) * p == p) by (nonlinear_arith)
            requires
                b == 0,
        ;
    } else {
        assert(p <= b * p) by (nonlinear_arith)
            requires
                b >= 1,
                p > 0,
        ;
    }
}

/// A type without a decoder decides by its parity alone: even, the record is
/// refused whatever its bytes; odd, the bytes are kept whatever they are and
/// the record has no canonical bytes.
pub proof fn lemma_unknown_type_parity(record_type: u64, length: u64, raw: Seq<u8>)
    requires
        record_type != TYPE_AMOUNT,
        record_type != TYPE_SHORT_CHANNEL_ID,
        record_type != TYPE_POINT_AMOUNT,
        record_type != TYPE_CLTV_EXPIRY,
    ensures
        record_type % 2 == 0 ==> value_decoding(record_type, raw) == Err::<ValueView, DecodeError>(
            DecodeError::UnknownRequiredFeature,
        ),
        record_type % 2 == 1 ==> value_decoding(record_type, raw) == Ok::<ValueView, DecodeError>(
            ValueView::Unknown(raw),
        ),
        record_type % 2 == 1 ==> record_canonical(
            TLVRecordView { record_type, length, value: Some(ValueView::Unknown(raw)) },
        ) == Seq::<u8>::empty(),
{
}

/// Round trip of values: the bytes of a decoded value are the bytes it was
/// decoded from. In particular an amount has one accepted spelling.
pub proof fn lemma_value_round_trip(record_type: u64, raw: Seq<u8>)
    requires
        value_decoding(record_type, raw) is Ok,
    ensures
        value_wire(value_decoding(record_type, raw)->Ok_0) == raw,
{
    lemma_pow256_values();
    if record_type == TYPE_AMOUNT {
        lemma_be_value_bound(raw);
        lemma_pow256_monotonic(raw.len(), 8);
        lemma_byte_len_of_be_value(raw);
        lemma_be_bytes_of_be_value(raw);
    } else if record_type == TYPE_SHORT_CHANNEL_ID {
    } else if record_type == TYPE_POINT_AMOUNT {
        let first = raw.subrange(33, 41);
        let second = raw.subrange(41, 49);
        lemma_be_value_bound(first);
        lemma_be_value_bound(second);
        lemma_be_bytes_of_be_value(first);
        lemma_be_bytes_of_be_value(second);
        assert(raw.subrange(0, 33) + first + second =~= raw);
    } else if record_type == TYPE_CLTV_EXPIRY {
        lemma_be_value_bound(raw);
        lemma_be_bytes_of_be_value(raw);
    }
}

/// The other way round for values: the bytes of a value that stands well
/// formed in a record decode, under the type of the record, to that value,
/// and are as many as the length of the record says.
pub proof fn lemma_value_decodes_its_wire(record: TLVRecordView)
    requires
        record_well_formed(record),
        record.value is Some,
    ensures
        value_decoding(record.record_type, value_wire(record.value->0)) == Ok::<
            ValueView,
            DecodeError,
        >(record.value->0),
        value_wire(record.value->0).len() == record.length,
{
    let raw = value_wire(record.value->0);
    lemma_pow256_values();
    match record.value->0 {
        ValueView::Amount(v) => {
            let n = byte_len(v as nat);
            lemma_byte_len_bounds(v as nat);
            lemma_be_bytes_len(v as nat, n);
            lemma_be_value_of_be_bytes(v as nat, n);
            if n > 8 {
                lemma_pow256_monotonic(8, (n - 1) as nat);
            }
            if n > 0 {
                lemma_be_value_leading(raw);
                let p = pow256((n - 1) as nat);
                assert(raw[0] != 0) by {
                    if raw[0] == 0 {
                        assert((raw[0] as nat + 1) * p == p) by (nonlinear_arith)
                            requires
                                raw[0] == 0,
                        ;
                    }
                }
            }
        },
        ValueView::ShortChannelId(id) => {},
        ValueView::PointAmount(p) => {
            let first = be_bytes(p.amount_msat_1 as nat, 8);
            let second = be_bytes(p.amount_msat_2 as nat, 8);
            lemma_be_bytes_len(p.amount_msat_1 as nat, 8);
            lemma_be_bytes_len(p.amount_msat_2 as nat, 8);
            lemma_be_value_of_be_bytes(p.amount_msat_1 as nat, 8);
            lemma_be_value_of_be_bytes(p.amount_msat_2 as nat, 8);
            assert(raw.take(33) =~= p.point);
            assert(raw.subrange(0, 33) =~= p.point);
            assert(raw.subrange(33, 41) =~= first);
            assert(raw.subrange(41, 49) =~= second);
        },
        ValueView::CLTVExpiry(v) => {
            lemma_be_bytes_len(v as nat, 2);
            lemma_be_value_of_be_bytes(v as nat, 2);
        },
        ValueView::Unknown(bytes) => {},
    }
}

/// Round trip of records: a decoded record is well formed, and its bytes on
/// the wire are the bytes that the decoding took.
pub proof fn lemma_record_round_trip(input: Seq<u8>)
    requires
        record_decoding(input).result is Ok,
    ensures
        record_well_formed(record_decoding(input).result->Ok_0),
        record_wire(record_decoding(input).result->Ok_0) == input.take(
            record_decoding(input).consumed as int,
        ),
{
    let record = record_decoding(input).result->Ok_0;
    let ty = bigsize_decoding(input);
    let after_type = input.skip(ty.consumed as int);
    let len = bigsize_decoding(after_type);
    let raw = after_type.skip(len.consumed as int).take(record.length as int);
    lemma_bigsize_canonical(input, record.record_type);
    lemma_bigsize_canonical(after_type, record.length);
    lemma_value_round_trip(record.record_type, raw);
    lemma_pow256_values();
    if record.record_type == TYPE_AMOUNT {
        lemma_be_value_bound(raw);
        lemma_pow256_monotonic(raw.len(), 8);
        lemma_byte_len_of_be_value(raw);
    }
    assert(input.take(record_decoding(input).consumed as int) =~= input.take(ty.consumed as int)
        + after_type.take(len.consumed as int) + raw);
}

/// The other way round for records: the bytes on the wire of a well-formed
/// record with a value, whatever follows them, decode to that record and
/// are all that the decoding takes.
pub proof fn lemma_record_decodes_its_wire(record: TLVRecordView, rest: Seq<u8>)
    requires
        record_well_formed(record),
        record.value is Some,
    ensures
        record_decoding(record_wire(record) + rest) == (Decoding::<TLVRecordView> {
            result: Ok(record),
            consumed: record_wire(record).len(),
        }),
{
    let ty = bigsize_encoding(record.record_type);
    let len = bigsize_encoding(record.length);
    let raw = value_wire(record.value->0);
    let input = record_wire(record) + rest;
    lemma_value_decodes_its_wire(record);
    lemma_bigsize_round_trip(record.record_type, len + raw + rest);
    assert(input =~= ty + (len + raw + rest));
    let after_type = input.skip(ty.len() as int);
    assert(after_type =~= len + (raw + rest));
    lemma_bigsize_round_trip(record.length, raw + rest);
    let after_length = after_type.skip(len.len() as int);
    assert(after_length =~= raw + rest);
    assert(after_length.take(record.length as int) =~= raw);
    assert(record_wire(record).len() == ty.len() + len.len() + raw.len());
}

/// What a record decoding makes of its input does not depend on what
/// follows the record.
pub proof fn lemma_record_decoding_extends(input: Seq<u8>, more: Seq<u8>)
    requires
        record_decoding(input).result is Ok,
    ensures
        record_decoding(input + more) == record_decoding(input),
{
    let longer = input + more;
    let ty = bigsize_decoding(input);
    lemma_bigsize_decoding_extends(input, more);
    let after_type = input.skip(ty.consumed as int);
    assert(longer.skip(ty.consumed as int) =~= after_type + more);
    let len = bigsize_decoding(after_type);
    lemma_bigsize_decoding_extends(after_type, more);
    let after_length = after_type.skip(len.consumed as int);
    assert((after_type + more).skip(len.consumed as int) =~= after_length + more);
    let length = len.result->Ok_0;
    assert((after_length + more).take(length as int) =~= after_length.take(length as int));
}

/// The end of a stream: an input that ends where a record would begin is a
/// stream without further records, and an input that ends inside a record
/// is a `ShortRead`.
pub proof fn lemma_stream_end(input: Seq<u8>, previous: Option<u64>)
    ensures
        input.len() == 0 ==> stream_decoding_after(input, previous) == (Decoding::<
            Seq<TLVRecordView>,
        > { result: Ok(Seq::empty()), consumed: 0 }),
        input.len() > 0 && record_decoding(input).result == Err::<TLVRecordView, DecodeError>(
            DecodeError::ShortRead,
        ) ==> stream_decoding_after(input, previous).result == Err::<
            Seq<TLVRecordView>,
            DecodeError,
        >(DecodeError::ShortRead),
{
}

/// A stream that decodes takes all of its input.
pub proof fn lemma_stream_consumes_all(input: Seq<u8>, previous: Option<u64>)
    requires
        stream_decoding_after(input, previous).result is Ok,
    ensures
        stream_decoding_after(input, previous).consumed == input.len(),
    decreases input.len(),
{
    if input.len() > 0 {
        let first = record_decoding(input);
        lemma_record_consumed(input);
        lemma_stream_consumes_all(
            input.skip(first.consumed as int),
            Some(first.result->Ok_0.record_type),
        );
    }
}

/// The order of types: in a decoded stream every record is well formed,
/// has a value and has a greater type than the record before it, and all
/// have a greater type than `previous`, if there is one.
pub proof fn lemma_stream_types_increase(input: Seq<u8>, previous: Option<u64>)
    requires
        stream_decoding_after(input, previous).result is Ok,
    ensures
        stream_well_formed(stream_decoding_after(input, previous).result->Ok_0, previous),
        previous is Some ==> forall|i: int|
            0 <= i < stream_decoding_after(input, previous).result->Ok_0.len() ==> previous->0
                < (#[trigger] stream_decoding_after(input, previous).result->Ok_0[i]).record_type,
    decreases input.len(),
{
    if input.len() > 0 {
        let first = record_decoding(input);
        let record = first.result->Ok_0;
        lemma_record_consumed(input);
        lemma_record_round_trip(input);
        let rest_input = input.skip(first.consumed as int);
        lemma_stream_types_increase(rest_input, Some(record.record_type));
        let rest = stream_decoding_after(rest_input, Some(record.record_type)).result->Ok_0;
        let records = stream_decoding_after(input, previous).result->Ok_0;
        assert(records == seq![record] + rest);
        assert forall|i: int, j: int| 0 <= i < j < records.len() implies records[i].record_type
            < records[j].record_type by {
            assert(records[j] == rest[j - 1]);
            if i > 0 {
                assert(records[i] == rest[i - 1]);
            }
        }
        assert forall|i: int| 0 <= i < records.len() implies record_well_formed(
            #[trigger] records[i],
        ) && records[i].value is Some by {
            if i > 0 {
                assert(records[i] == rest[i - 1]);
            }
        }
        if previous is Some {
            assert forall|i: int| 0 <= i < records.len() implies previous->0 < (
            #[trigger] records[i]).record_type by {
                if i > 0 {
                    assert(records[i] == rest[i - 1]);
                }
            }
        }
    }
}

/// The bytes of a stream that begins with `record` begin with the bytes of
/// `record`.
pub proof fn lemma_stream_wire_prepend(record: TLVRecordView, records: Seq<TLVRecordView>)
    ensures
        stream_wire(seq![record] + records) == record_wire(record) + stream_wire(records),
    decreases records.len(),
{
    let all = seq![record] + records;
    if records.len() == 0 {
        assert(all.drop_last() =~= records);
        assert(all.last() == record);
        assert(stream_wire(records) =~= Seq::<u8>::empty());
        assert(stream_wire(all) =~= record_wire(record) + stream_wire(records));
    } else {
        lemma_stream_wire_prepend(record, records.drop_last());
        assert(all.drop_last() =~= seq![record] + records.drop_last());
        assert(all.last() == records.last());
        assert(stream_wire(all) =~= record_wire(record) + stream_wire(records));
    }
}

/// Round trip of streams: the bytes on the wire of a decoded stream, every
/// record included, are the input.
pub proof fn lemma_stream_round_trip(input: Seq<u8>, previous: Option<u64>)
    requires
        stream_decoding_after(input, previous).result is Ok,
    ensures
        stream_wire(stream_decoding_after(input, previous).result->Ok_0) == input,
    decreases input.len(),
{
    if input.len() > 0 {
        let first = record_decoding(input);
        let record = first.result->Ok_0;
        lemma_record_consumed(input);
        lemma_record_round_trip(input);
        let rest_input = input.skip(first.consumed as int);
        lemma_stream_round_trip(rest_input, Some(record.record_type));
        let rest = stream_decoding_after(rest_input, Some(record.record_type)).result->Ok_0;
        lemma_stream_wire_prepend(record, rest);
        assert(input.take(first.consumed as int) + rest_input =~= input);
    }
}

/// What is left of well-formed records after the first can stand after the
/// first.
proof fn lemma_rest_well_formed(records: Seq<TLVRecordView>, previous: Option<u64>)
    requires
        stream_well_formed(records, previous),
        records.len() > 0,
    ensures
        stream_well_formed(records.drop_first(), Some(records[0].record_type)),
{
    let others = records.drop_first();
    assert forall|i: int, j: int| 0 <= i < j < others.len() implies others[i].record_type
        < others[j].record_type by {
        assert(others[i] == records[i + 1]);
        assert(others[j] == records[j + 1]);
    }
    assert forall|i: int| 0 <= i < others.len() implies record_well_formed(#[trigger] others[i])
        && others[i].value is Some by {
        assert(others[i] == records[i + 1]);
    }
    if others.len() > 0 {
        assert(others[0] == records[1]);
    }
}

/// The other way round for streams: the bytes on the wire of well-formed
/// records with values and strictly growing types decode to those records.
/// With `lemma_stream_round_trip` this says what decodes and to what: an
/// input decodes to given records exactly if they are such records and the
/// input is their bytes.
pub proof fn lemma_stream_decodes_its_wire(records: Seq<TLVRecordView>, previous: Option<u64>)
    requires
        stream_well_formed(records, previous),
    ensures
        stream_decoding_after(stream_wire(records), previous) == (Decoding::<
            Seq<TLVRecordView>,
        > { result: Ok(records), consumed: stream_wire(records).len() }),
    decreases records.len(),
{
    let input = stream_wire(records);
    if records.len() == 0 {
        assert(input =~= Seq::<u8>::empty());
        assert(records =~= Seq::<TLVRecordView>::empty());
    } else {
        let first = records[0];
        let others = records.drop_first();
        let tail = stream_wire(others);
        assert(records =~= seq![first] + others);
        lemma_stream_wire_prepend(first, others);
        assert(input == record_wire(first) + tail);
        lemma_record_decodes_its_wire(first, tail);
        lemma_record_consumed(input);
        let taken = record_wire(first).len();
        assert(record_decoding(input).consumed == taken);
        assert(input.skip(taken as int) =~= tail);
        lemma_rest_well_formed(records, previous);
        lemma_stream_decodes_its_wire(others, Some(first.record_type));
        assert(input.len() == taken + tail.len());
    }
}

/// What decodes, and to what: an input decodes as a stream to given records
/// exactly if the records can stand in a stream and the input is their bytes
/// on the wire.
pub proof fn lemma_stream_decoding_exact(input: Seq<u8>, records: Seq<TLVRecordView>)
    ensures
        stream_decoding(input).result == Ok::<Seq<TLVRecordView>, DecodeError>(records) <==> (
        stream_well_formed(records, None) && stream_wire(records) == input),
{
    if stream_decoding(input).result == Ok::<Seq<TLVRecordView>, DecodeError>(records) {
        lemma_stream_types_increase(input, None);
        lemma_stream_round_trip(input, None);
    }
    if stream_well_formed(records, None) && stream_wire(records) == input {
        lemma_stream_decodes_its_wire(records, None);
    }
}

/// What `previous` does to a decoding: it refuses a first record whose type
/// is not greater, and changes nothing else.
pub proof fn lemma_stream_after(input: Seq<u8>, previous: u64)
    ensures
        stream_decoding_after(input, Some(previous)) == if input.len() > 0 && record_decoding(
            input,
        ).result is Ok && previous >= record_decoding(input).result->Ok_0.record_type {
            Decoding::<Seq<TLVRecordView>> {
                result: Err(DecodeError::InvalidData),
                consumed: record_decoding(input).consumed,
            }
        } else {
            stream_decoding(input)
        },
{
}

/// Decoding two inputs joined, where the first decodes as a stream, is
/// decoding the second after the last record of the first.
pub proof fn lemma_stream_concat(first: Seq<u8>, second: Seq<u8>, previous: Option<u64>)
    requires
        stream_decoding_after(first, previous).result is Ok,
    ensures
        ({
            let head = stream_decoding_after(first, previous).result->Ok_0;
            let last = if head.len() > 0 {
                Some(head.last().record_type)
            } else {
                previous
            };
            let tail = stream_decoding_after(second, last);
            stream_decoding_after(first + second, previous) == (Decoding::<Seq<TLVRecordView>> {
                result: match tail.result {
                    Ok(records) => Ok(head + records),
                    Err(e) => Err(e),
                },
                consumed: first.len() + tail.consumed,
            })
        }),
    decreases first.len(),
{
    let head = stream_decoding_after(first, previous).result->Ok_0;
    if first.len() == 0 {
        assert(first + second =~= second);
        let tail = stream_decoding_after(second, previous);
        if tail.result is Ok {
            assert(head + tail.result->Ok_0 =~= tail.result->Ok_0);
        }
    } else {
        let one = record_decoding(first);
        let record = one.result->Ok_0;
        lemma_record_consumed(first);
        lemma_record_decoding_extends(first, second);
        let rest_input = first.skip(one.consumed as int);
        assert((first + second).skip(one.consumed as int) =~= rest_input + second);
        lemma_stream_concat(rest_input, second, Some(record.record_type));
        let rest = stream_decoding_after(rest_input, Some(record.record_type)).result->Ok_0;
        assert(head == seq![record] + rest);
        let last = Some(head.last().record_type);
        if rest.len() > 0 {
            assert(head.last() == rest.last());
        }
        let tail = stream_decoding_after(second, last);
        if tail.result is Ok {
            assert(seq![record] + (rest + tail.result->Ok_0) =~= head + tail.result->Ok_0);
        }
    }
}

/// Appending: where `first` and `second` each decode as a stream, the two
/// joined decode to the records of both if the first record of `second` has
/// a greater type than the last of `first` (or either has no records), and
/// fail with `InvalidData` if it has not. Where `first` decodes and `second`
/// does not, the two joined do not.
pub proof fn lemma_stream_append(first: Seq<u8>, second: Seq<u8>)
    requires
        stream_decoding(first).result is Ok,
    ensures
        ({
            let head = stream_decoding(first).result->Ok_0;
            let tail = stream_decoding(second).result;
            let joined = stream_decoding(first + second).result;
            &&& tail is Err ==> joined is Err
            &&& tail is Ok ==> {
                let ascending = head.len() == 0 || tail->Ok_0.len() == 0
                    || head.last().record_type < tail->Ok_0[0].record_type;
                &&& ascending ==> joined == Ok::<Seq<TLVRecordView>, DecodeError>(
                    head + tail->Ok_0,
                )
                &&& !ascending ==> joined == Err::<Seq<TLVRecordView>, DecodeError>(
                    DecodeError::InvalidData,
                )
            }
        }),
{
    let head = stream_decoding(first).result->Ok_0;
    lemma_stream_concat(first, second, None);
    if head.len() > 0 {
        lemma_stream_after(second, head.last().record_type);
    }
}

/// The canonical bytes of a stream are the bytes on the wire of the records
/// that are shown: leaving a record out leaves no trace.
pub proof fn lemma_canonical_leaves_ignored_out(records: Seq<TLVRecordView>)
    ensures
        stream_canonical(records) == stream_wire(records.filter(shown())),
    decreases records.len(),
{
    reveal(Seq::filter);
    if records.len() > 0 {
        let head = records.drop_last();
        let last = records.last();
        lemma_canonical_leaves_ignored_out(head);
        if !is_ignored(last) {
            let kept = head.filter(shown());
            assert(records.filter(shown()) == kept.push(last));
            assert(kept.push(last).drop_last() =~= kept);
        } else {
            assert(records.filter(shown()) == head.filter(shown()));
            assert(stream_canonical(records) =~= stream_canonical(head));
        }
    } else {
        assert(records.filter(shown()) =~= records);
    }
}

/// The rendering of a stream is the renderings of its records one after
/// another: with one more record, it is the text so far and then the text of
/// that record.
pub proof fn lemma_rendering_record_by_record(records: Seq<TLVRecordView>, record: TLVRecordView)
    ensures
        lower_hex(stream_canonical(records.push(record))) == lower_hex(stream_canonical(records))
            + lower_hex(record_canonical(record)),
{
    assert(records.push(record).drop_last() =~= records);
    lemma_lower_hex_concat(stream_canonical(records), record_canonical(record));
}

} // verus!
