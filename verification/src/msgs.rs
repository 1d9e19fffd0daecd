//! Messages of the peer protocol. `Init` is decoded and rendered here; the
//! others are declared with their fields in wire order.

use crate::endian::{append_bytes, be_bytes, lemma_be_value_bound, lemma_pow256_values};
use crate::hex::lower_hex;
use crate::ser::{
    bytes_decoding, lemma_bytes_canonical, lemma_uint_canonical, uint_decoding, DecodeError,
    Decoding, FixedLengthReadable, ReadTrackingReader, Readable, Writeable,
};
use crate::tlv::{
    lemma_stream_consumes_all, lemma_stream_round_trip, stream_decoding, stream_wire,
    TLVRecordView, TLVStream,
};
use bitcoin::{Script, Txid};
use secp256k1::ecdsa::Signature;
use secp256k1::PublicKey;
use vstd::prelude::*;

verus! {

/// `bitcoin::Txid`: the hash that names a transaction. Opaque here; it is
/// carried, never looked into.
#[verifier::external_type_specification]
#[verifier::external_body]
pub struct ExTxid(bitcoin::Txid);

/// `bitcoin::Script`: the bytes of a script. Opaque here; it is carried,
/// never looked into.
#[verifier::external_type_specification]
#[verifier::external_body]
pub struct ExScript(bitcoin::Script);

/// Once authentication is complete, the first message reveals the features
/// supported or required by this node, even if this is a reconnection.
#[derive(Debug)]
pub struct Init {
    typ: u16,
    /// Global features length
    gflen: u16,
    global_features: Vec<u8>,
    /// Features length
    flen: u16,
    features: Vec<u8>,
    init_tlvs: TLVStream,
}

/// An `Init` as plain values.
pub struct InitView {
    pub typ: u16,
    pub gflen: u16,
    pub global_features: Seq<u8>,
    pub flen: u16,
    pub features: Seq<u8>,
    pub init_tlvs: Seq<TLVRecordView>,
}

impl View for Init {
    type V = InitView;

    closed spec fn view(&self) -> InitView {
        InitView {
            typ: self.typ,
            gflen: self.gflen,
            global_features: self.global_features@,
            flen: self.flen,
            features: self.features@,
            init_tlvs: self.init_tlvs@,
        }
    }
}

/// A decoding that failed with `e` after `consumed` bytes.
pub open spec fn failed<T>(e: DecodeError, consumed: nat) -> Decoding<T> {
    Decoding { result: Err(e), consumed }
}

/// Decoding of an `Init`: the message type, the length of the global
/// features and that many bytes, the length of the features and that many
/// bytes, each length in two bytes, and a stream of records up to the end
/// of the input. The first field that fails gives the error.
pub open spec fn init_decoding(input: Seq<u8>) -> Decoding<InitView> {
    let typ = uint_decoding(input, 2);
    let at_gflen = input.skip(typ.consumed as int);
    let gflen = uint_decoding(at_gflen, 2);
    let at_global = at_gflen.skip(gflen.consumed as int);
    let global = bytes_decoding(at_global, gflen.result->Ok_0);
    let at_flen = at_global.skip(global.consumed as int);
    let flen = uint_decoding(at_flen, 2);
    let at_features = at_flen.skip(flen.consumed as int);
    let features = bytes_decoding(at_features, flen.result->Ok_0);
    let at_tlvs = at_features.skip(features.consumed as int);
    let tlvs = stream_decoding(at_tlvs);
    if typ.result is Err {
        failed(typ.result->Err_0, typ.consumed)
    } else if gflen.result is Err {
        failed(gflen.result->Err_0, typ.consumed + gflen.consumed)
    } else if global.result is Err {
        failed(global.result->Err_0, typ.consumed + gflen.consumed + global.consumed)
    } else if flen.result is Err {
        failed(flen.result->Err_0, typ.consumed + gflen.consumed + global.consumed + flen.consumed)
    } else if features.result is Err {
        failed(
            features.result->Err_0,
            typ.consumed + gflen.consumed + global.consumed + flen.consumed + features.consumed,
        )
    } else if tlvs.result is Err {
        failed(
            tlvs.result->Err_0,
            typ.consumed + gflen.consumed + global.consumed + flen.consumed + features.consumed
                + tlvs.consumed,
        )
    } else {
        Decoding {
            result: Ok(
                InitView {
                    typ: typ.result->Ok_0 as u16,
                    gflen: gflen.result->Ok_0 as u16,
                    global_features: global.result->Ok_0,
                    flen: flen.result->Ok_0 as u16,
                    features: features.result->Ok_0,
                    init_tlvs: tlvs.result->Ok_0,
                },
            ),
            consumed: typ.consumed + gflen.consumed + global.consumed + flen.consumed
                + features.consumed + tlvs.consumed,
        }
    }
}

/// The bytes of an `Init` on the wire, every record of its stream included.
pub open spec fn init_wire(init: InitView) -> Seq<u8> {
    be_bytes(init.typ as nat, 2) + be_bytes(init.gflen as nat, 2) + init.global_features
        + be_bytes(init.flen as nat, 2) + init.features + stream_wire(init.init_tlvs)
}

/// Whether the two lengths of an `Init` are those of its two runs of
/// feature bytes.
pub open spec fn init_well_formed(init: InitView) -> bool {
    &&& init.gflen == init.global_features.len()
    &&& init.flen == init.features.len()
}

/// Six runs of bytes joined from the left are the same joined from the
/// right.
proof fn lemma_joined(a: Seq<u8>, b: Seq<u8>, c: Seq<u8>, d: Seq<u8>, e: Seq<u8>, f: Seq<u8>)
    ensures
        a + b + c + d + e + f == a + (b + (c + (d + (e + f)))),
{
    assert(e + f =~= e + f);
    assert(d + e + f =~= d + (e + f));
    assert(c + d + e + f =~= c + (d + (e + f)));
    assert(b + c + d + e + f =~= b + (c + (d + (e + f))));
    assert(a + b + c + d + e + f =~= a + (b + c + d + e + f));
}

/// Round trip of `Init`: a decoded message is well formed, its decoding took
/// all of the input, and its bytes on the wire are the input.
pub proof fn lemma_init_round_trip(input: Seq<u8>)
    requires
        init_decoding(input).result is Ok,
    ensures
        init_well_formed(init_decoding(input).result->Ok_0),
        init_decoding(input).consumed == input.len(),
        init_wire(init_decoding(input).result->Ok_0) == input,
{
    let init = init_decoding(input).result->Ok_0;
    lemma_pow256_values();
    lemma_uint_canonical(input, 2);
    let at_gflen = input.skip(2);
    lemma_uint_canonical(at_gflen, 2);
    let at_global = at_gflen.skip(2);
    lemma_bytes_canonical(at_global, init.gflen as nat);
    let at_flen = at_global.skip(init.gflen as int);
    lemma_uint_canonical(at_flen, 2);
    let at_features = at_flen.skip(2);
    lemma_bytes_canonical(at_features, init.flen as nat);
    let at_tlvs = at_features.skip(init.flen as int);
    lemma_stream_consumes_all(at_tlvs, None);
    lemma_stream_round_trip(at_tlvs, None);
    lemma_joined(
        be_bytes(init.typ as nat, 2),
        be_bytes(init.gflen as nat, 2),
        init.global_features,
        be_bytes(init.flen as nat, 2),
        init.features,
        at_tlvs,
    );
}

impl Init {
    /// Every `Init` is well formed: they are made by decoding only.
    #[verifier::type_invariant]
    spec fn well_formed(self) -> bool {
        init_well_formed(self@)
    }

    /// The message type.
    pub fn typ(&self) -> (typ: u16)
        ensures
            typ == self@.typ,
    {
        self.typ
    }

    /// The length of the global features, as the message said it.
    pub fn gflen(&self) -> (gflen: u16)
        ensures
            gflen == self@.gflen,
    {
        self.gflen
    }

    /// The length of the features, as the message said it.
    pub fn flen(&self) -> (flen: u16)
        ensures
            flen == self@.flen,
    {
        self.flen
    }

    /// The global features, as many bytes as the message said.
    pub fn global_features(&self) -> (bytes: &Vec<u8>)
        ensures
            bytes@ == self@.global_features,
            bytes@.len() == self@.gflen,
    {
        proof {
            use_type_invariant(self);
        }
        &self.global_features
    }

    /// The features, as many bytes as the message said.
    pub fn features(&self) -> (bytes: &Vec<u8>)
        ensures
            bytes@ == self@.features,
            bytes@.len() == self@.flen,
    {
        proof {
            use_type_invariant(self);
        }
        &self.features
    }

    /// The records that follow the features.
    pub fn init_tlvs(&self) -> (stream: &TLVStream)
        ensures
            stream@ == self@.init_tlvs,
    {
        &self.init_tlvs
    }

    /// The message in lowercase hexadecimal, as it stands on the wire.
    pub fn to_string(&self) -> (text: String)
        ensures
            text@ == lower_hex(init_wire(self@)),
    {
        let mut text = String::new();
        self.write_fmt(&mut text);
        assert(self.encoding() == init_wire(self@));
        text
    }
}

impl Writeable for Init {
    open spec fn encoding(&self) -> Seq<u8> {
        init_wire(self@)
    }

    fn write(&self, writer: &mut Vec<u8>) -> (n: usize) {
        assert(self.encoding() == init_wire(self@));
        let before = writer.len();
        self.typ.write(writer);
        assert(self.typ.encoding() == be_bytes(self.typ as nat, 2));
        self.gflen.write(writer);
        assert(self.gflen.encoding() == be_bytes(self.gflen as nat, 2));
        append_bytes(writer, self.global_features.as_slice());
        self.flen.write(writer);
        assert(self.flen.encoding() == be_bytes(self.flen as nat, 2));
        append_bytes(writer, self.features.as_slice());
        self.init_tlvs.write_wire(writer);
        assert(writer@ =~= old(writer)@ + init_wire(self@));
        writer.len() - before
    }
}

impl Readable for Init {
    open spec fn decoding(input: Seq<u8>) -> Decoding<InitView> {
        init_decoding(input)
    }

    fn read(reader: &mut ReadTrackingReader<'_>) -> (r: Result<Self, DecodeError>)
        ensures
            r is Ok ==> init_well_formed(r->Ok_0@),
    {
        let ghost start = *reader;
        assert(Self::decoding(start@) == init_decoding(start@));
        let ghost m_typ = uint_decoding(start@, 2);
        assert(<u16 as Readable>::decoding(start@).consumed == m_typ.consumed);
        proof {
            lemma_pow256_values();
            if m_typ.result is Ok {
                lemma_be_value_bound(start@.take(2));
            }
        }
        let typ: u16 = Readable::read(reader)?;

        let ghost at_gflen = *reader;
        let ghost m_gflen = uint_decoding(at_gflen@, 2);
        assert(<u16 as Readable>::decoding(at_gflen@).consumed == m_gflen.consumed);
        let gflen: Result<u16, DecodeError> = Readable::read(reader);
        proof {
            reader.lemma_took_twice(start, m_typ.consumed, at_gflen, m_gflen.consumed);
            if m_gflen.result is Ok {
                lemma_be_value_bound(at_gflen@.take(2));
            }
        }
        let gflen = gflen?;

        let ghost at_global = *reader;
        let ghost m_global = bytes_decoding(at_global@, gflen as nat);
        assert(<Vec<u8> as FixedLengthReadable>::decoding(at_global@, gflen as usize) == m_global);
        let global_features: Result<Vec<u8>, DecodeError> = FixedLengthReadable::read(
            reader,
            gflen as usize,
        );
        proof {
            reader.lemma_took_twice(
                start,
                m_typ.consumed + m_gflen.consumed,
                at_global,
                m_global.consumed,
            );
        }
        let global_features = global_features?;

        let ghost at_flen = *reader;
        let ghost m_flen = uint_decoding(at_flen@, 2);
        assert(<u16 as Readable>::decoding(at_flen@).consumed == m_flen.consumed);
        let flen: Result<u16, DecodeError> = Readable::read(reader);
        proof {
            reader.lemma_took_twice(
                start,
                m_typ.consumed + m_gflen.consumed + m_global.consumed,
                at_flen,
                m_flen.consumed,
            );
            if m_flen.result is Ok {
                lemma_be_value_bound(at_flen@.take(2));
            }
        }
        let flen = flen?;

        let ghost at_features = *reader;
        let ghost m_features = bytes_decoding(at_features@, flen as nat);
        assert(<Vec<u8> as FixedLengthReadable>::decoding(at_features@, flen as usize)
            == m_features);
        let features: Result<Vec<u8>, DecodeError> = FixedLengthReadable::read(
            reader,
            flen as usize,
        );
        proof {
            reader.lemma_took_twice(
                start,
                m_typ.consumed + m_gflen.consumed + m_global.consumed + m_flen.consumed,
                at_features,
                m_features.consumed,
            );
        }
        let features = features?;

        let ghost at_tlvs = *reader;
        let ghost m_tlvs = stream_decoding(at_tlvs@);
        assert(<TLVStream as Readable>::decoding(at_tlvs@) == m_tlvs);
        let init_tlvs: Result<TLVStream, DecodeError> = Readable::read(reader);
        proof {
            reader.lemma_took_twice(
                start,
                m_typ.consumed + m_gflen.consumed + m_global.consumed + m_flen.consumed
                    + m_features.consumed,
                at_tlvs,
                m_tlvs.consumed,
            );
        }
        let init_tlvs = init_tlvs?;

        proof {
            lemma_init_round_trip(start@);
        }
        Ok(Init { typ, gflen, global_features, flen, features, init_tlvs })
    }
}

/// For simplicity of diagnosis, it's often useful to tell a peer that
/// something is incorrect.
pub struct ErrorMessage {
    pub typ: u16,
    /// The channel is referred to by channel_id, unless channel_id is 0
    /// (i.e. all bytes are 0), in which case it refers to all channels.
    pub channel_id: [u8; 32],
    pub len: u16,
    pub data: Vec<u8>,
}

/// Like an error, but the sender does not fail the channel over it.
pub struct WarningMessage {
    pub typ: u16,
    /// The channel is referred to by channel_id, unless channel_id is 0
    /// (i.e. all bytes are 0), in which case it refers to all channels.
    pub channel_id: [u8; 8],
    pub len: u16,
    pub data: Vec<u8>,
}

/// In order to allow for the existence of long-lived TCP connections, at
/// times it may be required that both ends keep alive the TCP connection at
/// the application level. Such messages also allow obfuscation of traffic
/// patterns.
pub struct Ping {
    pub typ: u16,
    pub num_pong_bytes: u16,
    pub bytes_len: u16,
    pub ignored: Vec<u8>,
}

/// The pong message is to be sent whenever a ping message is received. It
/// serves as a reply and also serves to keep the connection alive, while
/// explicitly notifying the other end that the receiver is still active.
/// Within the received ping message, the sender will specify the number of
/// bytes to be included within the data payload of the pong message.
pub struct Pong {
    pub typ: u16,
    pub num_pong_bytes: u16,
    pub bytes_len: u16,
    pub ignored: Vec<u8>,
}

/// The chain_hash value denotes the exact blockchain that the opened channel
/// will reside within. This is usually the genesis hash of the respective
/// blockchain. The existence of the chain_hash allows nodes to open channels
/// across many distinct blockchains as well as have channels within multiple
/// blockchains opened to the same peer (if it supports the target chains).
pub struct ChainHash {}

/// The first step toward creating the funding transaction and both versions
/// of the commitment transaction: the funder proposes a channel.
pub struct OpenChannel {
    /// The blockchain that the opened channel will reside within.
    pub chain_hash: ChainHash,
    /// The temporary_channel_id is used to identify this channel on a
    /// per-peer basis until the funding transaction is established, at which
    /// point it is replaced by the channel_id, which is derived from the
    /// funding transaction.
    pub temp_channel_id: [u8; 32],
    /// The amount the sender is putting into the channel.
    pub funding_sats: u64,
    /// An amount of initial funds that the sender is unconditionally giving
    /// to the receiver.
    pub push_msat: u64,
    /// Threshold below which outputs should not be generated for this node's
    /// commitment or HTLC transactions (i.e. HTLCs below this amount plus
    /// HTLC transaction fees are not enforceable on-chain).
    pub dust_limit_sats: u64,
    /// Is a cap on total value of outstanding HTLCs, which allows a node to
    /// limit its exposure to HTLCs
    pub max_htlc_value_in_flight_msat: u64,
    /// The minimum amount that the other node is to keep as a direct
    /// payment.
    pub channel_reserve_sats: u64,
    /// Indicates the smallest value HTLC this node will accept.
    pub htlc_min_msat: u64,
    /// Indicates the initial fee rate in satoshi per 1000-weight (i.e. 1/4
    /// the more normally-used 'satoshi per 1000 vbytes') that this side will
    /// pay for commitment and HTLC transactions
    pub feerate_per_kw: u32,
    /// Is the number of blocks that the other node's to-self outputs must be
    /// delayed, using OP_CHECKSEQUENCEVERIFY delays; this is how long it
    /// will have to wait in case of breakdown before redeeming its own
    /// funds.
    pub to_self_delay: u16,
    /// Limits the number of outstanding HTLCs the other node can offer.
    pub max_accepted_htlcs: u16,
    /// The public key in the 2-of-2 multisig script of the funding
    /// transaction output.
    pub funding_pubkey: PublicKey,
    pub revocation_basepoint: PublicKey,
    pub payment_basepoint: PublicKey,
    pub delayed_payment_basepoint: PublicKey,
    pub htlc_basepoint: PublicKey,
    /// The per-commitment point to be used for the first commitment
    /// transaction,
    pub first_per_commitment_point: PublicKey,
    /// Only the least-significant bit of channel_flags is currently defined:
    /// announce_channel. This indicates whether the initiator of the funding
    /// flow wishes to advertise this channel publicly to the network
    pub channel_flags: u8,
    pub tlv_stream: TLVStream,
    /// Allows the sending node to commit to where funds will go on mutual
    /// close, which the remote node should enforce even if a node is
    /// compromised later.
    pub shutdown_scriptpubkey: PublicKey,
}

/// This message contains information about a node and indicates its
/// acceptance of the new channel. This is the second step toward creating
/// the funding transaction and both versions of the commitment transaction.
pub struct AcceptChannel {
    pub temp_channel_id: [u8; 32],
    pub dust_limit_sats: u64,
    pub max_htlc_value_in_flight_msat: u64,
    pub channel_reserve_sats: u64,
    pub htlc_min_msat: u64,
    pub min_depth: u32,
    pub to_self_delay: u16,
    pub max_accepted_htlcs: u16,
    pub funding_pubkey: PublicKey,
    pub revocation_basepoint: PublicKey,
    pub payment_basepoint: PublicKey,
    pub delayed_payment_basepoint: PublicKey,
    pub htlc_basepoint: PublicKey,
    pub first_per_commitment_point: PublicKey,
    pub accept_channel_tlvs: TLVStream,
    pub shutdown_scriptpubkey: PublicKey,
}

/// This message describes the outpoint which the funder has created for the
/// initial commitment transactions. After receiving the peer's signature,
/// via funding_signed, it will broadcast the funding transaction.
pub struct FundingCreated {
    pub temp_channel_id: [u8; 32],
    pub funding_txid: Txid,
    pub funding_output_index: u16,
    pub signature: Signature,
}

/// This message gives the funder the signature it needs for the first
/// commitment transaction, so it can broadcast the transaction knowing that
/// funds can be redeemed, if need be.
pub struct FundingSigned {
    pub channel_id: [u8; 32],
    pub signature: Signature,
}

/// This message indicates that the funding transaction has reached the
/// minimum_depth asked for in accept_channel. Once both nodes have sent
/// this, the channel enters normal operating mode.
pub struct FundingLocked {
    pub channel_id: [u8; 32],
    pub next_per_commitment_point: PublicKey,
}

/// Either node (or both) can send a shutdown message to initiate closing,
/// along with the scriptpubkey it wants to be paid to.
pub struct Shutdown {
    pub channel_id: [u8; 32],
    pub len: u16,
    pub scriptpubkey: Script,
}

/// Once shutdown is complete and the channel is empty of HTLCs, the final
/// current commitment transactions will have no HTLCs, and closing fee
/// negotiation begins. The funder chooses a fee it thinks is fair, and signs
/// the closing transaction with the scriptpubkey fields from the shutdown
/// messages (along with its chosen fee) and sends the signature; the other
/// node then replies similarly, using a fee it thinks is fair. This exchange
/// continues until both agree on the same fee or when one side fails the
/// channel.
///
/// In the modern method, the funder sends its permissible fee range, and the
/// non-funder has to pick a fee in this range. If the non-funder chooses the
/// same value, negotiation is complete after two messages, otherwise the
/// funder will reply with the same value (completing after three messages).
pub struct ClosingSigned {
    pub channel_id: [u8; 32],
    pub fee_sats: u64,
    pub signature: Signature,
    pub tlv_stream: TLVStream,
}

/// Either node can send update_add_htlc to offer an HTLC to the other, which
/// is redeemable in return for a payment preimage.
pub struct UpdateAddHTLC {
    pub channel_id: [u8; 32],
    pub id: u64,
    pub amount_msat: u64,
    pub payment_hash: [u8; 32],
    pub cltv_expiry: u32,
    /// Contains an obfuscated list of hops and instructions for each hop
    /// along the path. It commits to the HTLC by setting the payment_hash as
    /// associated data, i.e. includes the payment_hash in the computation of
    /// HMACs. This prevents replay attacks that would reuse a previous
    /// onion_routing_packet with a different payment_hash.
    pub onion_routing_packet: [u8; 1366],
}

/// Removes an HTLC by giving the preimage of its payment hash.
pub struct UpdateFulfillHTLC {
    pub channel_id: [u8; 32],
    pub id: u64,
    pub payment_preimage: [u8; 32],
}

/// Removes an HTLC that failed or timed out, with the reason for the
/// sender of the payment.
pub struct UpdateFailHTLC {
    pub channel_id: [u8; 32],
    pub id: u64,
    pub len: u16,
    pub reason: Vec<u8>,
}

/// Removes an HTLC whose onion could not be parsed.
pub struct UpdateFailMalformedHTLC {
    pub channel_id: [u8; 32],
    pub id: u64,
    pub sha256_of_onion: [u8; 32],
    pub failure_code: u16,
}

/// When a node has changes for the remote commitment, it can apply them,
/// sign the resulting transaction, and send a commitment_signed message.
pub struct CommitmentSigned {
    pub channel_id: [u8; 32],
    pub signature: Signature,
    pub num_htlc: u16,
    pub htlc_signature: Vec<Signature>,
}

/// Once the recipient of commitment_signed checks the signature and knows it
/// has a valid new commitment transaction, it replies with the commitment
/// preimage for the previous commitment transaction in a revoke_and_ack
/// message.
pub struct RevokeAndACK {
    pub channel_id: [u8; 32],
    pub per_commitment_secret: [u8; 32],
    pub next_per_commitment_point: PublicKey,
}

/// An update_fee message is sent by the node which is paying the Bitcoin
/// fee. Like any update, it's first committed to the receiver's commitment
/// transaction and then (once acknowledged) committed to the sender's.
/// Unlike an HTLC, update_fee is never closed but simply replaced.
pub struct UpdateFee {
    pub channel_id: [u8; 32],
    pub feerate_per_kw: u32,
}

/// Because communication transports are unreliable, and may need to be
/// re-established from time to time, the design of the transport has been
/// explicitly separated from the protocol.
pub struct ChannelReestablish {
    pub channel_id: [u8; 32],
    /// A commitment number is a 48-bit incrementing counter for each
    /// commitment transaction; counters are independent for each peer in the
    /// channel and start at 0. They're only explicitly relayed to the other
    /// node in the case of re-establishment, otherwise they are implicit.
    pub next_commitment_number: u64,
    pub next_revocation_number: u64,
    pub your_last_per_commitment_secret: [u8; 32],
    pub my_current_per_commitment_point: PublicKey,
}

} // verus!
