//! The sender engine: packetizes a payment into conditional transfers,
//! sends each through the injected next service, and applies the reply
//! to the payment state. The loop consults the state to pick one of
//! four events — send more money, wait for the window, close the
//! connection, or time out.

use vstd::prelude::*;
use crate::addr::Address;
use crate::crypto::{
    condition_of,
    decrypt_stream_packet,
    encrypt_stream_packet,
    random_condition,
    stream_decrypt_of,
};
use crate::ilp::{
    class_of,
    is_amount_too_large,
    is_application_error,
    prepare_wf,
    ErrorClass,
    Fulfill,
    Prepare,
    Reject,
};
use crate::oer::{enc_var_u64, lemma_enc_len_len, lemma_enc_var_u64_len};
use crate::payment::{StreamDelivery, StreamPayment};
use crate::rate::{min_dest_spec, min_destination_amount, sat64, ExchangeRateStore, Price};
use crate::stream_packet::{
    dec_stream_packet,
    enc_frame,
    enc_frame_content,
    enc_frames,
    enc_stream_packet,
    Frame,
    FrameV,
    IlpPacketType,
    StreamPacket,
    StreamPacketV,
};
use crate::{copy_bytes, Error};

verus! {

/// How long since the last fulfill before the payment gives up.
pub const MAX_TIME_SINCE_LAST_FULFILL_MILLIS: u64 = 30000;

/// How long a Prepare lives before it lapses.
pub const PREPARE_EXPIRY_MILLIS: u64 = 30000;

/// The default slippage conceded to intermediaries, in basis points.
pub const DEFAULT_SLIPPAGE_BP: u16 = 100;

/// The last millisecond the seventeen-digit timestamp can say.
pub const MAX_TIMESTAMP_MILLIS: u64 = 253402300799999;

/// The view the sender has of its own account.
#[derive(Debug, Clone, PartialEq, Eq)]
pub struct SourceAccount {
    /// The sender's ILP address.
    pub ilp_address: Address,
    /// The sender's asset code, as ASCII bytes.
    pub asset_code: Vec<u8>,
    /// The sender's asset scale.
    pub asset_scale: u8,
}

/// One request handed to the next service.
#[derive(Debug, Clone, PartialEq, Eq)]
pub struct IncomingRequest {
    /// Who sends it.
    pub from: SourceAccount,
    /// The conditional transfer.
    pub prepare: Prepare,
}

/// The injected request pipeline carrying Prepares to the network and
/// bringing back one Fulfill or Reject for each.
pub trait IncomingService {
    /// Handles one request, eventually answering it.
    fn handle_request(&mut self, request: IncomingRequest) -> Result<Fulfill, Reject>;
}

/// The injected clock.
pub trait Clock {
    /// Milliseconds of elapsed wall time, from any fixed origin.
    fn now_millis(&mut self) -> u64;
}

/// Relies on chrono's proleptic Gregorian calendar in UTC: seventeen
/// ASCII digits, year through millisecond, a function of the
/// milliseconds alone.
pub uninterp spec fn timestamp_digits_of(millis: u64) -> Seq<u8>;

/// Relies on chrono's `DateTime` formatting for the wire timestamp.
#[verifier::external_body]
pub(crate) fn timestamp_digits(millis: u64) -> (r: Vec<u8>)
    requires
        millis <= MAX_TIMESTAMP_MILLIS,
    ensures
        r@ == timestamp_digits_of(millis),
        r@.len() == 17,
        forall|i: int| 0 <= i < 17 ==> 48 <= #[trigger] r@[i] <= 57,
{
    let dt = chrono::DateTime::<chrono::Utc>::from_timestamp_millis(millis as i64).expect(
        "within the timestamp range",
    );
    format!("{}", dt.format("%Y%m%d%H%M%S%3f")).into_bytes()
}

/// When a Prepare built now lapses: the standard expiry later,
/// clamped into the representable range.
pub open spec fn expiry_base_of(now_millis: u64) -> u64 {
    if now_millis > MAX_TIMESTAMP_MILLIS - PREPARE_EXPIRY_MILLIS {
        MAX_TIMESTAMP_MILLIS
    } else {
        (now_millis + PREPARE_EXPIRY_MILLIS) as u64
    }
}

/// The wire timestamp for a Prepare that lapses the standard expiry
/// after the given time, clamped into the representable range.
pub fn expiry_digits_after(now_millis: u64) -> (r: Vec<u8>)
    ensures
        r@ == timestamp_digits_of(expiry_base_of(now_millis)),
        r@.len() == 17,
{
    let base: u64 = if now_millis > MAX_TIMESTAMP_MILLIS - PREPARE_EXPIRY_MILLIS {
        MAX_TIMESTAMP_MILLIS
    } else {
        now_millis + PREPARE_EXPIRY_MILLIS
    };
    timestamp_digits(base)
}

/// The frames a money packet carries: one money frame on stream one,
/// preceded by the sender's address while it still must be announced.
pub open spec fn expected_request_frames(should_send_source_account: bool, from: Seq<u8>) -> Seq<
    FrameV,
> {
    if should_send_source_account {
        seq![
            FrameV::StreamMoney { stream_id: 1, shares: 1 },
            FrameV::ConnectionNewAddress { source_account: from },
        ]
    } else {
        seq![FrameV::StreamMoney { stream_id: 1, shares: 1 }]
    }
}

/// An encoded frame of the sender's own kinds is small.
proof fn lemma_sender_frame_len(f: FrameV)
    requires
        f is StreamMoney || (f matches FrameV::ConnectionNewAddress { source_account }
            && source_account.len() <= 1023) || (f matches FrameV::ConnectionClose {
            message,
            ..
        } && message.len() == 0),
    ensures
        enc_frame(f).len() <= 1060,
{
    let content = enc_frame_content(f);
    match f {
        FrameV::StreamMoney { stream_id, shares } => {
            lemma_enc_var_u64_len(stream_id);
            lemma_enc_var_u64_len(shares);
            assert(content.len() <= 18);
            lemma_enc_len_len(content.len());
        },
        FrameV::ConnectionNewAddress { source_account } => {
            lemma_enc_len_len(source_account.len());
            assert(content.len() <= 1023 + 9);
            lemma_enc_len_len(content.len());
        },
        FrameV::ConnectionClose { code, message } => {
            lemma_enc_len_len(message.len());
            assert(content.len() <= 10);
            lemma_enc_len_len(content.len());
        },
        FrameV::ConnectionAssetDetails { .. } => {
            assert(false);
        },
    }
}

/// A packet of at most two of the sender's own frames encodes into
/// fewer than three thousand bytes.
proof fn lemma_sender_packet_len(p: StreamPacketV)
    requires
        p.frames.len() <= 2,
        forall|i: int|
            0 <= i < p.frames.len() ==> (#[trigger] p.frames[i]) is StreamMoney || (p.frames[i]
                matches FrameV::ConnectionNewAddress { source_account }
                && source_account.len() <= 1023) || (p.frames[i] matches FrameV::ConnectionClose {
                message,
                ..
            } && message.len() == 0),
    ensures
        enc_stream_packet(p).len() <= 3000,
{
    lemma_enc_var_u64_len(p.sequence);
    lemma_enc_var_u64_len(p.prepare_amount);
    lemma_enc_var_u64_len(p.frames.len() as u64);
    if p.frames.len() == 0 {
        assert(enc_frames(p.frames).len() == 0);
    } else if p.frames.len() == 1 {
        lemma_sender_frame_len(p.frames[0]);
        assert(enc_frames(p.frames.drop_first()).len() == 0);
        assert(enc_frames(p.frames).len() <= 1060);
    } else {
        lemma_sender_frame_len(p.frames[0]);
        lemma_sender_frame_len(p.frames[1]);
        assert(p.frames.drop_first()[0] == p.frames[1]);
        let tail = p.frames.drop_first();
        assert(enc_frames(tail.drop_first()).len() == 0);
        assert(enc_frames(tail) == enc_frame(tail[0]) + enc_frames(tail.drop_first()));
        assert(enc_frames(tail).len() <= 1060);
        assert(enc_frames(p.frames) == enc_frame(p.frames[0]) + enc_frames(tail));
        assert(enc_frames(p.frames).len() <= 2120);
    }
}

/// The four events the sender's loop can face.
#[derive(Debug, Clone, Copy, PartialEq, Eq, Structural)]
pub enum PaymentEvent {
    /// Send one more packet carrying the given source amount.
    SendMoney(u64),
    /// The congestion window has no room: wait for an in-flight packet.
    MaxInFlight,
    /// The whole intended amount is fulfilled: close the connection.
    CloseConnection,
    /// Too long without a fulfill: give the payment up.
    Timeout,
}

/// Milliseconds since the last fulfill; zero when the clock went back.
pub open spec fn spec_elapsed_since_fulfill(p: StreamPayment, now_millis: u64) -> int {
    if now_millis > p.last_fulfill_time_millis {
        now_millis - p.last_fulfill_time_millis
    } else {
        0
    }
}

/// Consults the payment and picks exactly one event, in this order:
/// time out once the wait since the last fulfill reaches its limit;
/// close once the whole intended amount is fulfilled; wait when the
/// congestion window has no room; otherwise account for one more
/// packet and say how much it carries.
pub fn next_event(payment: &mut StreamPayment, now_millis: u64) -> (ev: PaymentEvent)
    requires
        old(payment).wf(),
    ensures
        final(payment).wf(),
        spec_elapsed_since_fulfill(*old(payment), now_millis) >= MAX_TIME_SINCE_LAST_FULFILL_MILLIS
            ==> ev == PaymentEvent::Timeout,
        spec_elapsed_since_fulfill(*old(payment), now_millis) < MAX_TIME_SINCE_LAST_FULFILL_MILLIS
            && old(payment).spec_fulfilled_amount() >= old(payment).receipt.source_amount ==> ev
            == PaymentEvent::CloseConnection,
        spec_elapsed_since_fulfill(*old(payment), now_millis) < MAX_TIME_SINCE_LAST_FULFILL_MILLIS
            && old(payment).spec_fulfilled_amount() < old(payment).receipt.source_amount && old(
            payment,
        ).congestion_controller.spec_max_amount() == 0 ==> ev == PaymentEvent::MaxInFlight,
        ev is Timeout ==> spec_elapsed_since_fulfill(*old(payment), now_millis)
            >= MAX_TIME_SINCE_LAST_FULFILL_MILLIS,
        ev is CloseConnection ==> old(payment).spec_fulfilled_amount() >= old(
            payment,
        ).receipt.source_amount,
        ev is MaxInFlight ==> old(payment).spec_fulfilled_amount() < old(
            payment,
        ).receipt.source_amount && old(payment).congestion_controller.spec_max_amount() == 0,
        ev is SendMoney ==> old(payment).spec_fulfilled_amount() < old(
            payment,
        ).receipt.source_amount && old(payment).congestion_controller.spec_max_amount() > 0,
        !(ev is SendMoney) ==> *final(payment) == *old(payment),
        ev matches PaymentEvent::SendMoney(amount) ==> {
            &&& amount as int == ({
                let avail = old(payment).receipt.source_amount - old(payment).receipt.sent_amount;
                let room = old(payment).congestion_controller.spec_max_amount();
                if avail < room {
                    avail
                } else {
                    room
                }
            })
            &&& final(payment).receipt.sent_amount == old(payment).receipt.sent_amount + amount
            &&& final(payment).receipt.in_flight_amount == old(payment).receipt.in_flight_amount
                + amount
            &&& final(payment).spec_fulfilled_amount() == old(payment).spec_fulfilled_amount()
            &&& final(payment).receipt.source_amount == old(payment).receipt.source_amount
            &&& final(payment).receipt.delivered_amount == old(payment).receipt.delivered_amount
            &&& final(payment).receipt.from == old(payment).receipt.from
            &&& final(payment).receipt.to == old(payment).receipt.to
            &&& final(payment).receipt.source_asset_code == old(payment).receipt.source_asset_code
            &&& final(payment).receipt.source_asset_scale == old(
                payment,
            ).receipt.source_asset_scale
            &&& final(payment).receipt.destination_asset_code == old(
                payment,
            ).receipt.destination_asset_code
            &&& final(payment).receipt.destination_asset_scale == old(
                payment,
            ).receipt.destination_asset_scale
            &&& final(payment).sequence == old(payment).sequence
            &&& final(payment).assigned@ == old(payment).assigned@
            &&& final(payment).should_send_source_account == old(
                payment,
            ).should_send_source_account
            &&& final(payment).fulfilled_packets == old(payment).fulfilled_packets
            &&& final(payment).rejected_packets == old(payment).rejected_packets
            &&& final(payment).last_fulfill_time_millis == old(payment).last_fulfill_time_millis
            &&& final(payment).congestion_controller.spec_max_in_flight() == old(
                payment,
            ).congestion_controller.spec_max_in_flight()
            &&& final(payment).congestion_controller.spec_max_packet_amount() == old(
                payment,
            ).congestion_controller.spec_max_packet_amount()
        },
{
    let elapsed: u64 = if now_millis > payment.last_fulfill_time_millis {
        now_millis - payment.last_fulfill_time_millis
    } else {
        0
    };
    if elapsed >= MAX_TIME_SINCE_LAST_FULFILL_MILLIS {
        PaymentEvent::Timeout
    } else if payment.is_complete() {
        PaymentEvent::CloseConnection
    } else if payment.is_max_in_flight() {
        PaymentEvent::MaxInFlight
    } else {
        PaymentEvent::SendMoney(payment.apply_prepare())
    }
}

/// Builds one outgoing Prepare: assigns the next sequence number,
/// assembles the frames, encrypts the STREAM packet and picks the
/// condition. When no minimum destination amount could be computed the
/// condition is the caller's fresh random bytes, so the packet is
/// unfulfillable and no money is at risk.
pub fn build_prepare(
    payment: &mut StreamPayment,
    shared_secret: &Vec<u8>,
    source_amount: u64,
    min_destination_amount: u64,
    expiry_digits: Vec<u8>,
    unfulfillable_condition: Vec<u8>,
) -> (r: (Prepare, u64))
    requires
        old(payment).wf(),
        old(payment).sequence < u64::MAX,
        old(payment).receipt.from.wf(),
        old(payment).receipt.to.wf(),
        expiry_digits@.len() == 17,
        unfulfillable_condition@.len() == 32,
    ensures
        final(payment).wf(),
        r.1 == old(payment).sequence,
        final(payment).sequence == old(payment).sequence + 1,
        final(payment).assigned@ == old(payment).assigned@.push(r.1),
        final(payment).receipt == old(payment).receipt,
        final(payment).should_send_source_account == old(payment).should_send_source_account,
        final(payment).fulfilled_packets == old(payment).fulfilled_packets,
        final(payment).rejected_packets == old(payment).rejected_packets,
        final(payment).last_fulfill_time_millis == old(payment).last_fulfill_time_millis,
        final(payment).congestion_controller == old(payment).congestion_controller,
        r.0.amount == source_amount,
        r.0.destination@ == old(payment).receipt.to@,
        r.0.expires_at@ == expiry_digits@,
        prepare_wf(r.0),
        stream_decrypt_of(shared_secret@, r.0.data@) == Some(
            enc_stream_packet(
                StreamPacketV {
                    ilp_packet_type: IlpPacketType::Prepare,
                    prepare_amount: min_destination_amount,
                    sequence: r.1,
                    frames: expected_request_frames(
                        old(payment).should_send_source_account,
                        old(payment).receipt.from@,
                    ),
                },
            ),
        ),
        min_destination_amount == 0 ==> r.0.execution_condition@ == unfulfillable_condition@,
        min_destination_amount > 0 ==> r.0.execution_condition@ == condition_of(
            shared_secret@,
            r.0.data@,
        ),
{
    let sequence = payment.next_sequence();
    let mut frames: Vec<Frame> = Vec::new();
    frames.push(Frame::StreamMoney { stream_id: 1, shares: 1 });
    if payment.should_send_source_account {
        frames.push(
            Frame::ConnectionNewAddress { source_account: payment.receipt.from.to_bytes() },
        );
    }
    let packet = StreamPacket {
        ilp_packet_type: IlpPacketType::Prepare,
        prepare_amount: min_destination_amount,
        sequence,
        frames,
    };
    proof {
        assert(packet@.frames =~= expected_request_frames(
            old(payment).should_send_source_account,
            old(payment).receipt.from@,
        ));
        assert(old(payment).receipt.from@.len() <= 1023);
        lemma_sender_packet_len(packet@);
    }
    let data = encrypt_stream_packet(shared_secret, &packet);
    let execution_condition = if min_destination_amount > 0 {
        crate::crypto::generate_condition(shared_secret, &data)
    } else {
        unfulfillable_condition
    };
    let prepare = Prepare {
        destination: payment.receipt.to.clone_addr(),
        amount: source_amount,
        expires_at: expiry_digits,
        execution_condition,
        data,
    };
    (prepare, sequence)
}

/// What the reply's end-to-end payload decodes to under the shared
/// secret, if it decodes at all.
pub open spec fn reply_stream_packet(secret: Seq<u8>, data: Seq<u8>) -> Option<StreamPacketV> {
    match stream_decrypt_of(secret, data) {
        None => None,
        Some(pt) => dec_stream_packet(pt),
    }
}

/// Does the sender act on the decoded reply? Not when it fails to
/// decode, answers another sequence (a replay), or claims to be a
/// reject while the outer packet fulfilled (a lying peer).
pub open spec fn reply_accepted(
    secret: Seq<u8>,
    data: Seq<u8>,
    sequence: u64,
    outer_fulfill: bool,
) -> bool {
    match reply_stream_packet(secret, data) {
        None => false,
        Some(p) => p.sequence == sequence && !(outer_fulfill && p.ilp_packet_type is Reject),
    }
}

/// The destination amount the receiver claims arrived: zero unless the
/// reply was accepted.
pub open spec fn claimed_amount_of(
    secret: Seq<u8>,
    data: Seq<u8>,
    sequence: u64,
    outer_fulfill: bool,
) -> u64 {
    if reply_accepted(secret, data, sequence, outer_fulfill) {
        reply_stream_packet(secret, data)->Some_0.prepare_amount
    } else {
        0
    }
}

/// The last asset-details frame of a reply, whose values stick.
pub open spec fn last_asset_details(frames: Seq<FrameV>) -> Option<(Seq<u8>, u8)>
    decreases frames.len(),
{
    if frames.len() == 0 {
        None
    } else {
        match frames[frames.len() - 1] {
            FrameV::ConnectionAssetDetails { source_asset_code, source_asset_scale } => Some(
                (source_asset_code, source_asset_scale),
            ),
            _ => last_asset_details(frames.drop_last()),
        }
    }
}

/// The payload bytes of a reply.
pub open spec fn reply_data(reply: Result<Fulfill, Reject>) -> Seq<u8> {
    match reply {
        Ok(f) => f.data@,
        Err(rj) => rj.data@,
    }
}

/// Applies one reply to the payment. A fulfilled packet delivers at
/// least the minimum the Prepare demanded, whatever the receiver
/// claims; a reply that fails to decode, replays another sequence or
/// lies about rejecting changes no stream state. A temporary,
/// amount-too-large or application-error reject is absorbed; any other
/// reject ends the payment.
pub fn handle_reply(
    payment: &mut StreamPayment,
    shared_secret: &Vec<u8>,
    sequence: u64,
    source_amount: u64,
    min_destination_amount: u64,
    reply: &Result<Fulfill, Reject>,
    now_millis: u64,
) -> (r: Result<(), Error>)
    requires
        old(payment).wf(),
        source_amount <= old(payment).receipt.in_flight_amount,
    ensures
        final(payment).wf(),
        ({
            let accepted = reply_accepted(
                shared_secret@,
                reply_data(*reply),
                sequence,
                *reply is Ok,
            );
            let claimed = claimed_amount_of(
                shared_secret@,
                reply_data(*reply),
                sequence,
                *reply is Ok,
            );
            &&& final(payment).should_send_source_account == (old(
                payment,
            ).should_send_source_account && !accepted)
            &&& (!accepted || old(payment).receipt.destination_asset_scale is Some ==> {
                &&& final(payment).receipt.destination_asset_code == old(
                    payment,
                ).receipt.destination_asset_code
                &&& final(payment).receipt.destination_asset_scale == old(
                    payment,
                ).receipt.destination_asset_scale
            })
            &&& (accepted && old(payment).receipt.destination_asset_scale is None ==> match
                last_asset_details(
                reply_stream_packet(shared_secret@, reply_data(*reply))->Some_0.frames,
            ) {
                Some(details) => {
                    &&& final(payment).receipt.destination_asset_code matches Some(c) && c@
                        == details.0
                    &&& final(payment).receipt.destination_asset_scale == Some(details.1)
                },
                None => {
                    &&& final(payment).receipt.destination_asset_code == old(
                        payment,
                    ).receipt.destination_asset_code
                    &&& final(payment).receipt.destination_asset_scale == old(
                        payment,
                    ).receipt.destination_asset_scale
                },
            })
            &&& (*reply is Ok ==> {
                let delivered: int = if min_destination_amount > claimed {
                    min_destination_amount as int
                } else {
                    claimed as int
                };
                &&& final(payment).receipt.in_flight_amount == old(
                    payment,
                ).receipt.in_flight_amount - source_amount
                &&& final(payment).receipt.sent_amount == old(payment).receipt.sent_amount
                &&& final(payment).receipt.delivered_amount as int == (
                    if old(payment).receipt.delivered_amount + delivered > u64::MAX {
                        u64::MAX as int
                    } else {
                        old(payment).receipt.delivered_amount + delivered
                    }
                )
                &&& final(payment).receipt.delivered_amount as int >= (
                    if old(payment).receipt.delivered_amount + min_destination_amount > u64::MAX {
                        u64::MAX as int
                    } else {
                        old(payment).receipt.delivered_amount + min_destination_amount
                    }
                )
                &&& final(payment).last_fulfill_time_millis == now_millis
                &&& r is Ok
            })
            &&& (*reply matches Err(reject) ==> {
                &&& final(payment).receipt.in_flight_amount == old(
                    payment,
                ).receipt.in_flight_amount - source_amount
                &&& final(payment).receipt.sent_amount == old(payment).receipt.sent_amount
                    - source_amount
                &&& final(payment).receipt.delivered_amount == old(
                    payment,
                ).receipt.delivered_amount
                &&& final(payment).last_fulfill_time_millis == old(
                    payment,
                ).last_fulfill_time_millis
                &&& (r is Ok <==> (class_of(reject.code) == ErrorClass::Temporary
                    || is_amount_too_large(reject.code) || is_application_error(reject.code)))
                &&& (r matches Err(e) ==> e matches Error::SendMoneyError {
                    reject_code,
                    reject_message,
                    ..
                } && reject_code == Some(reject.code) && reject_message@ == reject.message@)
            })
        }),
        final(payment).spec_fulfilled_amount() == old(payment).spec_fulfilled_amount() + (
            if *reply is Ok {
                source_amount as int
            } else {
                0int
            }
        ),
        final(payment).sequence == old(payment).sequence,
        final(payment).assigned@ == old(payment).assigned@,
        final(payment).receipt.source_amount == old(payment).receipt.source_amount,
        final(payment).receipt.from == old(payment).receipt.from,
        final(payment).receipt.to == old(payment).receipt.to,
        final(payment).receipt.source_asset_code == old(payment).receipt.source_asset_code,
        final(payment).receipt.source_asset_scale == old(payment).receipt.source_asset_scale,
        (final(payment).congestion_controller.spec_max_in_flight() >= 1 || final(payment).congestion_controller.spec_max_in_flight() >= old(payment).congestion_controller.spec_max_in_flight()),
        (match final(payment).congestion_controller.spec_max_packet_amount() {
            Some(c) => c >= 1 || old(payment).congestion_controller.spec_max_packet_amount()
                == Some(c),
            None => old(payment).congestion_controller.spec_max_packet_amount() is None,
        }),
{
    let data_ref: &Vec<u8> = match reply {
        Ok(f) => &f.data,
        Err(rj) => &rj.data,
    };
    let outer_fulfill = match reply {
        Ok(_) => true,
        Err(_) => false,
    };
    let parsed = decrypt_stream_packet(shared_secret, data_ref);
    let mut claimed: u64 = 0;
    match parsed {
        Some(sp) => {
            let inner_reject = match sp.ilp_packet_type {
                IlpPacketType::Reject => true,
                _ => false,
            };
            if sp.sequence != sequence {
                proof {
                    assert(!reply_accepted(
                        shared_secret@,
                        reply_data(*reply),
                        sequence,
                        outer_fulfill,
                    ));
                }
            } else if inner_reject && outer_fulfill {
                proof {
                    assert(!reply_accepted(
                        shared_secret@,
                        reply_data(*reply),
                        sequence,
                        outer_fulfill,
                    ));
                }
            } else {
                payment.should_send_source_account = false;
                if payment.receipt.destination_asset_scale.is_none() {
                    let mut found: Option<(Vec<u8>, u8)> = None;
                    let mut i: usize = 0;
                    while i < sp.frames.len()
                        invariant
                            i <= sp.frames@.len(),
                            match found {
                                Some(f) => last_asset_details(sp@.frames.take(i as int))
                                    matches Some(d) && f.0@ == d.0 && f.1 == d.1,
                                None => last_asset_details(sp@.frames.take(i as int)) is None,
                            },
                        decreases sp.frames@.len() - i,
                    {
                        proof {
                            let tk = sp@.frames.take(i + 1);
                            assert(tk.drop_last() =~= sp@.frames.take(i as int));
                            assert(tk[tk.len() - 1] == sp@.frames[i as int]);
                        }
                        match &sp.frames[i] {
                            Frame::ConnectionAssetDetails {
                                source_asset_code,
                                source_asset_scale,
                            } => {
                                found = Some((copy_bytes(source_asset_code), *source_asset_scale));
                            },
                            _ => {},
                        }
                        i = i + 1;
                    }
                    proof {
                        assert(sp@.frames.take(sp.frames@.len() as int) =~= sp@.frames);
                    }
                    match found {
                        Some(details) => {
                            payment.set_destination_asset_details(details.0, details.1);
                        },
                        None => {},
                    }
                }
                claimed = sp.prepare_amount;
                proof {
                    assert(reply_accepted(
                        shared_secret@,
                        reply_data(*reply),
                        sequence,
                        outer_fulfill,
                    ));
                    assert(claimed == claimed_amount_of(
                        shared_secret@,
                        reply_data(*reply),
                        sequence,
                        outer_fulfill,
                    ));
                }
            }
        },
        None => {
            proof {
                assert(!reply_accepted(
                    shared_secret@,
                    reply_data(*reply),
                    sequence,
                    outer_fulfill,
                ));
            }
        },
    }
    match reply {
        Ok(_) => {
            let delivered = if min_destination_amount > claimed {
                min_destination_amount
            } else {
                claimed
            };
            payment.apply_fulfill(source_amount, delivered, now_millis);
            Ok(())
        },
        Err(reject) => {
            payment.apply_reject(source_amount, reject.code);
            let code = reject.code;
            let absorb = match code.class() {
                ErrorClass::Temporary => true,
                _ => code.amount_too_large_code() || code.application_error_code(),
            };
            if absorb {
                Ok(())
            } else {
                Err(
                    Error::SendMoneyError {
                        message: "packet was rejected with a final error".to_owned(),
                        reject_code: Some(code),
                        reject_message: copy_bytes(&reject.message),
                    },
                )
            }
        },
    }
}

/// Compares two byte strings.
pub fn bytes_eq(a: &Vec<u8>, b: &Vec<u8>) -> (r: bool)
    ensures
        r == (a@ == b@),
{
    if a.len() != b.len() {
        proof {
            assert(a@.len() != b@.len());
        }
        return false;
    }
    let mut i: usize = 0;
    while i < a.len()
        invariant
            i <= a@.len(),
            a@.len() == b@.len(),
            forall|j: int| 0 <= j < i ==> a@[j] == b@[j],
        decreases a@.len() - i,
    {
        if a[i] != b[i] {
            return false;
        }
        i = i + 1;
    }
    proof {
        assert(a@ =~= b@);
    }
    true
}

/// The minimum destination amount from two prices. Zero when the
/// destination price is zero: no finite rate exists, so the packet
/// must be unfulfillable.
pub fn min_dest_from_prices(
    source_amount: u64,
    source_price: Price,
    dest_price: Price,
    slippage_bp: u16,
    src_scale: u8,
    dst_scale: u8,
) -> (r: u64)
    requires
        crate::rate::price_wf(source_price),
        crate::rate::price_wf(dest_price),
        slippage_bp <= 10000,
    ensures
        dest_price.num == 0 ==> r == 0,
        dest_price.num >= 1 ==> r as int == sat64(
            min_dest_spec(
                source_amount,
                ((source_price.num as int) * (dest_price.den as int)) as u64,
                ((source_price.den as int) * (dest_price.num as int)) as u64,
                slippage_bp,
                src_scale,
                dst_scale,
            ),
        ),
{
    if dest_price.num == 0 {
        return 0;
    }
    proof {
        assert((source_price.num as int) * (dest_price.den as int) <= 0xFFFF_FFFFint
            * 0xFFFF_FFFFint) by (nonlinear_arith)
            requires
                source_price.num <= 0xFFFF_FFFFu32,
                dest_price.den <= 0xFFFF_FFFFu32,
        ;
        assert((source_price.den as int) * (dest_price.num as int) <= 0xFFFF_FFFFint
            * 0xFFFF_FFFFint) by (nonlinear_arith)
            requires
                source_price.den <= 0xFFFF_FFFFu32,
                dest_price.num <= 0xFFFF_FFFFu32,
        ;
        assert((source_price.den as int) * (dest_price.num as int) >= 1) by (nonlinear_arith)
            requires
                source_price.den >= 1,
                dest_price.num >= 1,
        ;
    }
    let rate_num: u64 = (source_price.num as u64) * (dest_price.den as u64);
    let rate_den: u64 = (source_price.den as u64) * (dest_price.num as u64);
    min_destination_amount(source_amount, rate_num, rate_den, slippage_bp, src_scale, dst_scale)
}

/// Builds the best-effort closing Prepare: unfulfillable, carrying a
/// connection-close frame, for no money.
pub fn build_connection_close(
    payment: &mut StreamPayment,
    shared_secret: &Vec<u8>,
    expiry_digits: Vec<u8>,
    condition: Vec<u8>,
) -> (r: Prepare)
    requires
        old(payment).wf(),
        old(payment).sequence < u64::MAX,
        expiry_digits@.len() == 17,
        condition@.len() == 32,
    ensures
        final(payment).wf(),
        final(payment).receipt == old(payment).receipt,
        final(payment).sequence == old(payment).sequence + 1,
        final(payment).fulfilled_packets == old(payment).fulfilled_packets,
        final(payment).rejected_packets == old(payment).rejected_packets,
        final(payment).should_send_source_account == old(payment).should_send_source_account,
        final(payment).last_fulfill_time_millis == old(payment).last_fulfill_time_millis,
        final(payment).congestion_controller == old(payment).congestion_controller,
        r.amount == 0,
        r.destination@ == old(payment).receipt.to@,
        r.execution_condition@ == condition@,
        r.expires_at@ == expiry_digits@,
        stream_decrypt_of(shared_secret@, r.data@) == Some(
            enc_stream_packet(
                StreamPacketV {
                    ilp_packet_type: IlpPacketType::Prepare,
                    prepare_amount: 0,
                    sequence: old(payment).sequence,
                    frames: seq![FrameV::ConnectionClose { code: 1, message: Seq::empty() }],
                },
            ),
        ),
{
    let sequence = payment.next_sequence();
    let mut frames: Vec<Frame> = Vec::new();
    frames.push(Frame::ConnectionClose { code: 1, message: Vec::new() });
    let packet = StreamPacket {
        ilp_packet_type: IlpPacketType::Prepare,
        prepare_amount: 0,
        sequence,
        frames,
    };
    proof {
        assert(packet@.frames =~= seq![FrameV::ConnectionClose { code: 1, message: Seq::empty() }]);
        lemma_sender_packet_len(packet@);
    }
    let data = encrypt_stream_packet(shared_secret, &packet);
    Prepare {
        destination: payment.receipt.to.clone_addr(),
        amount: 0,
        expires_at: expiry_digits,
        execution_condition: condition,
        data,
    }
}

/// Does this pair of real prices give exactly this minimum under the
/// given parameters?
pub open spec fn price_pair_gives(
    r: u64,
    source_amount: u64,
    slippage_bp: u16,
    src_scale: u8,
    dst_scale: u8,
    source_price: Price,
    dest_price: Price,
) -> bool {
    &&& crate::rate::price_wf(source_price)
    &&& crate::rate::price_wf(dest_price)
    &&& dest_price.num >= 1
    &&& r as int == sat64(
        min_dest_spec(
            source_amount,
            ((source_price.num as int) * (dest_price.den as int)) as u64,
            ((source_price.den as int) * (dest_price.num as int)) as u64,
            slippage_bp,
            src_scale,
            dst_scale,
        ),
    )
}

/// The minimum destination amount for a packet under the given
/// receipt: zero while the destination asset details or the rate are
/// unknown; the exact converted amount when both assets are the same;
/// otherwise the exact amount some pair of real prices gives.
pub fn min_destination_for_receipt<S: ExchangeRateStore>(
    receipt: &StreamDelivery,
    store: &S,
    slippage_bp: u16,
    source_amount: u64,
) -> (r: u64)
    requires
        slippage_bp <= 10000,
    ensures
        (receipt.destination_asset_code is None || receipt.destination_asset_scale is None) ==> r
            == 0,
        (receipt.destination_asset_code is Some && receipt.destination_asset_scale is Some
            && receipt.destination_asset_code->Some_0@ == receipt.source_asset_code@) ==> r as int
            == sat64(
            min_dest_spec(
                source_amount,
                1,
                1,
                slippage_bp,
                receipt.source_asset_scale,
                receipt.destination_asset_scale->Some_0,
            ),
        ),
        r == 0 || (exists|p1: Price, p2: Price|
            #[trigger] price_pair_gives(
                r,
                source_amount,
                slippage_bp,
                receipt.source_asset_scale,
                receipt.destination_asset_scale->Some_0,
                p1,
                p2,
            )),
{
    let dest_scale = match receipt.destination_asset_scale {
        Some(s) => s,
        None => {
            return 0;
        },
    };
    let dest_code = match &receipt.destination_asset_code {
        Some(c) => c,
        None => {
            return 0;
        },
    };
    if bytes_eq(&receipt.source_asset_code, dest_code) {
        let r = min_destination_amount(
            source_amount,
            1,
            1,
            slippage_bp,
            receipt.source_asset_scale,
            dest_scale,
        );
        proof {
            let unit = Price { num: 1, den: 1 };
            assert(price_pair_gives(
                r,
                source_amount,
                slippage_bp,
                receipt.source_asset_scale,
                dest_scale,
                unit,
                unit,
            ));
        }
        r
    } else {
        match store.get_exchange_rates(&receipt.source_asset_code, dest_code) {
            Some(prices) => {
                let r = min_dest_from_prices(
                    source_amount,
                    prices.0,
                    prices.1,
                    slippage_bp,
                    receipt.source_asset_scale,
                    dest_scale,
                );
                proof {
                    if prices.1.num >= 1 {
                        assert(price_pair_gives(
                            r,
                            source_amount,
                            slippage_bp,
                            receipt.source_asset_scale,
                            dest_scale,
                            prices.0,
                            prices.1,
                        ));
                    }
                }
                r
            },
            None => 0,
        }
    }
}

/// The sender: the next service, the account, the connection secret,
/// the rate store and the payment state.
pub struct StreamSender<I: IncomingService, S: ExchangeRateStore> {
    /// Next service to hand Prepares to.
    pub next: I,
    /// The account sending the payment.
    pub from_account: SourceAccount,
    /// Symmetric secret shared with the receiver.
    pub shared_secret: Vec<u8>,
    /// Store of exchange rates for the minimum destination amount.
    pub store: S,
    /// Acceptable slippage below the calculated rate, in basis points.
    pub slippage_bp: u16,
    /// The payment state.
    pub payment: StreamPayment,
}

impl<I: IncomingService, S: ExchangeRateStore> StreamSender<I, S> {
    /// The sender invariants.
    pub open spec fn wf(&self) -> bool {
        &&& self.payment.wf()
        &&& self.slippage_bp <= 10000
        &&& self.payment.receipt.from.wf()
        &&& self.payment.receipt.to.wf()
    }

    /// A fresh copy of the account details.
    fn copy_account(&self) -> (r: SourceAccount)
        ensures
            r.ilp_address@ == self.from_account.ilp_address@,
            r.asset_code@ == self.from_account.asset_code@,
            r.asset_scale == self.from_account.asset_scale,
    {
        SourceAccount {
            ilp_address: self.from_account.ilp_address.clone_addr(),
            asset_code: copy_bytes(&self.from_account.asset_code),
            asset_scale: self.from_account.asset_scale,
        }
    }

    /// The minimum destination amount for a packet of the given source
    /// amount, under the current receipt: zero while the destination
    /// asset details or the rate are unknown; the exact converted
    /// amount when both assets are the same; otherwise what the rate
    /// store's prices give.
    pub fn get_min_destination_amount(&self, source_amount: u64) -> (r: u64)
        requires
            self.wf(),
        ensures
            (self.payment.receipt.destination_asset_code is None
                || self.payment.receipt.destination_asset_scale is None) ==> r == 0,
            (self.payment.receipt.destination_asset_code is Some
                && self.payment.receipt.destination_asset_scale is Some
                && self.payment.receipt.destination_asset_code->Some_0@
                == self.payment.receipt.source_asset_code@) ==> r as int == sat64(
                min_dest_spec(
                    source_amount,
                    1,
                    1,
                    self.slippage_bp,
                    self.payment.receipt.source_asset_scale,
                    self.payment.receipt.destination_asset_scale->Some_0,
                ),
            ),
            r == 0 || (exists|p1: Price, p2: Price|
                #[trigger] price_pair_gives(
                    r,
                    source_amount,
                    self.slippage_bp,
                    self.payment.receipt.source_asset_scale,
                    self.payment.receipt.destination_asset_scale->Some_0,
                    p1,
                    p2,
                )),
    {
        min_destination_for_receipt(&self.payment.receipt, &self.store, self.slippage_bp, source_amount)
    }

    /// Sends one Prepare for the given source amount and applies the
    /// resulting Fulfill or Reject. Whatever the network answers, the
    /// amount leaves flight; only a fulfilled packet keeps it counted
    /// as sent and delivers money.
    pub fn send_money_packet<C: Clock>(&mut self, clock: &mut C, source_amount: u64) -> (r: Result<
        (),
        Error,
    >)
        requires
            old(self).wf(),
            old(self).payment.sequence < u64::MAX,
            source_amount <= old(self).payment.receipt.in_flight_amount,
        ensures
            final(self).wf(),
            final(self).payment.sequence == old(self).payment.sequence + 1,
            final(self).payment.receipt.in_flight_amount == old(
                self,
            ).payment.receipt.in_flight_amount - source_amount,
            (final(self).payment.receipt.sent_amount == old(self).payment.receipt.sent_amount
                || final(self).payment.receipt.sent_amount == old(
                self,
            ).payment.receipt.sent_amount - source_amount),
            final(self).payment.receipt.delivered_amount >= old(
                self,
            ).payment.receipt.delivered_amount,
            final(self).payment.receipt.source_amount == old(self).payment.receipt.source_amount,
            final(self).payment.receipt.from@ == old(self).payment.receipt.from@,
            final(self).payment.receipt.to@ == old(self).payment.receipt.to@,
            final(self).payment.receipt.source_asset_code@ == old(
                self,
            ).payment.receipt.source_asset_code@,
            final(self).payment.receipt.source_asset_scale == old(
                self,
            ).payment.receipt.source_asset_scale,
            final(self).slippage_bp == old(self).slippage_bp,
            final(self).shared_secret@ == old(self).shared_secret@,
            final(self).from_account == old(self).from_account,
            (final(self).payment.congestion_controller.spec_max_in_flight() >= 1 || final(self).payment.congestion_controller.spec_max_in_flight() >= old(self).payment.congestion_controller.spec_max_in_flight()),
            (match final(self).payment.congestion_controller.spec_max_packet_amount() {
                Some(c) => c >= 1 || old(self).payment.congestion_controller.spec_max_packet_amount() == Some(c),
                None => old(self).payment.congestion_controller.spec_max_packet_amount() is None,
            }),
            r matches Err(e) ==> e is SendMoneyError,
            r matches Err(e) ==> (e matches Error::SendMoneyError { reject_code, .. } ==> (
            reject_code matches Some(c) ==> class_of(c) != ErrorClass::Temporary
                && !is_amount_too_large(c) && !is_application_error(c))),
            old(self).payment.receipt.destination_asset_scale is Some ==> {
                &&& final(self).payment.receipt.destination_asset_code == old(
                    self,
                ).payment.receipt.destination_asset_code
                &&& final(self).payment.receipt.destination_asset_scale == old(
                    self,
                ).payment.receipt.destination_asset_scale
            },
            final(self).payment.should_send_source_account ==> old(
                self,
            ).payment.should_send_source_account,
    {
        let now = clock.now_millis();
        let expiry = expiry_digits_after(now);
        let unfulfillable = random_condition();
        let min_destination = self.get_min_destination_amount(source_amount);
        let (prepare, sequence) = build_prepare(
            &mut self.payment,
            &self.shared_secret,
            source_amount,
            min_destination,
            expiry,
            unfulfillable,
        );
        let request = IncomingRequest { from: self.copy_account(), prepare };
        let reply = self.next.handle_request(request);
        let reply_time = clock.now_millis();
        handle_reply(
            &mut self.payment,
            &self.shared_secret,
            sequence,
            source_amount,
            min_destination,
            &reply,
            reply_time,
        )
    }

    /// Tells the recipient the connection is closed, best effort: one
    /// unfulfillable Prepare carrying a close frame, whose reply is
    /// ignored.
    pub fn try_send_connection_close<C: Clock>(&mut self, clock: &mut C)
        requires
            old(self).wf(),
            old(self).payment.sequence < u64::MAX,
        ensures
            final(self).wf(),
            final(self).payment.receipt == old(self).payment.receipt,
            final(self).payment.sequence == old(self).payment.sequence + 1,
            final(self).payment.fulfilled_packets == old(self).payment.fulfilled_packets,
            final(self).payment.rejected_packets == old(self).payment.rejected_packets,
    {
        let now = clock.now_millis();
        let expiry = expiry_digits_after(now);
        let condition = random_condition();
        let prepare = build_connection_close(&mut self.payment, &self.shared_secret, expiry, condition);
        let request = IncomingRequest { from: self.copy_account(), prepare };
        let _ = self.next.handle_request(request);
    }
}

/// Sends the given source amount to the destination with packetized
/// conditional transfers under the shared secret, and returns the
/// receipt. Success means the whole intended amount was fulfilled:
/// nothing is left in flight and the sent amount equals the intended
/// amount.
///
/// Packets go out one at a time, so between packets nothing is in
/// flight and the congestion window always has room: of the four
/// events a sender can face — send more money, wait for the window,
/// close the connection, or time out — the wait never fires here. A
/// driver that keeps many packets in flight builds the same packets
/// with `build_prepare` and applies replies with `handle_reply`.
pub fn send_money<I: IncomingService, C: Clock, S: ExchangeRateStore>(
    service: I,
    clock: &mut C,
    from_account: &SourceAccount,
    destination_account: Address,
    shared_secret: &Vec<u8>,
    source_amount: u64,
    store: S,
) -> (r: Result<StreamDelivery, Error>)
    requires
        from_account.ilp_address.wf(),
        destination_account.wf(),
    ensures
        r matches Ok(receipt) ==> {
            &&& receipt.source_amount == source_amount
            &&& receipt.sent_amount == source_amount
            &&& receipt.in_flight_amount == 0
            &&& receipt.from@ == from_account.ilp_address@
            &&& receipt.to@ == destination_account@
            &&& receipt.source_asset_code@ == from_account.asset_code@
            &&& receipt.source_asset_scale == from_account.asset_scale
        },
        r matches Err(e) ==> (e is TimeoutError || e is SendMoneyError),
        r matches Err(e) ==> (e matches Error::SendMoneyError { reject_code, .. } ==> (
        reject_code matches Some(c) ==> class_of(c) != ErrorClass::Temporary
            && !is_amount_too_large(c) && !is_application_error(c))),
{
    let now0 = clock.now_millis();
    let ghost dest_view = destination_account@;
    let payment = StreamPayment::new(
        from_account.ilp_address.clone_addr(),
        destination_account.clone_addr(),
        copy_bytes(&from_account.asset_code),
        from_account.asset_scale,
        source_amount,
        now0,
    );
    let mut sender = StreamSender {
        next: service,
        from_account: SourceAccount {
            ilp_address: from_account.ilp_address.clone_addr(),
            asset_code: copy_bytes(&from_account.asset_code),
            asset_scale: from_account.asset_scale,
        },
        shared_secret: copy_bytes(shared_secret),
        store,
        slippage_bp: DEFAULT_SLIPPAGE_BP,
        payment,
    };
    loop
        invariant
            sender.wf(),
            sender.payment.receipt.in_flight_amount == 0,
            sender.payment.receipt.source_amount == source_amount,
            sender.payment.receipt.from@ == from_account.ilp_address@,
            sender.payment.receipt.to@ == dest_view,
            dest_view == destination_account@,
            sender.payment.receipt.source_asset_code@ == from_account.asset_code@,
            sender.payment.receipt.source_asset_scale == from_account.asset_scale,
            (sender.payment.congestion_controller.spec_max_in_flight() >= 1 || sender.payment.congestion_controller.spec_max_in_flight() == source_amount),
            (match sender.payment.congestion_controller.spec_max_packet_amount() {
                Some(c) => c >= 1,
                None => true,
            }),
        decreases u64::MAX - sender.payment.sequence,
    {
        let now = clock.now_millis();
        match next_event(&mut sender.payment, now) {
            PaymentEvent::Timeout => {
                return Err(
                    Error::TimeoutError {
                        message: "too long since a packet was last fulfilled".to_owned(),
                    },
                );
            },
            PaymentEvent::CloseConnection => {
                if sender.payment.sequence < u64::MAX {
                    sender.try_send_connection_close(clock);
                }
                return Ok(sender.payment.receipt.clone_receipt());
            },
            PaymentEvent::MaxInFlight => {
                // One packet at a time: between packets nothing is in
                // flight, so the window always has room.
                proof {
                    assert(false);
                }
            },
            PaymentEvent::SendMoney(amount) => {
                if sender.payment.sequence == u64::MAX {
                    return Err(
                        Error::SendMoneyError {
                            message: "the connection's sequence numbers are spent".to_owned(),
                            reject_code: None,
                            reject_message: Vec::new(),
                        },
                    );
                }
                match sender.send_money_packet(clock, amount) {
                    Ok(()) => {},
                    Err(error) => {
                        return Err(error);
                    },
                }
            },
        }
    }
}

} // verus!
