//! The mutable state of one payment: the receipt of amounts sent and
//! delivered, the sequence counter, packet counts and flow control.
//! Every mutation keeps the payment invariants: the sent amount never
//! exceeds the intended source amount, the in-flight amount never
//! exceeds the sent amount, and sequence numbers run 1, 2, 3, … with no
//! gaps or duplicates.

use vstd::prelude::*;
use crate::addr::Address;
use crate::congestion::CongestionController;
use crate::ilp::{ErrorCode};

verus! {

/// The receipt of a payment: what was intended, sent, in flight and
/// delivered, and the asset details of both ends.
#[derive(Debug, Clone, PartialEq, Eq)]
pub struct StreamDelivery {
    /// Sender's ILP address.
    pub from: Address,
    /// Receiver's ILP address.
    pub to: Address,
    /// Asset scale of the sender.
    pub source_asset_scale: u8,
    /// Asset code of the sender, as ASCII bytes.
    pub source_asset_code: Vec<u8>,
    /// Total amount intended to be sent, in source units.
    pub source_amount: u64,
    /// Amount fulfilled or currently in flight, in source units.
    pub sent_amount: u64,
    /// Amount yet to be fulfilled or rejected, in source units.
    pub in_flight_amount: u64,
    /// Amount the receiver acknowledged, in destination units.
    pub delivered_amount: u64,
    /// Receiver's asset scale, once a `ConnectionAssetDetails` frame
    /// arrived.
    pub destination_asset_scale: Option<u8>,
    /// Receiver's asset code, once a `ConnectionAssetDetails` frame
    /// arrived.
    pub destination_asset_code: Option<Vec<u8>>,
}

impl StreamDelivery {
    /// A fresh copy of the receipt.
    pub fn clone_receipt(&self) -> (r: StreamDelivery)
        ensures
            r.from@ == self.from@,
            r.to@ == self.to@,
            r.source_asset_scale == self.source_asset_scale,
            r.source_asset_code@ == self.source_asset_code@,
            r.source_amount == self.source_amount,
            r.sent_amount == self.sent_amount,
            r.in_flight_amount == self.in_flight_amount,
            r.delivered_amount == self.delivered_amount,
            r.destination_asset_scale == self.destination_asset_scale,
            (match self.destination_asset_code {
                Some(c) => r.destination_asset_code matches Some(rc) && rc@ == c@,
                None => r.destination_asset_code is None,
            }),
    {
        let destination_asset_code = match &self.destination_asset_code {
            Some(c) => Some(crate::copy_bytes(c)),
            None => None,
        };
        StreamDelivery {
            from: self.from.clone_addr(),
            to: self.to.clone_addr(),
            source_asset_scale: self.source_asset_scale,
            source_asset_code: crate::copy_bytes(&self.source_asset_code),
            source_amount: self.source_amount,
            sent_amount: self.sent_amount,
            in_flight_amount: self.in_flight_amount,
            delivered_amount: self.delivered_amount,
            destination_asset_scale: self.destination_asset_scale,
            destination_asset_code,
        }
    }
}

/// The mutable payment state.
pub struct StreamPayment {
    /// Flow control for the in-flight amount.
    pub congestion_controller: CongestionController,
    /// The receipt accounting for the amounts.
    pub receipt: StreamDelivery,
    /// Must the sender still announce its address to the peer?
    pub should_send_source_account: bool,
    /// The next sequence number to assign.
    pub sequence: u64,
    /// How many packets were fulfilled.
    pub fulfilled_packets: u64,
    /// How many packets were rejected.
    pub rejected_packets: u64,
    /// When a packet was last fulfilled, in milliseconds.
    pub last_fulfill_time_millis: u64,
    /// Every sequence number assigned so far, in order.
    pub assigned: Ghost<Seq<u64>>,
}

impl StreamPayment {
    /// The payment invariants.
    pub open spec fn wf(&self) -> bool {
        &&& self.receipt.sent_amount <= self.receipt.source_amount
        &&& self.receipt.in_flight_amount <= self.receipt.sent_amount
        &&& self.congestion_controller.spec_in_flight() == self.receipt.in_flight_amount
        &&& self.sequence >= 1
        &&& self.assigned@.len() == self.sequence - 1
        &&& forall|i: int| 0 <= i < self.assigned@.len() ==> self.assigned@[i] == i + 1
    }

    /// The cumulative fulfilled source amount: what was sent and is no
    /// longer in flight.
    pub open spec fn spec_fulfilled_amount(&self) -> int {
        self.receipt.sent_amount - self.receipt.in_flight_amount
    }

    /// A fresh payment over the given endpoints and amount.
    pub fn new(
        from: Address,
        to: Address,
        source_asset_code: Vec<u8>,
        source_asset_scale: u8,
        source_amount: u64,
        now_millis: u64,
    ) -> (r: StreamPayment)
        ensures
            r.wf(),
            r.receipt.from == from,
            r.receipt.to == to,
            r.receipt.source_asset_code == source_asset_code,
            r.receipt.source_asset_scale == source_asset_scale,
            r.receipt.source_amount == source_amount,
            r.receipt.sent_amount == 0,
            r.receipt.in_flight_amount == 0,
            r.receipt.delivered_amount == 0,
            r.receipt.destination_asset_scale is None,
            r.receipt.destination_asset_code is None,
            r.should_send_source_account,
            r.sequence == 1,
            r.fulfilled_packets == 0,
            r.rejected_packets == 0,
            r.last_fulfill_time_millis == now_millis,
            r.assigned@ == Seq::<u64>::empty(),
            r.congestion_controller.spec_max_in_flight() == source_amount,
            r.congestion_controller.spec_slow_start(),
            r.congestion_controller.spec_max_packet_amount() is None,
            r.congestion_controller.spec_increase_amount() == source_amount / 10,
    {
        StreamPayment {
            congestion_controller: CongestionController::new(source_amount, source_amount / 10),
            receipt: StreamDelivery {
                from,
                to,
                source_asset_scale,
                source_asset_code,
                source_amount,
                sent_amount: 0,
                in_flight_amount: 0,
                delivered_amount: 0,
                destination_asset_scale: None,
                destination_asset_code: None,
            },
            should_send_source_account: true,
            sequence: 1,
            fulfilled_packets: 0,
            rejected_packets: 0,
            last_fulfill_time_millis: now_millis,
            assigned: Ghost(Seq::empty()),
        }
    }

    /// Accounts for the next Prepare and returns the amount it carries:
    /// what remains to send, within the congestion window.
    pub fn apply_prepare(&mut self) -> (amount: u64)
        requires
            old(self).wf(),
        ensures
            final(self).wf(),
            amount as int == ({
                let avail = old(self).receipt.source_amount - old(self).receipt.sent_amount;
                let room = old(self).congestion_controller.spec_max_amount();
                if avail < room {
                    avail
                } else {
                    room
                }
            }),
            final(self).receipt.sent_amount == old(self).receipt.sent_amount + amount,
            final(self).receipt.in_flight_amount == old(self).receipt.in_flight_amount + amount,
            final(self).spec_fulfilled_amount() == old(self).spec_fulfilled_amount(),
            final(self).receipt.source_amount == old(self).receipt.source_amount,
            final(self).receipt.delivered_amount == old(self).receipt.delivered_amount,
            final(self).receipt.from == old(self).receipt.from,
            final(self).receipt.to == old(self).receipt.to,
            final(self).receipt.source_asset_code == old(self).receipt.source_asset_code,
            final(self).receipt.source_asset_scale == old(self).receipt.source_asset_scale,
            final(self).receipt.destination_asset_code == old(self).receipt.destination_asset_code,
            final(self).receipt.destination_asset_scale == old(
                self,
            ).receipt.destination_asset_scale,
            final(self).sequence == old(self).sequence,
            final(self).assigned@ == old(self).assigned@,
            final(self).should_send_source_account == old(self).should_send_source_account,
            final(self).fulfilled_packets == old(self).fulfilled_packets,
            final(self).rejected_packets == old(self).rejected_packets,
            final(self).last_fulfill_time_millis == old(self).last_fulfill_time_millis,
            final(self).congestion_controller.spec_max_in_flight() == old(
                self,
            ).congestion_controller.spec_max_in_flight(),
            final(self).congestion_controller.spec_max_packet_amount() == old(
                self,
            ).congestion_controller.spec_max_packet_amount(),
    {
        let available = self.receipt.source_amount - self.receipt.sent_amount;
        let room = self.congestion_controller.get_max_amount();
        let amount = if available < room {
            available
        } else {
            room
        };
        self.congestion_controller.prepare(amount);
        self.receipt.sent_amount = self.receipt.sent_amount + amount;
        self.receipt.in_flight_amount = self.receipt.in_flight_amount + amount;
        amount
    }

    /// Accounts for a fulfilled packet: releases the in-flight amount,
    /// adds the delivered amount (saturating), counts the packet and
    /// remembers the fulfill time.
    pub fn apply_fulfill(&mut self, source_amount: u64, destination_amount: u64, now_millis: u64)
        requires
            old(self).wf(),
            source_amount <= old(self).receipt.in_flight_amount,
        ensures
            final(self).wf(),
            final(self).receipt.in_flight_amount == old(self).receipt.in_flight_amount
                - source_amount,
            final(self).receipt.sent_amount == old(self).receipt.sent_amount,
            final(self).receipt.delivered_amount as int == ({
                let sum = old(self).receipt.delivered_amount + destination_amount;
                if sum > u64::MAX {
                    u64::MAX as int
                } else {
                    sum
                }
            }),
            final(self).spec_fulfilled_amount() == old(self).spec_fulfilled_amount()
                + source_amount,
            final(self).fulfilled_packets as int == ({
                if old(self).fulfilled_packets == u64::MAX {
                    u64::MAX as int
                } else {
                    old(self).fulfilled_packets + 1
                }
            }),
            final(self).last_fulfill_time_millis == now_millis,
            final(self).receipt.source_amount == old(self).receipt.source_amount,
            final(self).receipt.from == old(self).receipt.from,
            final(self).receipt.to == old(self).receipt.to,
            final(self).receipt.source_asset_code == old(self).receipt.source_asset_code,
            final(self).receipt.source_asset_scale == old(self).receipt.source_asset_scale,
            final(self).receipt.destination_asset_code == old(self).receipt.destination_asset_code,
            final(self).receipt.destination_asset_scale == old(
                self,
            ).receipt.destination_asset_scale,
            final(self).sequence == old(self).sequence,
            final(self).assigned@ == old(self).assigned@,
            final(self).should_send_source_account == old(self).should_send_source_account,
            final(self).rejected_packets == old(self).rejected_packets,
            final(self).congestion_controller.spec_max_in_flight() >= old(
                self,
            ).congestion_controller.spec_max_in_flight(),
            final(self).congestion_controller.spec_max_packet_amount() == old(
                self,
            ).congestion_controller.spec_max_packet_amount(),
    {
        self.congestion_controller.fulfill(source_amount);
        self.receipt.in_flight_amount = self.receipt.in_flight_amount - source_amount;
        if self.receipt.delivered_amount > u64::MAX - destination_amount {
            self.receipt.delivered_amount = u64::MAX;
        } else {
            self.receipt.delivered_amount = self.receipt.delivered_amount + destination_amount;
        }
        self.last_fulfill_time_millis = now_millis;
        if self.fulfilled_packets < u64::MAX {
            self.fulfilled_packets = self.fulfilled_packets + 1;
        }
    }

    /// Accounts for a rejected packet: the amount neither counts as
    /// sent nor stays in flight, and flow control reacts to the code.
    pub fn apply_reject(&mut self, amount: u64, code: ErrorCode)
        requires
            old(self).wf(),
            amount <= old(self).receipt.in_flight_amount,
        ensures
            final(self).wf(),
            final(self).receipt.sent_amount == old(self).receipt.sent_amount - amount,
            final(self).receipt.in_flight_amount == old(self).receipt.in_flight_amount - amount,
            final(self).spec_fulfilled_amount() == old(self).spec_fulfilled_amount(),
            final(self).receipt.delivered_amount == old(self).receipt.delivered_amount,
            final(self).rejected_packets as int == ({
                if old(self).rejected_packets == u64::MAX {
                    u64::MAX as int
                } else {
                    old(self).rejected_packets + 1
                }
            }),
            final(self).receipt.source_amount == old(self).receipt.source_amount,
            final(self).receipt.from == old(self).receipt.from,
            final(self).receipt.to == old(self).receipt.to,
            final(self).receipt.source_asset_code == old(self).receipt.source_asset_code,
            final(self).receipt.source_asset_scale == old(self).receipt.source_asset_scale,
            final(self).receipt.destination_asset_code == old(self).receipt.destination_asset_code,
            final(self).receipt.destination_asset_scale == old(
                self,
            ).receipt.destination_asset_scale,
            final(self).sequence == old(self).sequence,
            final(self).assigned@ == old(self).assigned@,
            final(self).should_send_source_account == old(self).should_send_source_account,
            final(self).fulfilled_packets == old(self).fulfilled_packets,
            final(self).last_fulfill_time_millis == old(self).last_fulfill_time_millis,
            (final(self).congestion_controller.spec_max_in_flight() >= 1 || final(self).congestion_controller.spec_max_in_flight() == old(self).congestion_controller.spec_max_in_flight()),
            (match final(self).congestion_controller.spec_max_packet_amount() {
                Some(c) => c >= 1 || old(self).congestion_controller.spec_max_packet_amount()
                    == Some(c),
                None => old(self).congestion_controller.spec_max_packet_amount() is None,
            }),
    {
        self.congestion_controller.reject(amount, code);
        self.receipt.sent_amount = self.receipt.sent_amount - amount;
        self.receipt.in_flight_amount = self.receipt.in_flight_amount - amount;
        if self.rejected_packets < u64::MAX {
            self.rejected_packets = self.rejected_packets + 1;
        }
    }

    /// Saves the receiver's asset details for rate calculation.
    pub fn set_destination_asset_details(&mut self, asset_code: Vec<u8>, asset_scale: u8)
        requires
            old(self).wf(),
        ensures
            final(self).wf(),
            final(self).receipt.destination_asset_code == Some(asset_code),
            final(self).receipt.destination_asset_scale == Some(asset_scale),
            final(self).congestion_controller == old(self).congestion_controller,
            final(self).receipt.sent_amount == old(self).receipt.sent_amount,
            final(self).receipt.in_flight_amount == old(self).receipt.in_flight_amount,
            final(self).receipt.delivered_amount == old(self).receipt.delivered_amount,
            final(self).receipt.source_amount == old(self).receipt.source_amount,
            final(self).receipt.from == old(self).receipt.from,
            final(self).receipt.to == old(self).receipt.to,
            final(self).receipt.source_asset_code == old(self).receipt.source_asset_code,
            final(self).receipt.source_asset_scale == old(self).receipt.source_asset_scale,
            final(self).sequence == old(self).sequence,
            final(self).assigned@ == old(self).assigned@,
            final(self).should_send_source_account == old(self).should_send_source_account,
            final(self).fulfilled_packets == old(self).fulfilled_packets,
            final(self).rejected_packets == old(self).rejected_packets,
            final(self).last_fulfill_time_millis == old(self).last_fulfill_time_millis,
    {
        self.receipt.destination_asset_code = Some(asset_code);
        self.receipt.destination_asset_scale = Some(asset_scale);
    }

    /// Assigns the next sequence number: they run 1, 2, 3, … with no
    /// gaps or duplicates.
    pub fn next_sequence(&mut self) -> (seq: u64)
        requires
            old(self).wf(),
            old(self).sequence < u64::MAX,
        ensures
            final(self).wf(),
            seq == old(self).sequence,
            final(self).sequence == old(self).sequence + 1,
            final(self).assigned@ == old(self).assigned@.push(seq),
            final(self).receipt == old(self).receipt,
            final(self).should_send_source_account == old(self).should_send_source_account,
            final(self).fulfilled_packets == old(self).fulfilled_packets,
            final(self).rejected_packets == old(self).rejected_packets,
            final(self).last_fulfill_time_millis == old(self).last_fulfill_time_millis,
            final(self).congestion_controller == old(self).congestion_controller,
    {
        let seq = self.sequence;
        self.sequence = self.sequence + 1;
        self.assigned = Ghost(self.assigned@.push(seq));
        seq
    }

    /// What remains to be sent, in source units.
    pub fn get_amount_available_to_send(&self) -> (r: u64)
        requires
            self.wf(),
        ensures
            r == self.receipt.source_amount - self.receipt.sent_amount,
    {
        self.receipt.source_amount - self.receipt.sent_amount
    }

    /// Has the whole intended amount been fulfilled?
    pub fn is_complete(&self) -> (r: bool)
        requires
            self.wf(),
        ensures
            r == (self.spec_fulfilled_amount() >= self.receipt.source_amount),
            r ==> self.receipt.in_flight_amount == 0 && self.receipt.sent_amount
                == self.receipt.source_amount,
    {
        self.receipt.sent_amount - self.receipt.in_flight_amount >= self.receipt.source_amount
    }

    /// Is the congestion window full?
    pub fn is_max_in_flight(&self) -> (r: bool)
        ensures
            r == (self.congestion_controller.spec_max_amount() == 0),
    {
        self.congestion_controller.get_max_amount() == 0
    }
}

/// At every stable point of a payment, the sent amount never exceeds
/// the intended source amount, and the in-flight amount never exceeds
/// the sent amount; so the in-flight amount always returns to zero by
/// the time the whole intention is fulfilled.
pub proof fn lemma_amount_bounds(p: StreamPayment)
    requires
        p.wf(),
    ensures
        p.receipt.sent_amount <= p.receipt.source_amount,
        p.receipt.in_flight_amount <= p.receipt.sent_amount,
        p.spec_fulfilled_amount() >= p.receipt.source_amount ==> p.receipt.in_flight_amount == 0
            && p.receipt.sent_amount == p.receipt.source_amount,
{
}

/// The sequence numbers assigned over a payment's whole life form
/// 1, 2, 3, … in order, with no gaps and no duplicates.
pub proof fn lemma_sequence_numbers(p: StreamPayment)
    requires
        p.wf(),
    ensures
        forall|i: int| 0 <= i < p.assigned@.len() ==> p.assigned@[i] == i + 1,
        forall|i: int, j: int|
            0 <= i < j < p.assigned@.len() ==> #[trigger] p.assigned@[i] != #[trigger] p.assigned@[
                j
            ],
{
    assert(forall|i: int| 0 <= i < p.assigned@.len() ==> p.assigned@[i] == i + 1);
}

} // verus!
