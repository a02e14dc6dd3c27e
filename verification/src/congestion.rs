//! Congestion control over the source amount in flight: a window that
//! grows multiplicatively while the connection is in slow start and
//! additively afterwards, shrinks multiplicatively on temporary
//! failures, and learns a per-packet cap from amount-too-large rejects.

use vstd::prelude::*;
use crate::ilp::{class_of, is_amount_too_large, ErrorClass, ErrorCode};

verus! {

/// Flow control state for one payment.
#[derive(Debug, Clone, PartialEq, Eq)]
pub struct CongestionController {
    increase_amount: u64,
    amount_in_flight: u64,
    max_in_flight: u64,
    max_packet_amount: Option<u64>,
    slow_start: bool,
}

impl CongestionController {
    /// The source amount currently reserved by in-flight packets.
    pub closed spec fn spec_in_flight(&self) -> u64 {
        self.amount_in_flight
    }

    /// The window: the most that may be in flight at once.
    pub closed spec fn spec_max_in_flight(&self) -> u64 {
        self.max_in_flight
    }

    /// The per-packet cap learned from amount-too-large rejects.
    pub closed spec fn spec_max_packet_amount(&self) -> Option<u64> {
        self.max_packet_amount
    }

    /// Whether the window still grows multiplicatively.
    pub closed spec fn spec_slow_start(&self) -> bool {
        self.slow_start
    }

    /// The additive window increment outside slow start.
    pub closed spec fn spec_increase_amount(&self) -> u64 {
        self.increase_amount
    }

    /// The window room left by the amount in flight.
    pub open spec fn spec_room(&self) -> int {
        if self.spec_in_flight() >= self.spec_max_in_flight() {
            0
        } else {
            self.spec_max_in_flight() - self.spec_in_flight()
        }
    }

    /// What the next Prepare may carry: the window room, capped per
    /// packet. Zero signals that the maximum is in flight.
    pub open spec fn spec_max_amount(&self) -> int {
        match self.spec_max_packet_amount() {
            Some(cap) => if (cap as int) < self.spec_room() {
                cap as int
            } else {
                self.spec_room()
            },
            None => self.spec_room(),
        }
    }

    /// A controller with the given starting window and additive
    /// increment, in slow start, with nothing in flight.
    pub fn new(start_amount: u64, increase_amount: u64) -> (r: CongestionController)
        ensures
            r.spec_in_flight() == 0,
            r.spec_max_in_flight() == start_amount,
            r.spec_max_packet_amount() is None,
            r.spec_slow_start(),
            r.spec_increase_amount() == increase_amount,
    {
        CongestionController {
            increase_amount,
            amount_in_flight: 0,
            max_in_flight: start_amount,
            max_packet_amount: None,
            slow_start: true,
        }
    }

    /// The most the next Prepare may carry right now.
    pub fn get_max_amount(&self) -> (r: u64)
        ensures
            r == self.spec_max_amount(),
    {
        let room = if self.amount_in_flight >= self.max_in_flight {
            0u64
        } else {
            self.max_in_flight - self.amount_in_flight
        };
        match self.max_packet_amount {
            Some(cap) => if cap < room {
                cap
            } else {
                room
            },
            None => room,
        }
    }

    /// Reserves `amount` against the window.
    pub fn prepare(&mut self, amount: u64)
        requires
            amount <= old(self).spec_max_amount(),
        ensures
            final(self).spec_in_flight() == old(self).spec_in_flight() + amount,
            final(self).spec_max_in_flight() == old(self).spec_max_in_flight(),
            final(self).spec_max_packet_amount() == old(self).spec_max_packet_amount(),
            final(self).spec_slow_start() == old(self).spec_slow_start(),
            final(self).spec_increase_amount() == old(self).spec_increase_amount(),
    {
        self.amount_in_flight = self.amount_in_flight + amount;
    }

    /// Releases a fulfilled reservation and grows the window: by the
    /// fulfilled amount during slow start, else by the additive
    /// increment; growth saturates.
    pub fn fulfill(&mut self, amount: u64)
        requires
            amount <= old(self).spec_in_flight(),
        ensures
            final(self).spec_in_flight() == old(self).spec_in_flight() - amount,
            final(self).spec_max_in_flight() as int == ({
                let grow: int = if old(self).spec_slow_start() {
                    amount as int
                } else {
                    old(self).spec_increase_amount() as int
                };
                if old(self).spec_max_in_flight() + grow > u64::MAX {
                    u64::MAX as int
                } else {
                    old(self).spec_max_in_flight() + grow
                }
            }),
            final(self).spec_max_packet_amount() == old(self).spec_max_packet_amount(),
            final(self).spec_slow_start() == old(self).spec_slow_start(),
            final(self).spec_increase_amount() == old(self).spec_increase_amount(),
    {
        self.amount_in_flight = self.amount_in_flight - amount;
        let grow = if self.slow_start {
            amount
        } else {
            self.increase_amount
        };
        if self.max_in_flight > u64::MAX - grow {
            self.max_in_flight = u64::MAX;
        } else {
            self.max_in_flight = self.max_in_flight + grow;
        }
    }

    /// Releases a rejected reservation and reacts to the code: an
    /// amount-too-large reject halves the per-packet cap (never below
    /// one); a temporary reject halves the window (never below one) and
    /// ends slow start; any other final or relative reject leaves the
    /// window alone.
    pub fn reject(&mut self, amount: u64, code: ErrorCode)
        requires
            amount <= old(self).spec_in_flight(),
        ensures
            final(self).spec_in_flight() == old(self).spec_in_flight() - amount,
            final(self).spec_increase_amount() == old(self).spec_increase_amount(),
            is_amount_too_large(code) ==> {
                &&& final(self).spec_max_packet_amount() == Some(
                    if amount / 2 > 1 {
                        amount / 2
                    } else {
                        1u64
                    },
                )
                &&& final(self).spec_max_in_flight() == old(self).spec_max_in_flight()
                &&& final(self).spec_slow_start() == old(self).spec_slow_start()
            },
            !is_amount_too_large(code) && class_of(code) == ErrorClass::Temporary ==> {
                &&& final(self).spec_max_in_flight() == (
                    if old(self).spec_max_in_flight() / 2 > 1 {
                        old(self).spec_max_in_flight() / 2
                    } else {
                        1u64
                    }
                )
                &&& !final(self).spec_slow_start()
                &&& final(self).spec_max_packet_amount() == old(self).spec_max_packet_amount()
            },
            !is_amount_too_large(code) && class_of(code) != ErrorClass::Temporary ==> {
                &&& final(self).spec_max_in_flight() == old(self).spec_max_in_flight()
                &&& final(self).spec_slow_start() == old(self).spec_slow_start()
                &&& final(self).spec_max_packet_amount() == old(self).spec_max_packet_amount()
            },
    {
        self.amount_in_flight = self.amount_in_flight - amount;
        if code.amount_too_large_code() {
            let cap = if amount / 2 > 1 {
                amount / 2
            } else {
                1u64
            };
            self.max_packet_amount = Some(cap);
        } else if code.class() == ErrorClass::Temporary {
            self.slow_start = false;
            self.max_in_flight = if self.max_in_flight / 2 > 1 {
                self.max_in_flight / 2
            } else {
                1u64
            };
        }
    }
}

} // verus!
