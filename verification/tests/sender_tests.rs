//! The sender engine driven against scripted receivers: final errors
//! stop it, timeouts end it, cooperative receivers get paid, and the
//! replay and lying-peer defenses hold.

use std::cell::Cell;
use std::rc::Rc;

use ilp_stream::addr::Address;
use ilp_stream::congestion::CongestionController;
use ilp_stream::crypto::{
    decrypt_stream_packet, encrypt_stream_packet, fulfillment_matches, generate_fulfillment,
};
use ilp_stream::ilp::{ErrorCode, Fulfill, Reject};
use ilp_stream::payment::StreamPayment;
use ilp_stream::rate::{ExchangeRateStore, Price};
use ilp_stream::sender::{
    build_prepare, handle_reply, next_event, send_money, Clock, IncomingRequest, IncomingService,
    PaymentEvent, SourceAccount, StreamSender,
};
use ilp_stream::stream_packet::{Frame, IlpPacketType, StreamPacket};
use ilp_stream::Error;

fn addr(s: &str) -> Address {
    Address::try_from(s.as_bytes().to_vec()).unwrap()
}

fn secret() -> Vec<u8> {
    vec![0u8; 32]
}

fn test_account(code: &str, scale: u8) -> SourceAccount {
    SourceAccount {
        ilp_address: addr("example.sender"),
        asset_code: code.as_bytes().to_vec(),
        asset_scale: scale,
    }
}

struct FakeClock {
    t: u64,
    step: u64,
}

impl Clock for FakeClock {
    fn now_millis(&mut self) -> u64 {
        self.t += self.step;
        self.t
    }
}

struct TestRateStore {
    prices: Option<(Price, Price)>,
}

impl ExchangeRateStore for TestRateStore {
    fn get_exchange_rates(
        &self,
        _source_code: &Vec<u8>,
        _dest_code: &Vec<u8>,
    ) -> Option<(Price, Price)> {
        match self.prices {
            Some((a, b)) => {
                if a.den >= 1 && b.den >= 1 {
                    Some((a, b))
                } else {
                    None
                }
            }
            None => None,
        }
    }
}

/// How the cooperative receiver claims amounts in its replies.
#[derive(Clone, Copy)]
enum Claim {
    /// Claim the full ILP amount that arrived.
    IlpAmount,
    /// Claim exactly the minimum the sender demanded.
    MinDemand,
}

/// A scripted receiver holding the shared secret.
struct Receiver {
    secret: Vec<u8>,
    requests: Rc<Cell<u32>>,
    asset_details: Option<(Vec<u8>, u8)>,
    sent_details: bool,
    max_packet: Option<u64>,
    claim: Claim,
    demands: Rc<Cell<u64>>,
}

impl IncomingService for Receiver {
    fn handle_request(&mut self, request: IncomingRequest) -> Result<Fulfill, Reject> {
        self.requests.set(self.requests.get() + 1);
        let prepare = request.prepare;
        if let Some(cap) = self.max_packet {
            if prepare.amount > cap {
                return Err(Reject {
                    code: ErrorCode::amount_too_large(),
                    triggered_by: None,
                    message: vec![],
                    data: vec![],
                });
            }
        }
        let sp = decrypt_stream_packet(&self.secret, &prepare.data).expect("request decrypts");
        self.demands.set(self.demands.get().max(sp.prepare_amount));
        let fulfillment = generate_fulfillment(&self.secret, &prepare.data);
        let fulfillable = fulfillment_matches(&fulfillment, &prepare.execution_condition);
        let mut frames = Vec::new();
        if let (Some((code, scale)), false) = (&self.asset_details, self.sent_details) {
            frames.push(Frame::ConnectionAssetDetails {
                source_asset_code: code.clone(),
                source_asset_scale: *scale,
            });
            self.sent_details = true;
        }
        if fulfillable {
            let claimed = match self.claim {
                Claim::IlpAmount => prepare.amount,
                Claim::MinDemand => sp.prepare_amount,
            };
            let reply = StreamPacket {
                ilp_packet_type: IlpPacketType::Fulfill,
                prepare_amount: claimed,
                sequence: sp.sequence,
                frames,
            };
            let data = encrypt_stream_packet(&self.secret, &reply);
            Ok(Fulfill { fulfillment, data })
        } else {
            let reply = StreamPacket {
                ilp_packet_type: IlpPacketType::Reject,
                prepare_amount: 0,
                sequence: sp.sequence,
                frames,
            };
            let data = encrypt_stream_packet(&self.secret, &reply);
            Err(Reject {
                code: ErrorCode::application_error(),
                triggered_by: None,
                message: vec![],
                data,
            })
        }
    }
}

/// A service that always rejects with a final error.
struct FinalRejecter {
    requests: Rc<Cell<u32>>,
}

impl IncomingService for FinalRejecter {
    fn handle_request(&mut self, _request: IncomingRequest) -> Result<Fulfill, Reject> {
        self.requests.set(self.requests.get() + 1);
        Err(Reject {
            code: ErrorCode::bad_request(),
            triggered_by: None,
            message: b"just some final error".to_vec(),
            data: vec![],
        })
    }
}

/// A service that always rejects temporarily, with no readable reply.
struct TemporaryRejecter;

impl IncomingService for TemporaryRejecter {
    fn handle_request(&mut self, _request: IncomingRequest) -> Result<Fulfill, Reject> {
        Err(Reject {
            code: ErrorCode::internal_error(),
            triggered_by: None,
            message: vec![],
            data: vec![],
        })
    }
}

#[test]
fn stops_at_final_errors() {
    let requests = Rc::new(Cell::new(0));
    let service = FinalRejecter { requests: requests.clone() };
    let mut clock = FakeClock { t: 0, step: 1 };
    let result = send_money(
        service,
        &mut clock,
        &test_account("XYZ", 9),
        addr("example.destination"),
        &secret(),
        100,
        TestRateStore { prices: None },
    );
    assert!(result.is_err());
    let error = result.unwrap_err();
    match &error {
        Error::SendMoneyError { reject_code, reject_message, .. } => {
            assert_eq!(*reject_code, Some(ErrorCode::bad_request()));
            assert_eq!(reject_message, b"just some final error");
        }
        other => panic!("expected a send-money error, got {:?}", other),
    }
    assert_eq!(requests.get(), 1);
}

#[test]
fn happy_path_same_asset() {
    let requests = Rc::new(Cell::new(0));
    let demands = Rc::new(Cell::new(0));
    let receiver = Receiver {
        secret: secret(),
        requests: requests.clone(),
        asset_details: Some((b"XYZ".to_vec(), 9)),
        sent_details: false,
        max_packet: None,
        claim: Claim::IlpAmount,
        demands: demands.clone(),
    };
    let mut clock = FakeClock { t: 0, step: 1 };
    let result = send_money(
        receiver,
        &mut clock,
        &test_account("XYZ", 9),
        addr("example.destination"),
        &secret(),
        100,
        TestRateStore { prices: None },
    )
    .expect("payment succeeds");
    assert_eq!(result.source_amount, 100);
    assert_eq!(result.sent_amount, 100);
    assert_eq!(result.in_flight_amount, 0);
    assert_eq!(result.delivered_amount, 100);
    assert_eq!(result.destination_asset_code, Some(b"XYZ".to_vec()));
    assert_eq!(result.destination_asset_scale, Some(9));
}

#[test]
fn packetized_payment_with_amount_cap() {
    // The receiver refuses packets above 25, so the controller shrinks
    // the packet size until everything fits, over several packets.
    let requests = Rc::new(Cell::new(0));
    let demands = Rc::new(Cell::new(0));
    let receiver = Receiver {
        secret: secret(),
        requests: requests.clone(),
        asset_details: Some((b"XYZ".to_vec(), 9)),
        sent_details: false,
        max_packet: Some(25),
        claim: Claim::IlpAmount,
        demands: demands.clone(),
    };
    let mut clock = FakeClock { t: 0, step: 1 };
    let result = send_money(
        receiver,
        &mut clock,
        &test_account("XYZ", 9),
        addr("example.destination"),
        &secret(),
        100,
        TestRateStore { prices: None },
    )
    .expect("payment succeeds");
    assert_eq!(result.delivered_amount, 100);
    assert_eq!(result.sent_amount, 100);
    assert!(requests.get() >= 5, "several packets plus the close frame");
}

#[test]
fn times_out_without_fulfills() {
    let mut clock = FakeClock { t: 0, step: 2000 };
    let result = send_money(
        TemporaryRejecter,
        &mut clock,
        &test_account("XYZ", 9),
        addr("example.destination"),
        &secret(),
        100,
        TestRateStore { prices: None },
    );
    assert!(matches!(result.unwrap_err(), Error::TimeoutError { .. }));
}

#[test]
fn cross_currency_with_slippage_delivers_the_minimum() {
    // Source USD at scale 2, destination EUR at scale 4, rate 0.9,
    // slippage 1%: a 25-unit packet demands ceil(2227.5) = 2228.
    let requests = Rc::new(Cell::new(0));
    let demands = Rc::new(Cell::new(0));
    let receiver = Receiver {
        secret: secret(),
        requests: requests.clone(),
        asset_details: Some((b"EUR".to_vec(), 4)),
        sent_details: false,
        max_packet: None,
        claim: Claim::MinDemand,
        demands: demands.clone(),
    };
    let mut payment = StreamPayment::new(
        addr("example.sender"),
        addr("example.destination"),
        b"USD".to_vec(),
        2,
        100,
        0,
    );
    // Keep each packet to 25 source units.
    payment.congestion_controller = CongestionController::new(25, 10);
    let mut sender = StreamSender {
        next: receiver,
        from_account: test_account("USD", 2),
        shared_secret: secret(),
        store: TestRateStore {
            prices: Some((Price { num: 9, den: 10 }, Price { num: 1, den: 1 })),
        },
        slippage_bp: 100,
        payment,
    };
    let mut clock = FakeClock { t: 0, step: 1 };
    // First packet: destination details unknown, unfulfillable probe.
    let amount = sender.payment.apply_prepare();
    assert_eq!(amount, 25);
    sender.send_money_packet(&mut clock, amount).expect("temporary reject is absorbed");
    assert_eq!(sender.payment.receipt.destination_asset_code, Some(b"EUR".to_vec()));
    assert_eq!(sender.payment.receipt.destination_asset_scale, Some(4));
    // Now the rate is known: each 25-unit packet demands 2228. The
    // window is pinned back each round, since fulfillment grows it.
    let mut fulfilled = 0;
    while fulfilled < 4 {
        sender.payment.congestion_controller = CongestionController::new(25, 10);
        let amount = sender.payment.apply_prepare();
        assert_eq!(amount, 25);
        sender.send_money_packet(&mut clock, amount).expect("fulfilled");
        fulfilled += 1;
    }
    assert_eq!(demands.get(), 2228);
    assert!(sender.payment.receipt.delivered_amount >= 4 * 2228);
    assert_eq!(sender.payment.receipt.sent_amount, 100);
    assert_eq!(sender.payment.receipt.in_flight_amount, 0);
}

#[test]
fn unfulfillable_when_rate_unknown() {
    // While the destination asset details are unknown the minimum is
    // zero and the condition is the fresh random one, whose preimage
    // nobody can compute.
    let mut payment = StreamPayment::new(
        addr("example.sender"),
        addr("example.destination"),
        b"USD".to_vec(),
        2,
        100,
        0,
    );
    let random_condition = vec![0x5Au8; 32];
    let (prepare, sequence) = build_prepare(
        &mut payment,
        &secret(),
        25,
        0,
        b"20260101000000000".to_vec(),
        random_condition.clone(),
    );
    assert_eq!(sequence, 1);
    assert_eq!(prepare.execution_condition, random_condition);
    let fulfillment = generate_fulfillment(&secret(), &prepare.data);
    assert!(
        !fulfillment_matches(&fulfillment, &prepare.execution_condition),
        "the shared secret gives no preimage for a random condition"
    );

    // With a positive minimum the condition is derived from the data.
    let (prepare2, _) = build_prepare(
        &mut payment,
        &secret(),
        25,
        2228,
        b"20260101000000000".to_vec(),
        vec![0x5Au8; 32],
    );
    let fulfillment2 = generate_fulfillment(&secret(), &prepare2.data);
    assert!(fulfillment_matches(&fulfillment2, &prepare2.execution_condition));
}

#[test]
fn replayed_sequence_changes_no_stream_state() {
    let mut payment = StreamPayment::new(
        addr("example.sender"),
        addr("example.destination"),
        b"USD".to_vec(),
        2,
        100,
        0,
    );
    let amount = payment.apply_prepare();
    // A reply for the wrong sequence, carrying asset details.
    let reply_packet = StreamPacket {
        ilp_packet_type: IlpPacketType::Fulfill,
        prepare_amount: 999999,
        sequence: 77,
        frames: vec![Frame::ConnectionAssetDetails {
            source_asset_code: b"EUR".to_vec(),
            source_asset_scale: 4,
        }],
    };
    let data = encrypt_stream_packet(&secret(), &reply_packet);
    let reply: Result<Fulfill, Reject> =
        Ok(Fulfill { fulfillment: vec![0u8; 32], data });
    let r = handle_reply(&mut payment, &secret(), 1, amount, 10, &reply, 5);
    assert!(r.is_ok());
    // No stream state is attributable to the replayed frame.
    assert!(payment.should_send_source_account);
    assert_eq!(payment.receipt.destination_asset_code, None);
    assert_eq!(payment.receipt.destination_asset_scale, None);
    // The fulfill still counts the demanded minimum, not the claim.
    assert_eq!(payment.receipt.delivered_amount, 10);
}

#[test]
fn lying_peer_claim_is_discarded() {
    let mut payment = StreamPayment::new(
        addr("example.sender"),
        addr("example.destination"),
        b"USD".to_vec(),
        2,
        100,
        0,
    );
    let amount = payment.apply_prepare();
    // The inner packet says Reject while the outer reply fulfilled.
    let reply_packet = StreamPacket {
        ilp_packet_type: IlpPacketType::Reject,
        prepare_amount: 999999,
        sequence: 1,
        frames: vec![],
    };
    let data = encrypt_stream_packet(&secret(), &reply_packet);
    let reply: Result<Fulfill, Reject> =
        Ok(Fulfill { fulfillment: vec![0u8; 32], data });
    let r = handle_reply(&mut payment, &secret(), 1, amount, 10, &reply, 5);
    assert!(r.is_ok());
    assert!(payment.should_send_source_account);
    assert_eq!(payment.receipt.delivered_amount, 10, "the minimum, not the lie");
}

#[test]
fn reject_classification() {
    for (code, absorbed) in [
        (ErrorCode::internal_error(), true),
        (ErrorCode::amount_too_large(), true),
        (ErrorCode::application_error(), true),
        (ErrorCode::bad_request(), false),
        (ErrorCode::new(b'R', b'0', b'0'), false),
    ] {
        let mut payment = StreamPayment::new(
            addr("example.sender"),
            addr("example.destination"),
            b"USD".to_vec(),
            2,
            100,
            0,
        );
        let amount = payment.apply_prepare();
        let reply: Result<Fulfill, Reject> = Err(Reject {
            code,
            triggered_by: None,
            message: vec![],
            data: vec![],
        });
        let r = handle_reply(&mut payment, &secret(), 1, amount, 0, &reply, 5);
        assert_eq!(r.is_ok(), absorbed, "code class decides");
        assert_eq!(payment.receipt.sent_amount, 0, "rejected amounts are uncounted");
        assert_eq!(payment.receipt.in_flight_amount, 0);
    }
}

#[test]
fn event_selection_follows_the_table() {
    let mut payment = StreamPayment::new(
        addr("example.sender"),
        addr("example.destination"),
        b"USD".to_vec(),
        2,
        100,
        1_000,
    );
    // Too long since the last fulfill: time out, whatever else holds.
    assert_eq!(next_event(&mut payment, 31_000), PaymentEvent::Timeout);
    // Otherwise send the next packet, as much as window and intention
    // allow.
    assert_eq!(next_event(&mut payment, 2_000), PaymentEvent::SendMoney(100));
    // Everything is in flight now: wait for a completion.
    assert_eq!(next_event(&mut payment, 2_000), PaymentEvent::MaxInFlight);
    // Fulfilled in full: close the connection.
    payment.apply_fulfill(100, 100, 3_000);
    assert_eq!(next_event(&mut payment, 4_000), PaymentEvent::CloseConnection);
}

#[test]
fn sequence_numbers_count_up_from_one() {
    let mut payment = StreamPayment::new(
        addr("example.sender"),
        addr("example.destination"),
        b"USD".to_vec(),
        2,
        100,
        0,
    );
    assert_eq!(payment.next_sequence(), 1);
    assert_eq!(payment.next_sequence(), 2);
    assert_eq!(payment.next_sequence(), 3);
    assert_eq!(payment.sequence, 4);
}
