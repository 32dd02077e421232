use management::market_rules::{
    bid_stance, round_transfer_fee, settle_bid, BidRecommendation, BidStance, PreviousBid,
};

#[test]
fn a_first_bid_opens_round_one() {
    assert_eq!(bid_stance(100, None), BidStance { round: 1, respected: false, stalled: false });
}

#[test]
fn later_bids_count_rounds_respect_counters_and_detect_stalling() {
    let previous = PreviousBid { negotiation_round: 0, suggested_counter_fee: Some(100_000), fee: 40_000 };
    assert_eq!(
        bid_stance(95_000, Some(previous)),
        BidStance { round: 2, respected: true, stalled: false }
    );
    assert_eq!(bid_stance(94_999, Some(previous)).respected, false);
    assert_eq!(bid_stance(90_000, Some(previous)).stalled, true);
    let third = PreviousBid { negotiation_round: 2, suggested_counter_fee: None, fee: 40_000 };
    assert_eq!(bid_stance(95_000, Some(third)).round, 3);
    let extreme = PreviousBid { negotiation_round: u32::MAX, suggested_counter_fee: Some(u64::MAX), fee: u64::MAX };
    assert_eq!(
        bid_stance(50_000, Some(extreme)),
        BidStance { round: u32::MAX, respected: false, stalled: true }
    );
}

#[test]
fn bids_are_accepted_countered_or_rejected_against_threshold_and_floor() {
    assert_eq!(settle_bid(1_000_000, 1_000_000, 880_000), BidRecommendation::Accept);
    assert_eq!(
        settle_bid(900_000, 1_000_001, 880_000),
        BidRecommendation::Counter { fee: 1_050_000 }
    );
    assert_eq!(
        settle_bid(879_999, 1_000_000, 880_000),
        BidRecommendation::Reject { fee: 1_000_000 }
    );
    assert_eq!(round_transfer_fee(u64::MAX), u64::MAX);
    assert_eq!(round_transfer_fee(0), 0);
    assert_eq!(round_transfer_fee(50_001), 100_000);
}
