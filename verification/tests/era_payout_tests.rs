use flooder::era::EraClock;
use flooder::payout::{claim_payout, verify_payout};
use flooder::calls::ChainCall;

#[test]
fn era_clock_waits_for_a_strict_pass() {
    let mut clock = EraClock::new(5);
    assert_eq!(clock.observe(4), None);
    assert_eq!(clock.observe(5), None);
    assert_eq!(clock.observe(6), Some(6));
    assert_eq!(clock.observe(6), None);
    assert_eq!(clock.observe(9), Some(9));
}

#[test]
fn era_clock_results_are_strictly_increasing() {
    let observations: Vec<u32> = vec![3, 2, 4, 4, 7, 6, 7, 12, 11, 12, 20];
    let mut clock = EraClock::new(3);
    let mut handed_back: Vec<u32> = Vec::new();
    for era in observations {
        if let Some(e) = clock.observe(era) {
            handed_back.push(e);
        }
    }
    assert_eq!(handed_back, vec![4, 7, 12, 20]);
    for w in handed_back.windows(2) {
        assert!(w[0] < w[1]);
    }
}

#[test]
fn claim_payout_names_the_stash_and_era() {
    let call = claim_payout(vec![7; 32], 41);
    match call {
        ChainCall::ClaimPayout { stash, era } => {
            assert_eq!(stash, vec![7; 32]);
            assert_eq!(era, 41);
        },
        _ => panic!("claim_payout must prepare a payout claim"),
    }
}

#[test]
fn verify_payout_accepts_a_strict_increase() {
    let r = verify_payout(9, vec![1; 32], 100, 101).expect("strict increase verifies");
    assert_eq!(r.era, 9);
    assert_eq!(r.stash, vec![1; 32]);
    assert_eq!(r.balance_before, 100);
    assert_eq!(r.balance_after, 101);
}

#[test]
fn verify_payout_reports_an_unchanged_balance() {
    let f = verify_payout(12, vec![2; 32], 500, 500).expect_err("no increase must fail");
    assert_eq!(f.era, 12);
    assert_eq!(f.stash, vec![2; 32]);
    assert_eq!(f.balance_before, 500);
    assert_eq!(f.balance_after, 500);
}

#[test]
fn verify_payout_reports_a_decrease() {
    let f = verify_payout(2, vec![3; 32], 500, 499).expect_err("a decrease must fail");
    assert_eq!(f.era, 2);
    assert_eq!(f.balance_after, 499);
}
