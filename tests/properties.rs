use sainte_lague::float::{is_negative_bits, is_zero_bits, rank_of};
use sainte_lague::{distribute, DistributionError};

fn table(votes: &[f64], seats: usize) -> (Vec<u64>, Vec<Vec<u64>>) {
    let bits: Vec<u64> = votes.iter().map(|v| v.to_bits()).collect();
    let quotients: Vec<Vec<u64>> = votes
        .iter()
        .map(|v| (1..=(seats as i64)).map(|d| (v / ((d as f64) - 0.5)).to_bits()).collect())
        .collect();
    (bits, quotients)
}

fn run(votes: &[f64], seats: usize, draw_on_tie: bool) -> Result<Vec<usize>, DistributionError> {
    let (bits, quotients) = table(votes, seats);
    distribute(&bits, &quotients, &seats, &draw_on_tie)
}

#[test]
fn seats_add_up_and_shape_holds() {
    let votes = [41.5, 25.7, 8.6, 8.4, 0.0, 1.0];
    let r = run(&votes, 97, false).unwrap();
    assert_eq!(r.len(), votes.len());
    assert_eq!(r.iter().sum::<usize>(), 97);
}

#[test]
fn zero_vote_party_wins_nothing() {
    let r = run(&[0.0, 5.0, 0.0, 2.0], 20, true).unwrap();
    assert_eq!(r[0], 0);
    assert_eq!(r[2], 0);
    assert_eq!(r, vec![0, 14, 0, 6]);
}

#[test]
fn negative_zero_counts_as_zero() {
    assert_eq!(run(&[-0.0, 3.0], 50, false), Ok(vec![0, 50]));
    assert_eq!(run(&[-0.0, 0.0], 5, false), Err(DistributionError::NoVotes));
}

#[test]
fn same_input_same_result_without_tie() {
    let votes = [362.0, 318.0, 126.0, 62.0, 53.0];
    let first = run(&votes, 101, true);
    for _ in 0..5 {
        assert_eq!(run(&votes, 101, true), first);
        assert_eq!(run(&votes, 101, false), first);
    }
}

#[test]
fn validation_order() {
    assert_eq!(run(&[-1.0], 0, false), Err(DistributionError::InvalidSeatCount));
    assert_eq!(run(&[], 0, true), Err(DistributionError::InvalidSeatCount));
    assert_eq!(run(&[5.0, -1.0], 3, false), Err(DistributionError::NegativeVotes));
    assert_eq!(run(&[0.0, -1.0], 3, false), Err(DistributionError::NegativeVotes));
    assert_eq!(run(&[0.0, 0.0, 0.0], 3, true), Err(DistributionError::NoVotes));
}

#[test]
fn draw_hands_out_only_the_seats_left() {
    // Two candidates tie for the last seat: a draw that handed every tied
    // candidate a seat would give nine seats.
    for _ in 0..20 {
        let r = run(&[3.0, 3.0, 1.0], 8, true).unwrap();
        assert!(r == vec![4, 3, 1] || r == vec![3, 4, 1]);
    }
}

#[test]
fn draw_among_many_tied() {
    for _ in 0..20 {
        let r = run(&[1.0, 1.0, 1.0, 1.0], 2, true).unwrap();
        assert_eq!(r.iter().sum::<usize>(), 2);
        assert!(r.iter().all(|s| *s <= 1));
    }
    assert_eq!(run(&[1.0, 1.0, 1.0, 1.0], 2, false), Err(DistributionError::Tied));
}

#[test]
fn single_seat() {
    assert_eq!(run(&[10.0, 20.0, 5.0], 1, false), Ok(vec![0, 1, 0]));
}

#[test]
fn ranks_follow_float_order() {
    let values = [f64::NEG_INFINITY, -2.5, -1e-300, -0.0, 0.0, 5e-324, 1.0, 1.5, 1e300, f64::INFINITY];
    for w in values.windows(2) {
        let (a, b) = (rank_of(w[0].to_bits()), rank_of(w[1].to_bits()));
        if w[0] == w[1] {
            assert_eq!(a, b);
        } else {
            assert!(a < b);
        }
    }
    assert_eq!(rank_of(f64::NAN.to_bits()), i64::MIN);
    assert!(rank_of(f64::NAN.to_bits()) < rank_of(f64::NEG_INFINITY.to_bits()));
}

#[test]
fn sign_and_zero_tests() {
    assert!(is_negative_bits((-3.0f64).to_bits()));
    assert!(is_negative_bits(f64::NEG_INFINITY.to_bits()));
    assert!(!is_negative_bits((-0.0f64).to_bits()));
    assert!(!is_negative_bits(f64::NAN.to_bits()));
    assert!(!is_negative_bits((-f64::NAN).to_bits()));
    assert!(!is_negative_bits(2.0f64.to_bits()));
    assert!(is_zero_bits(0.0f64.to_bits()));
    assert!(is_zero_bits((-0.0f64).to_bits()));
    assert!(!is_zero_bits(5e-324f64.to_bits()));
    assert!(!is_zero_bits(f64::NAN.to_bits()));
}

#[test]
fn error_messages() {
    assert_eq!(
        DistributionError::Tied.message(),
        "Tie detected, could only be resolved by randomly awarding a seat to one party."
    );
    assert_eq!(
        DistributionError::InvalidSeatCount.message(),
        "Invalid seat count, must be an integer larger than 0."
    );
    assert_eq!(
        DistributionError::NegativeVotes.message(),
        "Invalid votes, all parties must have at least zero votes."
    );
    assert_eq!(
        DistributionError::NoVotes.message(),
        "Invalid votes, one party must have at least one vote."
    );
}
