use sainte_lague::{distribute, DistributionError};

/// Builds the bit patterns of the votes and of their quotients
/// `v / 0.5, v / 1.5, ...`, and apportions.
fn apportion(votes: &[f64], seats: &usize, draw_on_tie: &bool) -> Result<Vec<usize>, DistributionError> {
    let bits: Vec<u64> = votes.iter().map(|v| v.to_bits()).collect();
    let quotients: Vec<Vec<u64>> = votes
        .iter()
        .map(|v| {
            (1..=(*seats as i64))
                .map(|d| (v / ((d as f64) - 0.5)).to_bits())
                .collect()
        })
        .collect();
    distribute(&bits, &quotients, seats, draw_on_tie)
}

#[test]
fn german_bundestag_2013() {
    let votes = [41.5, 25.7, 8.6, 8.4];
    let seats = 631;

    let distribution = apportion(&votes, &seats, &false);
    let parliament = vec![311, 193, 64, 63];
    assert_eq!(distribution, Ok(parliament));
}

#[test]
fn rhineland_palatinate_201x() {
    let votes = [362.0, 318.0, 126.0, 62.0, 53.0];
    let seats = 101;

    let distribution = apportion(&votes, &seats, &false);
    let parliament = vec![39, 35, 14, 7, 6];
    assert_eq!(distribution, Ok(parliament));
}

#[test]
fn schleswig_holstein_201x() {
    let votes = [308.0, 304.0, 132.0, 82.0, 82.0, 46.0];
    let seats = 69;

    let distribution = apportion(&votes, &seats, &false);
    let parliament = vec![22, 22, 10, 6, 6, 3];
    assert_eq!(distribution, Ok(parliament));
}

#[test]
fn equal_but_no_draw_required() {
    let votes = [415.0, 257.0, 85.0, 85.0];
    let seats = 631;

    let distribution = apportion(&votes, &seats, &false);
    let parliament = vec![311, 192, 64, 64];
    assert_eq!(distribution, Ok(parliament));
}

#[test]
fn equal_and_draw_required() {
    let votes = [3.0, 3.0, 1.0];
    let seats = 8;

    let distribution_without_draw = apportion(&votes, &seats, &false);
    assert_eq!(distribution_without_draw, Err(DistributionError::Tied));

    let distribution_with_draw = apportion(&votes, &seats, &true);
    let parliament_draw_a: Vec<usize> = vec![4, 3, 1];
    let parliament_draw_b: Vec<usize> = vec![3, 4, 1];
    assert_eq!(
        [Ok(parliament_draw_a), Ok(parliament_draw_b)]
            .iter()
            .any(|x| x == &distribution_with_draw),
        true
    );
}

#[test]
fn small_parliament_no_draw_required() {
    let votes = [2.0, 2.0];
    let seats = 2;

    let distribution_without_draw = apportion(&votes, &seats, &false);
    assert_eq!(distribution_without_draw, Ok(vec![1, 1]));

    let distribution_with_draw = apportion(&votes, &seats, &true);
    assert_eq!(distribution_with_draw, Ok(vec![1, 1]));
}

#[test]
fn only_one_party() {
    let votes = [3.0];
    let seats = 10;

    let distribution = apportion(&votes, &seats, &false);
    let parliament = vec![10];
    assert_eq!(distribution, Ok(parliament));
}

#[test]
fn invalid_seat_count() {
    let votes = [3.0];
    let seats = 0;

    let distribution = apportion(&votes, &seats, &false);
    assert_eq!(distribution, Err(DistributionError::InvalidSeatCount));
}

#[test]
fn no_votes() {
    let seats = 50;

    let distribution_empty_votes = apportion(&[], &seats, &false);
    assert_eq!(distribution_empty_votes, Err(DistributionError::NoVotes));

    let distribution_zero_votes = apportion(&[0.0, 0.0], &seats, &false);
    assert_eq!(distribution_zero_votes, Err(DistributionError::NoVotes));

    let distribution_valid_votes = apportion(&[0.0, 3.0], &seats, &false);
    assert_eq!(distribution_valid_votes, Ok(vec![0, seats]));
}

#[test]
fn negative_votes() {
    let seats = 50;

    let distribution_negative_votes = apportion(&[-3.0], &seats, &false);
    assert_eq!(
        distribution_negative_votes,
        Err(DistributionError::NegativeVotes)
    );

    let distribution_negative_votes_sum_zero = apportion(&[4.0, -4.0], &seats, &false);
    assert_eq!(
        distribution_negative_votes_sum_zero,
        Err(DistributionError::NegativeVotes)
    );
}
