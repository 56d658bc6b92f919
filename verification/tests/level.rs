use diag_normalize::level::{Normalization, LEVELS};

const ORDER: [Normalization; 8] = [
    Normalization::Basic,
    Normalization::StripCouldNotCompile,
    Normalization::StripCouldNotCompile2,
    Normalization::StripForMoreInformation,
    Normalization::StripForMoreInformation2,
    Normalization::DirBackslash,
    Normalization::TrimEnd,
    Normalization::RustLib,
];

#[test]
fn levels_are_ranked_in_their_order() {
    assert_eq!(LEVELS, 8);
    for (rank, level) in ORDER.iter().enumerate() {
        assert_eq!(level.rank(), rank);
        assert_eq!(Normalization::from_rank(rank), Some(*level));
    }
}

#[test]
fn no_level_past_the_last() {
    assert_eq!(Normalization::from_rank(LEVELS), None);
    assert_eq!(Normalization::from_rank(usize::MAX), None);
}

#[test]
fn a_level_includes_itself_and_those_before_it() {
    for (high_rank, high) in ORDER.iter().enumerate() {
        for (low_rank, low) in ORDER.iter().enumerate() {
            assert_eq!(high.includes(*low), high_rank >= low_rank);
        }
    }
    assert!(Normalization::RustLib.includes(Normalization::Basic));
    assert!(!Normalization::Basic.includes(Normalization::StripCouldNotCompile));
}
