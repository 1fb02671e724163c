use shapes::{Comp, Gender};

#[test]
fn comp_variants_cover_every_outcome() {
    let outcomes = vec![Comp::LessThan, Comp::Equal, Comp::GreaterThan];
    let mut seen_less = false;
    let mut seen_equal = false;
    let mut seen_greater = false;
    for c in outcomes {
        match c {
            Comp::LessThan => seen_less = true,
            Comp::Equal => seen_equal = true,
            Comp::GreaterThan => seen_greater = true,
        }
    }
    assert!(seen_less && seen_equal && seen_greater);
}

#[test]
fn gender_variants_are_distinct() {
    let g = Gender::Male;
    assert!(matches!(g, Gender::Male));
    assert!(!matches!(Gender::Female, Gender::Male));
}
