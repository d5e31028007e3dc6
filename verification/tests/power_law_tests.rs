use disease_graph::{fit_power_law_distribution, InvalidSample};

#[test]
fn an_empty_sample_is_invalid() {
    assert_eq!(fit_power_law_distribution(&[]), Err(InvalidSample::Empty));
}

#[test]
fn a_zero_in_the_sample_is_invalid() {
    assert_eq!(fit_power_law_distribution(&[0]), Err(InvalidSample::NonPositive { index: 0 }));
    assert_eq!(fit_power_law_distribution(&[3, 1, 0, 2]), Err(InvalidSample::NonPositive { index: 2 }));
    assert_eq!(fit_power_law_distribution(&[0, 0, 0]), Err(InvalidSample::NonPositive { index: 0 }));
}

#[test]
fn the_first_zero_is_named() {
    assert_eq!(fit_power_law_distribution(&[5, 0, 7, 0]), Err(InvalidSample::NonPositive { index: 1 }));
}

#[test]
fn a_positive_sample_is_accepted() {
    assert_eq!(fit_power_law_distribution(&[1]), Ok(true));
    assert_eq!(fit_power_law_distribution(&[8, 4, 2, 1, 1, 1]), Ok(true));
    assert_eq!(fit_power_law_distribution(&[usize::MAX, 1]), Ok(true));
}

#[test]
fn a_degree_list_with_leaves_is_invalid() {
    // The out-degrees of a star: the leaves have none.
    let degrees: Vec<usize> = vec![2, 0, 0];
    assert_eq!(fit_power_law_distribution(&degrees), Err(InvalidSample::NonPositive { index: 1 }));
}
