use math_core::errors::MathError;
use math_core::statistics::{median_span, most_frequent_keys, quartile_spans, Span};

fn sp(lo: usize, hi: usize) -> Span {
    Span { lo, hi }
}

#[test]
fn median_positions() {
    assert_eq!(median_span(1).unwrap(), sp(0, 0));
    assert_eq!(median_span(4).unwrap(), sp(1, 2));
    assert_eq!(median_span(5).unwrap(), sp(2, 2));
}

#[test]
fn median_of_four_is_mean_of_middle() {
    // median([1, 2, 3, 4]) == 2.5
    let data = [1.0f64, 2.0, 3.0, 4.0];
    let s = median_span(data.len()).unwrap();
    assert_eq!((data[s.lo] + data[s.hi]) / 2.0, 2.5);
}

#[test]
fn quartile_positions() {
    assert_eq!(quartile_spans(1).unwrap(), (sp(0, 0), sp(0, 0), sp(0, 0)));
    assert_eq!(quartile_spans(4).unwrap(), (sp(0, 1), sp(1, 2), sp(2, 3)));
    assert_eq!(quartile_spans(7).unwrap(), (sp(1, 1), sp(3, 3), sp(5, 5)));
    assert_eq!(quartile_spans(8).unwrap(), (sp(1, 2), sp(3, 4), sp(5, 6)));
    assert_eq!(quartile_spans(10).unwrap(), (sp(2, 2), sp(4, 5), sp(7, 7)));
}

#[test]
fn mode_keys() {
    assert_eq!(most_frequent_keys(&[]), Vec::<i64>::new());
    assert_eq!(most_frequent_keys(&[3, 1, 3, 2]), vec![3]);
    assert_eq!(most_frequent_keys(&[5, 1, 5, 1, 2]), vec![1, 5]);
    assert_eq!(most_frequent_keys(&[9, -4, 7]), vec![-4, 7, 9]);
    assert_eq!(most_frequent_keys(&[2000, 2000, 2000]), vec![2000]);
}

#[test]
fn empty_sample_is_refused() {
    assert!(matches!(median_span(0), Err(MathError::InvalidInput(_))));
    assert!(matches!(quartile_spans(0), Err(MathError::InvalidInput(_))));
}
