use neural::{one_hot, shuffled_batches, SCALAR_ONE};

fn pair(input: f64, expected: f64) -> (Vec<u64>, Vec<u64>) {
    (vec![input.to_bits()], vec![expected.to_bits()])
}

#[test]
fn batches_cover_the_training_set() {
    let pairs: Vec<(Vec<u64>, Vec<u64>)> =
        (0..7).map(|i| pair(i as f64, (i * i) as f64)).collect();
    let batches = shuffled_batches(pairs.clone(), 3);

    assert_eq!(batches.len(), 3);
    assert_eq!(batches[0].len(), 3);
    assert_eq!(batches[1].len(), 3);
    assert_eq!(batches[2].len(), 1);

    let mut flattened: Vec<(Vec<u64>, Vec<u64>)> =
        batches.into_iter().flatten().collect();
    let mut expected = pairs;
    flattened.sort();
    expected.sort();
    assert_eq!(flattened, expected);
}

#[test]
fn a_partial_final_batch_keeps_its_own_length() {
    // Five pairs at batch size two: the last batch holds the one leftover
    // pair rather than being dropped or padded.
    let pairs: Vec<(Vec<u64>, Vec<u64>)> = (0..5).map(|i| pair(i as f64, 0.0)).collect();
    let batches = shuffled_batches(pairs, 2);
    assert_eq!(
        batches.iter().map(|b| b.len()).collect::<Vec<_>>(),
        vec![2, 2, 1]
    );
}

#[test]
fn an_exact_multiple_yields_only_full_batches() {
    let pairs: Vec<(Vec<u64>, Vec<u64>)> = (0..6).map(|i| pair(i as f64, 0.0)).collect();
    let batches = shuffled_batches(pairs, 2);
    assert_eq!(
        batches.iter().map(|b| b.len()).collect::<Vec<_>>(),
        vec![2, 2, 2]
    );
}

#[test]
fn an_empty_training_set_yields_no_batches() {
    let batches = shuffled_batches(Vec::new(), 4);
    assert!(batches.is_empty());
}

#[test]
fn one_hot_marks_exactly_the_labelled_index() {
    let output = one_hot(2, 5);
    assert_eq!(output.len(), 5);
    for (i, value) in output.iter().enumerate() {
        if i == 2 {
            assert_eq!(*value, SCALAR_ONE);
            assert_eq!(f64::from_bits(*value), 1.0);
        } else {
            assert_eq!(f64::from_bits(*value), 0.0);
        }
    }
}
