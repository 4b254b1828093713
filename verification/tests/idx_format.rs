use neural::{parse_idx_file, IdxError};

fn header(data_type: u8, shape: &[u32]) -> Vec<u8> {
    let mut bytes = vec![0u8, 0u8, data_type, shape.len() as u8];
    for dim in shape {
        bytes.extend_from_slice(&dim.to_be_bytes());
    }
    bytes
}

#[test]
fn parses_a_two_dimensional_file() {
    let mut bytes = header(8, &[2, 3]);
    bytes.extend_from_slice(&[10, 11, 12, 20, 21, 22]);
    let file = parse_idx_file(bytes).unwrap();
    assert_eq!(file.shape, vec![2, 3]);
    assert_eq!(file.items, vec![vec![10, 11, 12], vec![20, 21, 22]]);
}

#[test]
fn parses_a_one_dimensional_label_file() {
    let mut bytes = header(8, &[4]);
    bytes.extend_from_slice(&[7, 1, 3, 9]);
    let file = parse_idx_file(bytes).unwrap();
    assert_eq!(file.shape, vec![4]);
    assert_eq!(file.items, vec![vec![7], vec![1], vec![3], vec![9]]);
}

#[test]
fn rejects_a_truncated_header() {
    assert_eq!(parse_idx_file(vec![0, 0]), Err(IdxError::TruncatedHeader));
}

#[test]
fn rejects_an_unsupported_data_type() {
    let mut bytes = header(0x0D, &[1]);
    bytes.push(42);
    assert_eq!(parse_idx_file(bytes), Err(IdxError::UnsupportedDataType));
}

#[test]
fn rejects_a_truncated_shape() {
    // Claims two dimensions but ends inside the first size.
    let bytes = vec![0, 0, 8, 2, 0, 0];
    assert_eq!(parse_idx_file(bytes), Err(IdxError::TruncatedShape));
}

#[test]
fn rejects_a_count_mismatch() {
    let mut bytes = header(8, &[2, 3]);
    bytes.extend_from_slice(&[1, 2, 3, 4, 5]);
    assert_eq!(parse_idx_file(bytes), Err(IdxError::CountMismatch));
}

#[test]
fn rejects_a_shape_without_dimensions() {
    // No dimensions: the (empty) product is one, so exactly one payload
    // byte passes the count check, but there is no dimension to group by.
    let bytes = vec![0, 0, 8, 0, 42];
    assert_eq!(parse_idx_file(bytes), Err(IdxError::DegenerateShape));
}

#[test]
fn rejects_a_zero_dimension() {
    let bytes = header(8, &[0, 3]);
    assert_eq!(parse_idx_file(bytes), Err(IdxError::DegenerateShape));
}

#[test]
fn error_messages_are_not_empty() {
    for error in [
        IdxError::TruncatedHeader,
        IdxError::UnsupportedDataType,
        IdxError::TruncatedShape,
        IdxError::CountMismatch,
        IdxError::DegenerateShape,
    ] {
        assert!(!error.message().is_empty());
    }
}
