use rustml_inference::grpc::{collect_batch_responses, request_shape};

#[test]
fn all_responses_in_request_order() {
    let rs: Vec<Result<u32, String>> = vec![Ok(1), Ok(2), Ok(3)];
    assert_eq!(collect_batch_responses(rs), Ok(vec![1, 2, 3]));
}

#[test]
fn first_failure_wins() {
    let rs: Vec<Result<u32, String>> = vec![Ok(1), Err("a".to_string()), Ok(3), Err("b".to_string())];
    assert_eq!(collect_batch_responses(rs), Err("a".to_string()));
}

#[test]
fn empty_batch_has_no_responses() {
    let rs: Vec<Result<u32, String>> = vec![];
    assert_eq!(collect_batch_responses(rs), Ok(vec![]));
}

#[test]
fn request_shape_casts_each_dimension() {
    assert_eq!(request_shape(&vec![1, 3, 224, 224]), vec![1usize, 3, 224, 224]);
    assert_eq!(request_shape(&vec![-1]), vec![usize::MAX]);
    assert_eq!(request_shape(&vec![]), Vec::<usize>::new());
}
