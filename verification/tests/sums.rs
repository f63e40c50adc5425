use erc20::sums::sum_u32_set;

#[test]
fn sum_of_small_set() {
    let xs: Vec<u32> = vec![1, 2, 3, 4, 5, 6, 7, 8];
    assert_eq!(sum_u32_set(&xs), Some(36));
}

#[test]
fn sum_of_single_element() {
    let xs: Vec<u32> = vec![42];
    assert_eq!(sum_u32_set(&xs), Some(42));
}

#[test]
fn sum_of_empty_set_is_none() {
    let xs: Vec<u32> = vec![];
    assert_eq!(sum_u32_set(&xs), None);
}

#[test]
fn sum_that_overflows_is_none() {
    let xs: Vec<u32> = vec![u32::MAX, 1];
    assert_eq!(sum_u32_set(&xs), None);
    let ys: Vec<u32> = vec![1, u32::MAX];
    assert_eq!(sum_u32_set(&ys), None);
}

#[test]
fn sum_exactly_at_the_limit() {
    let xs: Vec<u32> = vec![u32::MAX - 5, 5];
    assert_eq!(sum_u32_set(&xs), Some(u32::MAX));
}
