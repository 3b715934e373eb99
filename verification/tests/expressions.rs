use lapligence::expressions::{inside_array_index_vectors, validate_plusarg_format};

fn err(format: &str) -> String {
    validate_plusarg_format(format, "top.u").unwrap_err()
}

#[test]
fn plusarg_formats_with_one_conversion_pass() {
    assert!(validate_plusarg_format("%d", "top").is_ok());
    assert!(validate_plusarg_format("+width=%0h", "top").is_ok());
    assert!(validate_plusarg_format("100%% %s", "top").is_ok());
    assert!(validate_plusarg_format("%D", "top").is_ok());
    assert!(validate_plusarg_format("seed=%G", "top").is_ok());
}

#[test]
fn plusarg_format_errors_name_the_scope() {
    assert_eq!(err("plain"), "$value$plusargs format requires one conversion in `top.u`");
    assert_eq!(err("%d%s"), "$value$plusargs format has more than one conversion in `top.u`");
    assert_eq!(err("x%"), "$value$plusargs format ends with `%` in `top.u`");
    assert_eq!(err("x%0"), "$value$plusargs format ends with `%0` in `top.u`");
    assert_eq!(err("%q"), "$value$plusargs format has unsupported conversion `%q` in `top.u`");
    assert_eq!(err("%0%"), "$value$plusargs format has unsupported conversion `%%` in `top.u`");
    assert_eq!(err("a\0%d"), "$value$plusargs format contains NUL in `top.u`");
    assert_eq!(err("%%"), "$value$plusargs format requires one conversion in `top.u`");
}

#[test]
fn index_vectors_walk_each_range_from_its_left_bound() {
    assert_eq!(
        inside_array_index_vectors(&[(0, 1), (2, 0)]),
        vec![vec![0, 2], vec![0, 1], vec![0, 0], vec![1, 2], vec![1, 1], vec![1, 0]]
    );
    assert_eq!(inside_array_index_vectors(&[(3, 3)]), vec![vec![3]]);
    assert_eq!(inside_array_index_vectors(&[]), vec![Vec::<i32>::new()]);
}

#[test]
fn index_vector_count_is_the_product_of_range_lengths() {
    let dims = [(1, 3), (-1, 0), (7, 4)];
    assert_eq!(inside_array_index_vectors(&dims).len(), 3 * 2 * 4);
}

#[test]
fn index_vectors_reach_the_ends_of_the_index_type() {
    assert_eq!(
        inside_array_index_vectors(&[(i32::MAX - 1, i32::MAX)]),
        vec![vec![i32::MAX - 1], vec![i32::MAX]]
    );
    assert_eq!(
        inside_array_index_vectors(&[(i32::MIN + 1, i32::MIN)]),
        vec![vec![i32::MIN + 1], vec![i32::MIN]]
    );
}
