use lint_engine::samples::good_code::{
    process_status, process_vector, safe_array_access, ConfigBuilder, RequestStatus, UserProfile,
};
use lint_engine::samples::shapes::{
    calculate_fibonacci, complex_guards, get_status_code, process_buffer, sum_even_numbers,
};
use lint_engine::samples::good_code::{first_word, process_user_data};
use lint_engine::samples::layout::{process_request, test_function};
use lint_engine::samples::shapes::very_long_function;
use lint_engine::samples::shapes::{function_with_mixed_comments, non_exhaustive_match, pattern_with_side_effects, uses_unreachable, Status};
use lint_engine::samples::shapes::{excessive_cloning, inefficient_string_building, process_status_code, status_class};
use lint_engine::samples::shapes::{high_complexity, multiple_violations, too_many_locals, deeply_nested_function, Employee, User};

#[test]
fn test_user_profile_creation() {
    let user = UserProfile::new(1, "Alice".to_string(), 30);
    assert_eq!(user.get_user_age(), 30);
}

#[test]
fn test_status_processing() {
    assert_eq!(process_status(RequestStatus::Pending), "Request is pending");
}

#[test]
fn profile_validation_reports_each_problem() {
    assert!(UserProfile::new(1, "Alice".to_string(), 30).validate().is_ok());
    let empty = UserProfile::new(2, String::new(), 30).validate().unwrap_err();
    assert_eq!(empty.message, "Name cannot be empty");
    let old = UserProfile::new(3, "Bob".to_string(), 151).validate().unwrap_err();
    assert_eq!(old.message, "Invalid age");
}

#[test]
fn builder_fills_defaults() {
    let c = ConfigBuilder::new().timeout(5).build();
    assert_eq!(c.timeout, 5);
    assert_eq!(c.retries, 3);
    let d = ConfigBuilder::new().retries(7).build();
    assert_eq!(d.timeout, 30);
    assert_eq!(d.retries, 7);
}

#[test]
fn small_routines() {
    assert_eq!(process_vector(&[1, 2, 3]), 6);
    assert_eq!(safe_array_access(&[4, 5], 1), Some(5));
    assert_eq!(safe_array_access(&[4, 5], 2), None);
    assert_eq!(get_status_code(404), "Not Found");
    assert_eq!(get_status_code(7), "Unknown");
    assert_eq!(calculate_fibonacci(10), 55);
    assert_eq!(calculate_fibonacci(46), 1836311903);
    assert_eq!(complex_guards(12), "even double digit");
    assert_eq!(sum_even_numbers(&[1, 2, 3, 4]), 6);
    assert_eq!(process_buffer(&[10, 200]), vec![10, 55]);
    assert_eq!(process_buffer(&vec![1u8; 2000]).len(), 1024);
}

#[test]
fn long_branching_functions() {
    assert_eq!(high_complexity(1, 2, 3, false), 6);
    assert_eq!(high_complexity(1, -2, -3, false), 6);
    assert_eq!(high_complexity(-4, 8, 0, true), 8);
    assert_eq!(high_complexity(-4, 12, 0, true), 16);
    assert_eq!(high_complexity(0, -1, -2, false), 3);
    assert_eq!(multiple_violations(1, 1, 1, 1, 3), 3);
    assert_eq!(multiple_violations(0, 1, 1, 1, 20), -5);
    assert_eq!(too_many_locals(), 78);
}

#[test]
fn nested_sum_counts_even_values_below_one_hundred() {
    let data = vec![vec![vec![2, 3, 4, 100, -6], vec![]], vec![], vec![vec![98, 99]]];
    assert_eq!(deeply_nested_function(data), 104);
}

#[test]
fn names_and_emails_are_validated() {
    let u = User { name: "Alice Smith".to_string(), email: "a@b.cd".to_string(), age: 30 };
    assert!(u.validate_name());
    assert!(u.validate_email());
    let bad = User { name: "A1ice".to_string(), email: "abcdef".to_string(), age: 30 };
    assert!(!bad.validate_name());
    assert!(!bad.validate_email());
    let e = Employee { name: "Émile".to_string(), email: "x@y".to_string(), department: "R".to_string() };
    assert!(e.validate_name());
    assert!(!e.validate_email());
}

#[test]
fn first_word_stops_at_the_first_space() {
    assert_eq!(first_word("hello world"), "hello");
    assert_eq!(first_word("héllo wörld"), "héllo");
    assert_eq!(first_word("single"), "single");
    assert_eq!(first_word(""), "");
}

#[test]
fn strings_are_joined_in_order() {
    let parts = vec!["ab".to_string(), "".to_string(), "c".to_string()];
    assert_eq!(inefficient_string_building(parts), "abc");
    assert_eq!(excessive_cloning(vec![1, 2]), (vec![1, 2], vec![1, 2]));
}

#[test]
fn status_codes_have_phrases_and_classes() {
    assert_eq!(process_status_code(201), "Created");
    assert_eq!(process_status_code(503), "Service Unavailable");
    assert_eq!(process_status_code(999), "Unknown Status");
    assert_eq!(status_class(403), "Client Error");
    assert_eq!(status_class(999), "Unknown");
}

#[test]
fn records_are_read_field_by_field() {
    let p = process_user_data("42,Alice,30").unwrap();
    assert_eq!((p.id, p.name.as_str(), p.age), (42, "Alice", 30));
    let q = process_user_data("+7,Zoë,5").unwrap();
    assert_eq!((q.id, q.name.as_str(), q.age), (7, "Zoë", 5));
    assert_eq!(process_user_data("1,Bob").unwrap_err().message, "Invalid data format");
    assert_eq!(process_user_data("1,Bob,2,3").unwrap_err().message, "Invalid data format");
    assert_eq!(process_user_data("x,Bob,3").unwrap_err().message, "Invalid number");
    assert_eq!(process_user_data("1,Bob,99999999999").unwrap_err().message, "Invalid number");
    assert_eq!(process_user_data(",Bob,3").unwrap_err().message, "Invalid number");
}

#[test]
fn labels_carry_their_number() {
    assert_eq!(test_function("count", 1207), "count: 1207");
    assert_eq!(test_function("x", 9), "x: 9");
    assert_eq!(test_function("x", 0), "");
    assert_eq!(test_function("x", -5), "");
}

#[test]
fn requests_need_three_parts() {
    assert_eq!(process_request("1,2,3".to_string()), Ok("Processed: 1,2,3".to_string()));
    assert_eq!(process_request("a,b,c,d".to_string()), Ok("Processed: a,b,c,d".to_string()));
    assert_eq!(process_request("1,2".to_string()), Err("Invalid request".to_string()));
    assert_eq!(process_request("".to_string()), Err("Invalid request".to_string()));
}

#[test]
fn messages_chosen_by_matching() {
    assert_eq!(non_exhaustive_match(Status::Success), "OK");
    assert_eq!(non_exhaustive_match(Status::Critical), "Other");
    assert_eq!(uses_unreachable(2), "Two");
    assert_eq!(pattern_with_side_effects(Some(4)), 5);
    assert_eq!(pattern_with_side_effects(None), 2);
    assert_eq!(function_with_mixed_comments(), 50);
}

#[test]
fn unicode_spaces_count_as_whitespace_in_names() {
    let ok = User { name: "Ann\u{3000}Lee".to_string(), email: "a@b.cd".to_string(), age: 1 };
    assert!(ok.validate_name());
    let tab = User { name: "Ann\tLee".to_string(), email: "a@b.cd".to_string(), age: 1 };
    assert!(tab.validate_name());
    let zero_width = User { name: "Ann\u{200B}Lee".to_string(), email: "a@b.cd".to_string(), age: 1 };
    assert!(!zero_width.validate_name());
}

#[test]
fn statistics_of_a_series() {
    let s = very_long_function(vec![4, -10, 7, 1]);
    assert_eq!(s.result, 2);
    assert_eq!(s.average, 0);
    assert_eq!(s.max, 7);
    assert_eq!(s.min, -10);
    assert_eq!(s.variance, (16 + 100 + 49 + 1) / 4);
    let t = very_long_function(vec![-7, -2]);
    assert_eq!(t.average, -4);
    assert_eq!(t.max, 0);
}
