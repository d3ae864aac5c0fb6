use fai3_backend::errors::GenericError;
use fai3_backend::table::text_less_exec;
use fai3_backend::text::{parse_usize, replace_text, trim_string};
use fai3_backend::utils::{page_range, seeded_vector_shuffle, select_random_element};

#[test]
fn shuffles_are_permutations_that_depend_only_on_the_seed() {
    let v: Vec<u32> = (0..20).collect();
    let a = seeded_vector_shuffle(v.clone(), 42);
    let b = seeded_vector_shuffle(v.clone(), 42);
    assert_eq!(a, b);
    let mut sorted = a.clone();
    sorted.sort();
    assert_eq!(sorted, v);
    assert_ne!(a, v);
    assert_eq!(seeded_vector_shuffle(vec![7], 3), vec![7]);
}

#[test]
fn shuffle_of_two_follows_the_generator() {
    // state = 1 * 1664525 + 1013904223 = 1015568748, which is even: the two swap
    assert_eq!(seeded_vector_shuffle(vec!['a', 'b'], 1), vec!['b', 'a']);
}

#[test]
fn random_elements_are_picked_by_seed_modulo_length() {
    assert_eq!(select_random_element(vec![10, 20, 30], 4), Some(20));
    assert_eq!(select_random_element(Vec::<u8>::new(), 4), None);
}

#[test]
fn errors_carry_their_category() {
    let e = GenericError::new(GenericError::NOT_FOUND, "Model not found");
    assert_eq!((e.category, e.code), (300, 301));
    assert_eq!(e.message, "Model not found");
    let e = e.with_detail("model_id", "3");
    assert_eq!(e.details, vec![("model_id".to_string(), "3".to_string())]);
}

#[test]
fn text_helpers() {
    assert_eq!(replace_text("a*?*b*?*", "*?*", "X"), "aXbX");
    assert_eq!(replace_text("aaa", "aa", "b"), "ba");
    assert_eq!(trim_string("\u{3000} x \t"), "x");
    assert_eq!(parse_usize("+12"), Some(12));
    assert_eq!(parse_usize("-1"), None);
    assert_eq!(parse_usize(""), None);
    assert_eq!(parse_usize("99999999999999999999999"), None);
    assert!(text_less_exec("Zebra", "apple"));
    assert!(text_less_exec("app", "apple"));
    assert!(!text_less_exec("b", "b"));
}

#[test]
fn pages_are_cut_at_the_end() {
    assert_eq!(page_range(2, 5, 4), (2, 4));
    assert_eq!(page_range(0, 2, 4), (0, 2));
    assert_eq!(page_range(4, 1, 4), (4, 4));
}
