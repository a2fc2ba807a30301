use pillid::timestamp::u64_to_string;
use pillid::utils::string_size;

fn base62_alphabet() -> Vec<char> {
    "0123456789ABCDEFGHIJKLMNOPQRSTUVWXYZabcdefghijklmnopqrstuvwxyz"
        .chars()
        .collect()
}

#[test]
fn zero_renders_empty() {
    let alphabet = base62_alphabet();
    assert_eq!(u64_to_string(0, &alphabet), "");
}

#[test]
fn single_digit_values() {
    let alphabet = base62_alphabet();
    assert_eq!(u64_to_string(5, &alphabet), "5");
    assert_eq!(u64_to_string(61, &alphabet), "z");
}

#[test]
fn carries_into_higher_digits() {
    let alphabet = base62_alphabet();
    assert_eq!(u64_to_string(62, &alphabet), "10");
    assert_eq!(u64_to_string(3843, &alphabet), "zz");
    assert_eq!(u64_to_string(3844, &alphabet), "100");
}

#[test]
fn binary_alphabet_spells_bits() {
    let alphabet: Vec<char> = "01".chars().collect();
    assert_eq!(u64_to_string(13, &alphabet), "1101");
}

#[test]
fn string_size_counts_segments() {
    assert_eq!(string_size(5, &None, &None), 5);
    assert_eq!(string_size(5, &Some("ab".to_string()), &None), 8);
    assert_eq!(string_size(5, &None, &Some("xyz".to_string())), 8);
    assert_eq!(
        string_size(5, &Some("ab".to_string()), &Some("xyz".to_string())),
        11
    );
}
