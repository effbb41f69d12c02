use workpool::borrowing;
use workpool::ownership;

#[test]
fn ownership_helpers_preserve_values() {
    let s = ownership::gives_ownership();
    assert_eq!(s, "yours");
    let s = ownership::takes_and_gives_back(String::from("abc"));
    assert_eq!(s, "abc");
    let (s, len) = ownership::calculate_length(String::from("hello"));
    assert_eq!(s, "hello");
    assert_eq!(len, 5);
    let s = ownership::transfer(String::from("move me"));
    assert_eq!(s, "move me");
}

#[test]
fn lengths_through_references() {
    let s = String::from("hello");
    assert_eq!(borrowing::calculate_length(&s), 5);
    assert_eq!(borrowing::get_length_ref(&s), 5);
    let (back, len) = borrowing::get_length_own(s);
    assert_eq!(back, "hello");
    assert_eq!(len, 5);
    assert_eq!(borrowing::calculate_length(&String::new()), 0);
}

#[test]
fn change_appends_greeting_tail() {
    let mut s = String::from("hello");
    borrowing::change(&mut s);
    assert_eq!(s, "hello, world");
}

#[test]
fn no_dangle_returns_owned_hello() {
    assert_eq!(borrowing::no_dangle(), "hello");
}

#[test]
fn first_word_stops_at_first_space() {
    assert_eq!(borrowing::first_word(&String::from("hello world")), "hello");
    assert_eq!(borrowing::first_word(&String::from("hello")), "hello");
    assert_eq!(borrowing::first_word(&String::from(" leading")), "");
    assert_eq!(borrowing::first_word(&String::from("")), "");
}

#[test]
fn double_values_doubles_in_place() {
    let mut v = vec![1, 2, 3];
    borrowing::double_values(&mut v);
    assert_eq!(v, vec![2, 4, 6]);
    let mut v: Vec<i32> = vec![];
    borrowing::double_values(&mut v);
    assert!(v.is_empty());
    let mut v = vec![-4, 0, 7];
    borrowing::double_values(&mut v);
    assert_eq!(v, vec![-8, 0, 14]);
}

#[test]
fn contains_word_finds_substrings() {
    let text = String::from("the quick brown fox");
    assert!(borrowing::contains_word(&text, "quick"));
    assert!(borrowing::contains_word(&text, "the"));
    assert!(borrowing::contains_word(&text, "fox"));
    assert!(!borrowing::contains_word(&text, "cat"));
    assert!(borrowing::contains_word(&text, ""));
    assert!(!borrowing::contains_word(&String::from("ab"), "abc"));
}

#[test]
fn replace_word_replaces_every_occurrence() {
    let mut text = String::from("the cat saw the cat");
    borrowing::replace_word(&mut text, "cat", "dog");
    assert_eq!(text, "the dog saw the dog");
    let mut text = String::from("aaa");
    borrowing::replace_word(&mut text, "aa", "b");
    assert_eq!(text, "ba");
    let mut text = String::from("nothing here");
    borrowing::replace_word(&mut text, "xyz", "q");
    assert_eq!(text, "nothing here");
    // An empty pattern matches at every position, as str::replace does.
    let mut text = String::from("ab");
    borrowing::replace_word(&mut text, "", "-");
    assert_eq!(text, "-a-b-");
}

#[test]
fn validate_data_checks_bounds() {
    assert!(!borrowing::validate_data(&vec![]));
    assert!(borrowing::validate_data(&vec![1]));
    assert!(borrowing::validate_data(&(1..=10).collect::<Vec<i32>>()));
    assert!(!borrowing::validate_data(&(1..=11).collect::<Vec<i32>>()));
}

#[test]
fn process_data_doubles_entries() {
    let mut v = vec![5, -2, 9];
    borrowing::process_data(&mut v);
    assert_eq!(v, vec![10, -4, 18]);
}
