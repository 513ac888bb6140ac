use keeper::names::{key_ok, name_ok};

#[test]
fn names_follow_the_policy() {
    assert!(name_ok("web1"));
    assert!(name_ok("my-job_2"));
    assert!(!name_ok("a"));
    assert!(!name_ok(""));
    assert!(!name_ok("Web1"));
    assert!(!name_ok("web 1"));
    assert!(!name_ok("wéb"));
}

#[test]
fn keys_are_sixty_four_letters_and_digits() {
    let good = "a".repeat(32) + &"Z9".repeat(16);
    assert_eq!(good.len(), 64);
    assert!(key_ok(&good));
    assert!(!key_ok("abcdefghij"));
    assert!(!key_ok(&"a".repeat(63)));
    assert!(!key_ok(&"a".repeat(65)));
    assert!(!key_ok(&("a".repeat(63) + "-")));
}
