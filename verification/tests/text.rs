use i18nrs::text::{enclose, str_eq, str_less};

#[test]
fn str_less_is_the_order_of_str() {
    let samples = ["", "a", "A", "ab", "b", "aa", "é", "e", "z", "\u{10000}", "\u{ffff}", "ab\0", "🔤"];
    for a in samples {
        for b in samples {
            assert_eq!(str_less(a, b), a < b);
        }
    }
}

#[test]
fn str_less_puts_a_prefix_first() {
    assert!(str_less("name", "names"));
    assert!(!str_less("names", "name"));
    assert!(!str_less("name", "name"));
    assert!(str_less("", "a"));
}

#[test]
fn str_eq_is_equality() {
    assert!(str_eq("", ""));
    assert!(str_eq("en_US", "en_US"));
    assert!(!str_eq("en_US", "en_us"));
    assert!(!str_eq("en_US", "en_U"));
    assert!(!str_eq("e", "é"));
}

#[test]
fn enclose_joins_three_texts() {
    assert_eq!(enclose("'", "en_US", "' is not exists"), "'en_US' is not exists");
    assert_eq!(enclose("", "", ""), "");
}
