use home_control_backend::api::util::{encrypt, parse_cookies, to_hex_lower};

#[test]
fn encrypt_is_hex_sha256() {
    assert_eq!(encrypt(""), "e3b0c44298fc1c149afbf4c8996fb92427ae41e4649b934ca495991b7852b855");
    assert_eq!(
        encrypt("password"),
        "5e884898da28047151d0e56f8dc6292773603d0d6aabbdd62a11ef721d1542d8"
    );
    assert_eq!(encrypt("비밀").len(), 64);
}

#[test]
fn hex_is_lower_case_two_digits_per_byte() {
    assert_eq!(to_hex_lower(&vec![0x00, 0x0f, 0xa0, 0xff]), "000fa0ff");
    assert_eq!(to_hex_lower(&vec![]), "");
}

#[test]
fn cookies_split_on_semicolons() {
    let c = parse_cookies("a=1;b=2");
    assert_eq!(c.len(), 2);
    assert_eq!(c.get(&"a".to_string()), Some(&"1".to_string()));
    assert_eq!(c.get(&"b".to_string()), Some(&"2".to_string()));
}

#[test]
fn cookie_names_keep_spaces() {
    let c = parse_cookies("a=1; access_key=tok");
    assert_eq!(c.get(&" access_key".to_string()), Some(&"tok".to_string()));
    assert_eq!(c.get(&"access_key".to_string()), None);
}

#[test]
fn malformed_cookies_are_ignored() {
    let c = parse_cookies("noequals;a=b=c;=empty;k=");
    assert_eq!(c.len(), 2);
    assert_eq!(c.get(&"".to_string()), Some(&"empty".to_string()));
    assert_eq!(c.get(&"k".to_string()), Some(&"".to_string()));
    assert!(!c.contains_key(&"a".to_string()));
    assert!(!c.contains_key(&"noequals".to_string()));
}

#[test]
fn later_cookie_wins() {
    let c = parse_cookies("k=1;k=2");
    assert_eq!(c.len(), 1);
    assert_eq!(c.get(&"k".to_string()), Some(&"2".to_string()));
}

#[test]
fn empty_cookie_header() {
    assert_eq!(parse_cookies("").len(), 0);
}

#[test]
fn cookies_of_joined_headers_override() {
    let a = "k=1;x=a";
    let b = "k=2;y=b";
    let joined = parse_cookies(&format!("{};{}", a, b));
    assert_eq!(joined.len(), 3);
    assert_eq!(joined.get(&"k".to_string()), Some(&"2".to_string()));
    assert_eq!(joined.get(&"x".to_string()), Some(&"a".to_string()));
    assert_eq!(joined.get(&"y".to_string()), Some(&"b".to_string()));
}
