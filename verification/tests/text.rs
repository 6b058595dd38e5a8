use home_control_backend::api::auth::CookieToken;
use home_control_backend::api::routes::{page_action, Page, PageAction};
use home_control_backend::string_map::StringMap;
use home_control_backend::text::{chars_of, split_chars, string_from};

fn pieces(s: &str, sep: char) -> Vec<String> {
    let cs = chars_of(s);
    split_chars(&cs, sep).iter().map(|p| string_from(p, 0, p.len())).collect()
}

#[test]
fn split_keeps_empty_pieces() {
    assert_eq!(pieces("a;b", ';'), vec!["a", "b"]);
    assert_eq!(pieces("", ';'), vec![""]);
    assert_eq!(pieces(";a;;", ';'), vec!["", "a", "", ""]);
    assert_eq!(pieces("한=글", '='), vec!["한", "글"]);
}

#[test]
fn split_then_join_gives_the_string_back() {
    for s in ["a=b;c", "", ";;", "x=1; y=2"] {
        assert_eq!(pieces(s, ';').join(";"), s);
    }
}

#[test]
fn string_map_keeps_first_insertion_order() {
    let mut m = StringMap::new();
    m.insert("b".to_string(), 1u32);
    m.insert("a".to_string(), 2);
    m.insert("b".to_string(), 3);
    assert_eq!(m.len(), 2);
    assert_eq!(m.entry(0), (&"b".to_string(), &3));
    assert_eq!(m.entry(1), (&"a".to_string(), &2));
    assert_eq!(m.get(&"b".to_string()), Some(&3));
    assert_eq!(m.get(&"c".to_string()), None);
}

#[test]
fn pages_follow_the_access_key() {
    let yes = CookieToken { authorized: true };
    let no = CookieToken { authorized: false };
    assert_eq!(page_action(Page::Login, &no), PageAction::ServeFrontend);
    assert_eq!(page_action(Page::Login, &yes), PageAction::RedirectToHome);
    assert_eq!(page_action(Page::Home, &yes), PageAction::ServeFrontend);
    assert_eq!(page_action(Page::Home, &no), PageAction::RedirectToLogin);
    assert_eq!(page_action(Page::Devices, &no), PageAction::RedirectToLogin);
    assert_eq!(page_action(Page::Logout, &yes), PageAction::RedirectToLogin);
}
