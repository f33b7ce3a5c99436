use family_album::client::{AuthFailure, FamilyAlbumClient};
use family_album::text::{find, format_decimal, from_chars, has, has_suffix, matches_at, replace};
use family_album::text::{append_chars, same_text, slice_chars, to_chars};

fn chars(s: &str) -> Vec<char> {
    s.chars().collect()
}

fn text(v: Vec<char>) -> String {
    v.into_iter().collect()
}

#[test]
fn client_knows_its_addresses() {
    let client = FamilyAlbumClient::new("AbC123", "secret", "out dir");
    assert_eq!(client.login_url(), "https://mitene.us/f/AbC123/login");
    assert_eq!(client.page_url(1), "https://mitene.us/f/AbC123?page=1");
    assert_eq!(client.page_url(27), "https://mitene.us/f/AbC123?page=27");
    assert_eq!(client.output_directory(), "out dir");
    assert_eq!(client.token(), None);
}

#[test]
fn login_form_holds_token_password_and_button() {
    let client = FamilyAlbumClient::new("id", "p&ss word", "out");
    let fields = client.login_form("tok=en");
    assert_eq!(
        fields,
        vec![
            ("authenticity_token".to_string(), "tok=en".to_string()),
            ("session[password]".to_string(), "p&ss word".to_string()),
            ("commit".to_string(), "Login".to_string()),
        ]
    );
}

#[test]
fn login_page_gives_the_token_or_ends_the_login() {
    let client = FamilyAlbumClient::new("id", "pw", "out");
    let page = "<input name=\"authenticity_token\" value=\"t0k\">";
    assert_eq!(client.read_login_page(true, page), Ok("t0k".to_string()));
    assert_eq!(client.read_login_page(false, page), Err(AuthFailure::LoginPageUnavailable));
    assert_eq!(client.read_login_page(true, "<html></html>"), Err(AuthFailure::TokenMissing));
}

#[test]
fn accepted_login_leaves_its_token() {
    let mut client = FamilyAlbumClient::new("id", "pw", "out");
    assert_eq!(client.finish_login("first".to_string(), false), Err(AuthFailure::Rejected));
    assert_eq!(client.token(), None);
    assert_eq!(client.finish_login("first".to_string(), true), Ok(()));
    assert_eq!(client.token(), Some("first".to_string()));
    assert_eq!(client.finish_login("second".to_string(), false), Err(AuthFailure::Rejected));
    assert_eq!(client.token(), Some("first".to_string()));
    assert_eq!(client.finish_login("second".to_string(), true), Ok(()));
    assert_eq!(client.token(), Some("second".to_string()));
    assert_eq!(client.login_url(), "https://mitene.us/f/id/login");
}

#[test]
fn numbers_are_written_in_decimal() {
    assert_eq!(text(format_decimal(0)), "0");
    assert_eq!(text(format_decimal(7)), "7");
    assert_eq!(text(format_decimal(10)), "10");
    assert_eq!(text(format_decimal(1234567890)), "1234567890");
    assert_eq!(text(format_decimal(i32::MAX)), "2147483647");
    assert_eq!(text(format_decimal(-5)), "-5");
    assert_eq!(text(format_decimal(i32::MIN)), "-2147483648");
}

#[test]
fn text_converts_to_characters_and_back() {
    assert_eq!(to_chars("añ📷"), vec!['a', 'ñ', '📷']);
    assert_eq!(from_chars(&vec!['a', 'ñ', '📷']), "añ📷");
    assert_eq!(from_chars(&Vec::new()), "");
    assert!(same_text("abc", "abc"));
    assert!(!same_text("abc", "abd"));
    assert!(!same_text("abc", "ab"));
    assert!(same_text("", ""));
}

#[test]
fn leftmost_occurrence_is_found() {
    assert_eq!(find(&chars("abcabc"), &chars("bc")), Some(1));
    assert_eq!(find(&chars("abcabc"), &chars("abc")), Some(0));
    assert_eq!(find(&chars("abcabc"), &chars("cab")), Some(2));
    assert_eq!(find(&chars("abcabc"), &chars("abcabc")), Some(0));
    assert_eq!(find(&chars("abcabc"), &chars("abcabca")), None);
    assert_eq!(find(&chars("abcabc"), &chars("x")), None);
    assert_eq!(find(&chars("abc"), &chars("")), Some(0));
    assert_eq!(find(&chars(""), &chars("")), Some(0));
    assert_eq!(find(&chars("ñandú"), &chars("dú")), Some(3));
    assert!(has(&chars("abc"), &chars("c")));
    assert!(!has(&chars("abc"), &chars("d")));
}

#[test]
fn occurrences_and_endings_are_tested_in_place() {
    assert!(matches_at(&chars("abc"), &chars("bc"), 1));
    assert!(!matches_at(&chars("abc"), &chars("bc"), 0));
    assert!(!matches_at(&chars("abc"), &chars("bc"), 2));
    assert!(matches_at(&chars("abc"), &chars(""), 3));
    assert!(!matches_at(&chars("abc"), &chars(""), 4));
    assert!(has_suffix(&chars("abc"), &chars("bc")));
    assert!(has_suffix(&chars("abc"), &chars("")));
    assert!(!has_suffix(&chars("abc"), &chars("ab")));
    assert!(!has_suffix(&chars("bc"), &chars("abc")));
}

#[test]
fn occurrences_are_replaced_from_the_left() {
    assert_eq!(text(replace(&chars("aaa"), &chars("aa"), &chars("b"))), "ba");
    assert_eq!(text(replace(&chars("abcabc"), &chars("bc"), &chars(""))), "aa");
    assert_eq!(text(replace(&chars("abc"), &chars(""), &chars("x"))), "abc");
    assert_eq!(text(replace(&chars("abc"), &chars("d"), &chars("x"))), "abc");
    assert_eq!(text(replace(&chars(""), &chars("a"), &chars("x"))), "");
    assert_eq!(text(replace(&chars("a.b.c"), &chars("."), &chars("::"))), "a::b::c");
}

#[test]
fn characters_are_cut_out_and_appended() {
    assert_eq!(text(slice_chars(&chars("añbcd"), 1, 3)), "ñb");
    assert_eq!(text(slice_chars(&chars("abc"), 0, 3)), "abc");
    assert_eq!(text(slice_chars(&chars("abc"), 2, 2)), "");
    let mut out = chars("ab");
    append_chars(&mut out, &chars("cd"));
    append_chars(&mut out, &chars(""));
    assert_eq!(text(out), "abcd");
}
