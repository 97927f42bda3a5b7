use ssh_copy_id::text::{bytes_eq, concat_bytes, contains_bytes, ends_with_bytes, trim_bytes};

fn bytes(s: &str) -> Vec<u8> {
    s.as_bytes().to_vec()
}

#[test]
fn trim_removes_surrounding_whitespace() {
    assert_eq!(trim_bytes(&bytes("  key  ")), bytes("key"));
    assert_eq!(trim_bytes(&bytes("\t\r\nkey\n\r\t")), bytes("key"));
    assert_eq!(trim_bytes(&bytes("key")), bytes("key"));
    assert_eq!(trim_bytes(&bytes("k e y")), bytes("k e y"));
}

#[test]
fn trim_of_blank_text_is_empty() {
    assert_eq!(trim_bytes(&bytes("")), bytes(""));
    assert_eq!(trim_bytes(&bytes("  \n\t ")), bytes(""));
}

#[test]
fn suffix_detection_edges() {
    assert!(ends_with_bytes(&bytes("id_rsa.pub"), &bytes(".pub")));
    assert!(ends_with_bytes(&bytes(".pub"), &bytes(".pub")));
    assert!(!ends_with_bytes(&bytes("ub"), &bytes(".pub")));
    assert!(ends_with_bytes(&bytes("anything"), &bytes("")));
    assert!(!ends_with_bytes(&bytes("id_rsa.pubx"), &bytes(".pub")));
}

#[test]
fn substring_search_edges() {
    assert!(contains_bytes(&bytes("The agent has no identities."), &bytes("no identities")));
    assert!(contains_bytes(&bytes("abc"), &bytes("abc")));
    assert!(contains_bytes(&bytes("abc"), &bytes("")));
    assert!(!contains_bytes(&bytes("abc"), &bytes("abcd")));
    assert!(!contains_bytes(&bytes("aab"), &bytes("ab c")));
    assert!(contains_bytes(&bytes("aaab"), &bytes("aab")));
}

#[test]
fn concatenation_and_equality() {
    assert_eq!(concat_bytes(&bytes("/home/u"), &bytes("/.ssh")), bytes("/home/u/.ssh"));
    assert_eq!(concat_bytes(&bytes(""), &bytes("x")), bytes("x"));
    assert!(bytes_eq(&bytes("abc"), &bytes("abc")));
    assert!(!bytes_eq(&bytes("abc"), &bytes("abd")));
    assert!(!bytes_eq(&bytes("abc"), &bytes("ab")));
}
