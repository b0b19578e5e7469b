use mail_headers::mail_type::MailType;
use mail_headers::quoting::{quote, quote_if_needed};
use quoted_string::test_utils::TestSpec;

#[test]
fn quote_escapes_quotes_and_backslashes() {
    assert_eq!(quote("this is simple", MailType::Ascii).unwrap(), "\"this is simple\"");
    assert_eq!(quote("with quotes\"  ", MailType::Ascii).unwrap(), "\"with quotes\\\"  \"");
    assert_eq!(quote("with slash\\  ", MailType::Ascii).unwrap(), "\"with slash\\\\  \"");
    assert_eq!(quote("", MailType::Ascii).unwrap(), "\"\"");
    assert_eq!(quote("→", MailType::Ascii), None);
    assert_eq!(quote("→", MailType::Mime8BitEnabled), None);
    assert_eq!(quote("→", MailType::Internationalized).unwrap(), "\"→\"");
    assert_eq!(quote("a\0b", MailType::Internationalized), None);
}

#[test]
fn quote_if_needed_leaves_dot_atom_text_alone() {
    assert_eq!(quote_if_needed("abcdef", MailType::Ascii).unwrap(), "abcdef");
    assert_eq!(quote_if_needed("abcd.e", MailType::Ascii).unwrap(), "abcd.e");
    assert_eq!(quote_if_needed("ab def", MailType::Ascii).unwrap(), "\"ab def\"");
    assert_eq!(quote_if_needed("abc..f", MailType::Ascii).unwrap(), "\"abc..f\"");
    assert_eq!(quote_if_needed("", MailType::Ascii).unwrap(), "\"\"");
    assert_eq!(quote_if_needed("äb", MailType::Ascii), None);
    assert_eq!(quote_if_needed("äb", MailType::Internationalized).unwrap(), "äb");
}

// The quoted strings of this crate are those of the crate `quoted-string`, as far as its
// example specification goes: it knows the printable characters of US-ASCII and the blank.
#[test]
fn quote_agrees_with_the_quoted_string_crate() {
    let mut inputs: Vec<String> = Vec::new();
    for code in 0u8..=127 {
        inputs.push((code as char).to_string());
        inputs.push(format!("a{}b", code as char));
    }
    inputs.push("→".to_owned());
    inputs.push("some \"quoted\\ text\" here".to_owned());
    for input in inputs {
        if input.contains('\t') {
            // the tab is white space of a mail, and no character of the example specification
            continue;
        }
        let theirs = quoted_string::quote::<TestSpec>(&input).ok();
        let ours = quote(&input, MailType::Ascii);
        assert_eq!(ours, theirs, "{:?}", input);
    }
}
