use mail_headers::error::ComponentError;
use mail_headers::grammar::{
    is_ascii, is_ascii_vchar, is_atext, is_dtext, is_qtext, is_special, is_vchar, is_ws,
};
use mail_headers::mail_type::MailType;
use mail_headers::text_partition::{partition, Partition};

#[test]
fn partition_of_the_empty_text_is_empty() {
    assert_eq!(partition("").unwrap(), vec![]);
}

#[test]
fn partition_alternates() {
    assert_eq!(
        partition("ab  c\r\n d").unwrap(),
        vec![
            Partition::VCHAR("ab"),
            Partition::SPACE("  "),
            Partition::VCHAR("c"),
            Partition::SPACE("\r\n "),
            Partition::VCHAR("d"),
        ]
    );
    assert_eq!(partition(" ö ").unwrap(), vec![
        Partition::SPACE(" "),
        Partition::VCHAR("ö"),
        Partition::SPACE(" "),
    ]);
    assert_eq!(partition("\t").unwrap(), vec![Partition::SPACE("\t")]);
    assert_eq!(partition("x").unwrap(), vec![Partition::VCHAR("x")]);
}

#[test]
fn partition_puts_the_text_together_again() {
    let text = " a sentence ,\twith\r\nsome   words! ";
    let parts = partition(text).unwrap();
    let joined: String = parts.iter().map(|p| p.as_str()).collect();
    assert_eq!(joined, text);
    for pair in parts.windows(2) {
        assert_ne!(pair[0].is_visible(), pair[1].is_visible());
    }
}

#[test]
fn partition_refuses_control_characters() {
    assert_eq!(
        partition("ab\u{7}cd"),
        Err(ComponentError::NeedAtLastOneVCHAR("ab\u{7}cd".to_owned()))
    );
    assert_eq!(
        partition("\u{7f}"),
        Err(ComponentError::NeedAtLastOneVCHAR("\u{7f}".to_owned()))
    );
}

#[test]
fn character_classes() {
    assert!(is_ascii('a') && is_ascii('\u{7f}') && !is_ascii('ä'));
    assert!(is_ws(' ') && is_ws('\t') && !is_ws('\n') && !is_ws('a'));
    assert!(is_ascii_vchar('!') && is_ascii_vchar('~') && !is_ascii_vchar(' '));
    assert!(!is_ascii_vchar('\u{7f}') && !is_ascii_vchar('ä'));
    assert!(is_vchar('a', MailType::Ascii) && !is_vchar('ä', MailType::Ascii));
    assert!(!is_vchar('ä', MailType::Mime8BitEnabled));
    assert!(is_vchar('ä', MailType::Internationalized));
    assert!(!is_vchar(' ', MailType::Internationalized));
    for ch in "()<>[]:;@\\,.\"".chars() {
        assert!(is_special(ch));
        assert!(!is_atext(ch, MailType::Internationalized));
    }
    for ch in "abcXYZ019!#$%&'*+-/=?^_`{|}~".chars() {
        assert!(!is_special(ch));
        assert!(is_atext(ch, MailType::Ascii));
    }
    assert!(!is_atext('ä', MailType::Ascii) && is_atext('ä', MailType::Internationalized));
    assert!(is_dtext('!', MailType::Ascii) && is_dtext('Z', MailType::Ascii));
    assert!(is_dtext('^', MailType::Ascii) && is_dtext('~', MailType::Ascii));
    assert!(is_dtext('@', MailType::Ascii) && is_dtext('.', MailType::Ascii));
    for ch in "[\\] \t\u{7f}".chars() {
        assert!(!is_dtext(ch, MailType::Internationalized));
    }
    assert!(!is_dtext('ä', MailType::Ascii) && is_dtext('ä', MailType::Internationalized));
    assert!(is_qtext('a', MailType::Ascii) && is_qtext('(', MailType::Ascii));
    assert!(!is_qtext('"', MailType::Ascii) && !is_qtext('\\', MailType::Ascii));
    assert!(!is_qtext(' ', MailType::Ascii));
    assert!(MailType::Internationalized.is_internationalized());
    assert!(!MailType::Ascii.is_internationalized());
    assert!(!MailType::Mime8BitEnabled.is_internationalized());
}
