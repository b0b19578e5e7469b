use mail_headers::components::email::Email;
use mail_headers::components::mailbox::{Mailbox, NoDisplayName};
use mail_headers::components::mailbox_list::MailboxList;
use mail_headers::components::phrase::{Phrase, Word};
use mail_headers::encoder::{EncodableInHeader, EncodingWriter, TraceToken};
use mail_headers::error::{ComponentError, EncodingError};
use mail_headers::mail_type::MailType;

fn text(s: &str) -> TraceToken {
    TraceToken::Text(s.to_owned())
}

#[test]
fn email_only() {
    let email = Email::try_from("affen@haus").unwrap();
    let mailbox = Mailbox::from(email);
    let mut writer = EncodingWriter::new(MailType::Ascii);
    mailbox.encode(&mut writer).unwrap();
    assert_eq!(
        writer.trace(),
        vec![
            text("<"),
            TraceToken::MarkFWS,
            text("affen"),
            TraceToken::MarkFWS,
            text("@"),
            TraceToken::MarkFWS,
            text("haus"),
            TraceToken::MarkFWS,
            text(">")
        ]
    );
}

#[test]
fn with_display_text() {
    let mailbox = Mailbox {
        display_name: Some(Phrase::try_from("ay ya").unwrap()),
        email: Email::try_from("affen@haus").unwrap(),
    };
    let mut writer = EncodingWriter::new(MailType::Ascii);
    mailbox.encode(&mut writer).unwrap();
    assert_eq!(
        writer.trace(),
        vec![
            text("ay"),
            TraceToken::MarkFWS,
            text(" ya"),
            TraceToken::MarkFWS,
            text(" <"),
            TraceToken::MarkFWS,
            text("affen"),
            TraceToken::MarkFWS,
            text("@"),
            TraceToken::MarkFWS,
            text("haus"),
            TraceToken::MarkFWS,
            text(">")
        ]
    );
}

#[test]
fn does_nothing_if_display_name_is_set() {
    let mailbox = Mailbox {
        display_name: Some(Phrase::try_from("ay ya").unwrap()),
        email: Email::try_from("ab@cd").unwrap(),
    };
    let mailbox2 = mailbox.clone();
    let mailbox = mailbox.with_default_name(|_| Ok::<Option<Phrase>, String>(None)).unwrap();
    assert_eq!(mailbox, mailbox2);
}

#[test]
fn generates_a_display_name_if_needed() {
    let mailbox = Mailbox { display_name: None, email: Email::try_from("ab@cd").unwrap() };
    let mailbox = mailbox
        .with_default_name(|email| {
            assert_eq!(email, &Email::try_from("ab@cd").unwrap());
            Ok::<Option<Phrase>, ComponentError>(Some(Phrase::try_from("ay ya")?))
        })
        .unwrap();

    assert_eq!(
        mailbox,
        Mailbox {
            display_name: Some(Phrase::try_from("ay ya").unwrap()),
            email: Email::try_from("ab@cd").unwrap(),
        }
    );
}

#[test]
fn can_decide_to_not_generate_a_name() {
    let mailbox = Mailbox { display_name: None, email: Email::try_from("ab@cd").unwrap() };
    let new_mailbox =
        mailbox.clone().with_default_name(|_| Ok::<Option<Phrase>, String>(None)).unwrap();
    assert_eq!(mailbox, new_mailbox);
}

#[test]
fn forward_errors() {
    let mailbox = Mailbox { display_name: None, email: Email::try_from("ab@cd").unwrap() };
    let result = mailbox.clone().with_default_name(|_| Err("ups".to_owned()));
    assert!(result.is_err());
    let err = result.unwrap_err();
    assert_eq!(err.to_string(), "ups");
}

#[test]
fn auto_gen_name_leaves_the_mailbox_alone_on_error() {
    let mut mailbox = Mailbox { display_name: None, email: Email::try_from("ab@cd").unwrap() };
    let result = mailbox.auto_gen_name(|_| Err("ups".to_owned()));
    assert_eq!(result, Err("ups".to_owned()));
    assert_eq!(mailbox, Mailbox { display_name: None, email: Email::try_from("ab@cd").unwrap() });
}

#[test]
fn mailbox_from_texts() {
    let plain = Mailbox::try_from("a@b.c").unwrap();
    assert_eq!(plain.display_name, None);
    let unnamed = Mailbox::try_from_unnamed((NoDisplayName, "a@b.c")).unwrap();
    assert_eq!(plain, unnamed);
    let named = Mailbox::try_from_pair(("Mr. Peté", "a@b.c")).unwrap();
    assert_eq!(named.display_name, Some(Phrase::try_from("Mr. Peté").unwrap()));
    assert_eq!(named.email, plain.email);
    let pair = Mailbox::from((Some(Phrase::try_from("Mr. Peté").unwrap()), plain.email.clone()));
    assert_eq!(pair, named);
    assert_eq!(
        Mailbox::try_from("no at sign"),
        Err(ComponentError::InvalidEmail("no at sign".to_owned()))
    );
    assert_eq!(
        Mailbox::try_from_pair(("\u{7}", "a@b.c")),
        Err(ComponentError::NeedAtLastOneVCHAR("\u{7}".to_owned()))
    );
    assert_eq!(Mailbox::try_from_pair((" ", "a@b.c")), Err(ComponentError::PhraseSize0));
}

#[test]
fn phrase_words() {
    let phrase = Phrase::try_from("  ay \t ya\r\n").unwrap();
    let words: Vec<&str> = phrase.words().iter().map(|w| w.as_str()).collect();
    assert_eq!(words, vec!["ay", "ya"]);
    assert_eq!(Phrase::try_from(""), Err(ComponentError::PhraseSize0));
    assert_eq!(Word::try_from("a b"), Err(ComponentError::NeedAtLastOneVCHAR("a b".to_owned())));
    assert_eq!(Word::try_from(""), Err(ComponentError::NeedAtLastOneVCHAR("".to_owned())));
}

#[test]
fn phrase_quotes_words_that_are_no_atoms() {
    let mut writer = EncodingWriter::new(MailType::Ascii);
    Phrase::try_from("Mr. \"X\"").unwrap().encode(&mut writer).unwrap();
    assert_eq!(writer.to_string(), "\"Mr.\" \"\\\"X\\\"\"");

    let mut writer = EncodingWriter::new(MailType::Ascii);
    let res = Phrase::try_from("Mr. Peté").unwrap().encode(&mut writer);
    assert_eq!(res, Err(EncodingError::NotEncodable { encoding: "quoted-string" }));
    // the blank before the word that fails is written, the word is not
    assert_eq!(writer.to_string(), "\"Mr.\" ");

    let mut writer = EncodingWriter::new(MailType::Internationalized);
    Phrase::try_from("Mr. Peté").unwrap().encode(&mut writer).unwrap();
    assert_eq!(writer.to_string(), "\"Mr.\" Peté");
}

#[test]
fn mailbox_list_is_comma_separated() {
    let list = MailboxList::try_from_vec(vec![
        Mailbox::try_from("a@b.c").unwrap(),
        Mailbox::try_from_pair(("X", "e@c.d")).unwrap(),
    ])
    .unwrap();
    assert_eq!(list.len(), 2);
    let mut writer = EncodingWriter::new(MailType::Ascii);
    list.encode(&mut writer).unwrap();
    assert_eq!(writer.to_string(), "<a@b.c>, X <e@c.d>");
    assert_eq!(
        MailboxList::try_from_vec(Vec::new()).unwrap_err(),
        ComponentError::MailboxListSize0
    );
    assert_eq!(MailboxList::from_single(Mailbox::try_from("a@b.c").unwrap()).len(), 1);
}

#[test]
fn mailbox_fails_where_its_email_fails() {
    let mailbox = Mailbox::try_from_pair(("X", "Jörn@b.c")).unwrap();
    let mut writer = EncodingWriter::new(MailType::Ascii);
    let res = mailbox.encode(&mut writer);
    assert_eq!(
        res,
        Err(EncodingError::Component(ComponentError::InvalidLocalPart("Jörn".to_owned())))
    );
    assert_eq!(writer.to_string(), "X <");
}
