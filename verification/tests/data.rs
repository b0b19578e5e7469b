use mail_headers::components::date_time::{DateTime, FIRST_SECOND, LAST_SECOND};
use mail_headers::components::raw_unstructured::RawUnstructured;
use mail_headers::components::transfer_encoding::TransferEncoding;
use mail_headers::data::{InnerAscii, InnerUtf8, Input, SharedText, SimpleItem};
use mail_headers::encoder::{EncodableInHeader, EncodingWriter, TraceToken};
use mail_headers::error::{
    BuildInValidationError, ChainTail, ComponentCreationError, ComponentError, EncodingError,
    HeaderValidationError,
};
use mail_headers::components::message_id::MessageID;
use mail_headers::header::{within_brackets_of, Component, HeaderObj};
use mail_headers::headers::{comments, subject};
use mail_headers::mail_type::MailType;
use mail_headers::name::HeaderName;

fn text(s: &str) -> TraceToken {
    TraceToken::Text(s.to_owned())
}

fn encoded<C: EncodableInHeader>(component: &C, mail_type: MailType) -> String {
    let mut writer = EncodingWriter::new(mail_type);
    component.encode(&mut writer).unwrap();
    writer.to_string()
}

#[test]
fn _7bit() {
    assert_eq!(encoded(&TransferEncoding::_7Bit, MailType::Ascii), "7bit");
}

#[test]
fn _8bit() {
    assert_eq!(encoded(&TransferEncoding::_8Bit, MailType::Ascii), "8bit");
}

#[test]
fn binary() {
    assert_eq!(encoded(&TransferEncoding::Binary, MailType::Ascii), "binary");
}

#[test]
fn base64() {
    assert_eq!(encoded(&TransferEncoding::Base64, MailType::Ascii), "base64");
}

#[test]
fn quoted_printable() {
    assert_eq!(encoded(&TransferEncoding::QuotedPrintable, MailType::Ascii), "quoted-printable");
    assert_eq!(TransferEncoding::QuotedPrintable.repr(), "quoted-printable");
}

#[test]
fn simple_item_is_tagged_by_what_it_holds() {
    let ascii = SimpleItem::from("plain".to_owned());
    assert!(ascii.is_ascii());
    assert_eq!(ascii.as_str(), "plain");
    let utf8 = SimpleItem::from("plän".to_owned());
    assert!(!utf8.is_ascii());
    assert_eq!(utf8.as_str(), "plän");
    assert_eq!(utf8.clone().into_string(), "plän");
    // tagged without a look at the text
    let unchecked = SimpleItem::from_utf8("plain".to_owned());
    assert!(!unchecked.is_ascii());
    assert_ne!(unchecked, ascii);
    assert_eq!(unchecked, SimpleItem::from_utf8_input(Input::from_str("plain")));
    assert_eq!(ascii, SimpleItem::from(Input::from_str("plain").into_shared()));
    assert!(SimpleItem::from(String::new()).is_ascii());
}

#[test]
fn inner_ascii_takes_ascii_only() {
    let ascii = InnerAscii::from_ascii(InnerUtf8::Owned("abc".to_owned())).unwrap();
    assert_eq!(ascii.as_str(), "abc");
    assert_eq!(ascii.clone().into_inner().as_str(), "abc");
    let back = InnerAscii::from_ascii(InnerUtf8::Owned("äbc".to_owned())).unwrap_err();
    assert_eq!(back.as_str(), "äbc");
}

#[test]
fn input_shares_without_changing_the_text() {
    let owned = Input::from_string("hällo wörld".to_owned());
    assert!(matches!(owned.0, InnerUtf8::Owned(_)));
    let shared = owned.clone().into_shared();
    assert!(matches!(shared.0, InnerUtf8::Shared(_)));
    assert_eq!(shared.as_str(), "hällo wörld");
    assert_eq!(shared, owned);
    assert_eq!(shared.clone().into_shared().into_string(), "hällo wörld");
    assert_eq!(format!("{:?}", Input::from_str("hy")), "Input(Owned(\"hy\"))");
}

#[test]
fn shared_text_is_cut_by_characters() {
    let all = SharedText::new("hällo wörld".to_owned());
    assert_eq!(all.len(), 11);
    let word = all.slice(6, 11);
    assert_eq!(word.as_str(), "wörld");
    assert_eq!(word.len(), 5);
    let inner = word.slice(1, 3);
    assert_eq!(inner.as_str(), "ör");
    assert_eq!(all.slice(0, 0).as_str(), "");
    assert_eq!(all.slice(11, 11).len(), 0);
    assert_eq!(inner.clone(), SharedText::new("ör".to_owned()));
}

#[test]
fn raw_unstructured_takes_visible_text_only() {
    let text = RawUnstructured::try_from("visible").unwrap();
    assert_eq!(text.as_str(), "visible");
    assert_eq!(encoded(&text, MailType::Ascii), "visible");
    assert_eq!(text.clone().into_string(), "visible");
    assert_eq!(text.clone().into_input(), Input::from_str("visible"));
    assert_eq!(RawUnstructured::from_input(Input::from_str("visible")), text);

    let spaced = RawUnstructured::try_from("hy there").unwrap();
    let mut writer = EncodingWriter::new(MailType::Ascii);
    assert_eq!(
        spaced.encode(&mut writer),
        Err(EncodingError::Component(ComponentError::InvalidRawUnstructured(
            "hy there".to_owned(),
            MailType::Ascii
        )))
    );
    assert_eq!(writer.trace(), vec![]);

    let utf8 = RawUnstructured::try_from("sichtbär").unwrap();
    assert_eq!(encoded(&utf8, MailType::Internationalized), "sichtbär");
    let mut writer = EncodingWriter::new(MailType::Mime8BitEnabled);
    assert_eq!(
        utf8.encode(&mut writer),
        Err(EncodingError::Component(ComponentError::InvalidRawUnstructured(
            "sichtbär".to_owned(),
            MailType::Mime8BitEnabled
        )))
    );
}

#[test]
fn date_time_is_written_as_rfc2822() {
    let epoch = DateTime::from_timestamp(0).unwrap();
    assert_eq!(encoded(&epoch, MailType::Ascii), "Thu, 1 Jan 1970 00:00:00 +0000");
    let later = DateTime::from_timestamp(1_057_056_757).unwrap();
    assert_eq!(later.timestamp(), 1_057_056_757);
    assert_eq!(encoded(&later, MailType::Internationalized), "Tue, 1 Jul 2003 10:52:37 +0000");
    let first = DateTime::from_timestamp(FIRST_SECOND).unwrap();
    assert_eq!(encoded(&first, MailType::Ascii), "Sat, 1 Jan 0000 00:00:00 +0000");
    let last = DateTime::from_timestamp(LAST_SECOND).unwrap();
    assert_eq!(encoded(&last, MailType::Ascii), "Fri, 31 Dec 9999 23:59:59 +0000");
    assert_eq!(DateTime::from_timestamp(FIRST_SECOND - 1), None);
    assert_eq!(DateTime::from_timestamp(LAST_SECOND + 1), None);
    assert_eq!(DateTime::from_timestamp(i64::MAX), None);
    assert_eq!(DateTime::from_timestamp(i64::MIN), None);
}

#[test]
fn writer_keeps_marks_and_text() {
    let mut writer = EncodingWriter::new(MailType::Ascii);
    assert_eq!(writer.mail_type(), MailType::Ascii);
    writer.write_str("ab");
    writer.write_char('c');
    writer.mark_fws_pos();
    writer.mark_fws_pos();
    writer.write_fws();
    writer.write_str("");
    writer.write_str_unchecked("d");
    assert_eq!(
        writer.trace(),
        vec![text("abc"), TraceToken::MarkFWS, TraceToken::MarkFWS, TraceToken::MarkFWS, text(" d")]
    );
    assert_eq!(writer.to_string(), "abc d");
    assert_eq!(writer.write_utf8("e"), Err(EncodingError::Utf8NotAllowed));
    assert_eq!(writer.to_string(), "abc d");

    let mut writer = EncodingWriter::new(MailType::Internationalized);
    assert_eq!(writer.write_utf8("ä"), Ok(()));
    writer.write_str_unchecked("ö");
    assert_eq!(writer.trace(), vec![text("äö")]);
}

#[test]
fn writer_takes_back_the_header_that_failed() {
    let mut writer = EncodingWriter::new(MailType::Ascii);
    writer.write_str("kept");
    writer.finish_header();
    writer.write_str("lost");
    writer.mark_fws_pos();
    writer.undo_header();
    assert_eq!(writer.trace(), vec![text("kept")]);
    writer.undo_header();
    assert_eq!(writer.to_string(), "kept");
    writer.finish_header();
    writer.write_str("!");
    assert_eq!(writer.to_string(), "kept!");
}

#[test]
fn header_is_written_as_a_line() {
    let mut writer = EncodingWriter::new(MailType::Ascii);
    let subject = HeaderObj::new(
        subject(),
        Component::RawUnstructured(RawUnstructured::try_from("Ok").unwrap()),
    )
    .unwrap();
    subject.encode_header(&mut writer).unwrap();
    assert_eq!(writer.to_string(), "Subject: Ok\r\n");
    assert_eq!(
        writer.trace(),
        vec![text("Subject:"), TraceToken::MarkFWS, text(" Ok\r\n")]
    );

    let spaced = HeaderObj::new(
        comments(),
        Component::RawUnstructured(RawUnstructured::try_from("not ok").unwrap()),
    )
    .unwrap();
    writer.write_str("half a line");
    let res = spaced.encode_header(&mut writer);
    assert_eq!(
        res,
        Err(EncodingError::Component(ComponentError::InvalidRawUnstructured(
            "not ok".to_owned(),
            MailType::Ascii
        )))
    );
    assert_eq!(writer.to_string(), "Subject: Ok\r\n");

    let mut plain = EncodingWriter::new(MailType::Ascii);
    spaced.encode(&mut plain).unwrap_err();
    assert_eq!(plain.to_string(), "");
    subject.encode(&mut plain).unwrap();
    assert_eq!(plain.to_string(), "Ok");
}

#[test]
fn header_with_a_name_that_is_not_ascii_is_not_written() {
    let kind = mail_headers::header::HeaderKind {
        name: HeaderName::from_ascii_unchecked("Sübject"),
        ..subject()
    };
    let header = HeaderObj::new(
        kind,
        Component::RawUnstructured(RawUnstructured::try_from("Ok").unwrap()),
    )
    .unwrap();
    let mut writer = EncodingWriter::new(MailType::Internationalized);
    assert_eq!(
        header.encode_header(&mut writer),
        Err(EncodingError::NotEncodable { encoding: "header name" })
    );
    assert_eq!(writer.to_string(), "");
}

#[test]
fn creation_error_says_what_failed() {
    let plain = ComponentCreationError::new("Email");
    assert_eq!(plain.component(), "Email");
    assert_eq!(plain.str_context(), None);
    assert_eq!(plain.cause(), None);
    assert_eq!(plain.to_string(), "creating component Email failed");

    let with_text = ComponentCreationError::new_with_str("Email", "a b");
    assert_eq!(with_text.str_context(), Some("a b"));
    assert_eq!(plain.clone().with_str_context("a b"), with_text);

    let parent = ComponentError::InvalidEmail("a b".to_owned());
    let mut wrapped = ComponentCreationError::from_parent(parent.clone(), "Mailbox");
    assert_eq!(wrapped.cause(), Some(&parent));
    assert_eq!(wrapped.str_context(), None);
    wrapped.set_str_context("ctx");
    assert_eq!(wrapped.str_context(), Some("ctx"));
    assert_eq!(wrapped.component(), "Mailbox");
    assert_eq!(ChainTail::Backtrace.as_fail(), None);
    assert_eq!(ChainTail::Error(parent.clone()).as_fail(), Some(&parent));
}

#[test]
fn validation_errors_have_their_messages() {
    let cases = [
        (
            BuildInValidationError::MoreThenOne { header_name: "Date" },
            "Date header field can appear at most one time in a header map",
        ),
        (
            BuildInValidationError::MultiMailboxFromWithoutSender,
            "From field contained multiple addresses but no Sender field was set",
        ),
        (
            BuildInValidationError::ResentDateFieldMissing,
            "each resent block must have a resent-date field",
        ),
        (
            BuildInValidationError::MultiMailboxResentFromWithoutResentSender,
            "Resent-From field in resent block without a Resent-Sender field",
        ),
        (BuildInValidationError::NoFrom, "From field missing"),
        (BuildInValidationError::NoContentType, "Content-Type field missing"),
        (
            BuildInValidationError::NoMultipartBoundary,
            "Content-Type header misses boundary parameter in multipart body",
        ),
        (
            BuildInValidationError::EmptyMultipartBody,
            "multipart bodies need to contain at last one part (/sub-body)",
        ),
        (BuildInValidationError::NoTo, "missing To header field"),
    ];
    for (error, message) in cases {
        assert_eq!(error.to_string(), message);
        assert_eq!(HeaderValidationError::from(error).to_string(), message);
        assert_eq!(HeaderValidationError::from(error), HeaderValidationError::BuildIn(error));
    }
    assert_eq!(HeaderValidationError::Custom("ups".to_owned()).to_string(), "ups");
}

#[test]
fn a_component_shows_what_is_inside() {
    let encoding = Component::TransferEncoding(TransferEncoding::_7Bit);
    assert_eq!(encoding.debug_string(), "_7Bit");
    assert_eq!(encoding.debug_string(), format!("{:?}", TransferEncoding::_7Bit));

    let text = RawUnstructured::try_from("hy (there)").unwrap();
    let shown = format!("{:?}", text);
    assert_eq!(shown, "RawUnstructured { text: Input(Owned(\"hy (there)\")) }");
    assert_eq!(Component::RawUnstructured(text.clone()).debug_string(), shown);

    let id = MessageID::try_from("a@b").unwrap();
    assert_eq!(Component::MessageID(id.clone()).debug_string(), format!("{:?}", id));

    let header = HeaderObj::new(subject(), Component::RawUnstructured(text)).unwrap();
    assert_eq!(header.debug_string(), shown);
}

#[test]
fn within_brackets_is_what_the_outer_brackets_hold() {
    assert_eq!(within_brackets_of("Name(inside)"), "inside");
    assert_eq!(within_brackets_of("Name(a (b) c)"), "a (b) c");
    assert_eq!(within_brackets_of("Name()"), "");
    assert_eq!(within_brackets_of("(ä)"), "ä");
    assert_eq!(within_brackets_of("no brackets"), "no brackets");
    assert_eq!(within_brackets_of("Name(open"), "Name(open");
    assert_eq!(within_brackets_of("closed)"), "closed)");
    assert_eq!(within_brackets_of(""), "");
    assert_eq!(within_brackets_of("("), "(");
}
