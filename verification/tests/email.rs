use mail_headers::components::email::{write_transcoded, Domain, Email, LocalPart};
use mail_headers::encoder::{EncodableInHeader, EncodingWriter, TraceToken};
use mail_headers::error::{ComponentError, EncodingError};
use mail_headers::mail_type::MailType;

fn text(s: &str) -> TraceToken {
    TraceToken::Text(s.to_owned())
}

#[test]
fn email_try_from() {
    let email = Email::try_from("abc@de.fg").unwrap();
    assert_eq!(
        Email {
            local_part: LocalPart::try_from("abc").unwrap(),
            domain: Domain::try_from("de.fg").unwrap()
        },
        email
    )
}

#[test]
fn local_part_simple() {
    let mut writer = EncodingWriter::new(MailType::Ascii);
    LocalPart::try_from("hans").unwrap().encode(&mut writer).unwrap();
    assert_eq!(writer.trace(), vec![TraceToken::MarkFWS, text("hans"), TraceToken::MarkFWS]);
}

#[test]
fn local_part_quoted() {
    let mut writer = EncodingWriter::new(MailType::Ascii);
    LocalPart::try_from("ha ns").unwrap().encode(&mut writer).unwrap();
    assert_eq!(writer.trace(), vec![TraceToken::MarkFWS, text("\"ha ns\""), TraceToken::MarkFWS]);
}

#[test]
fn local_part_utf8() {
    let mut writer = EncodingWriter::new(MailType::Internationalized);
    LocalPart::try_from("Jörn").unwrap().encode(&mut writer).unwrap();
    assert_eq!(writer.trace(), vec![TraceToken::MarkFWS, text("Jörn"), TraceToken::MarkFWS]);
}

#[test]
fn local_part_utf8_on_ascii() {
    let mut writer = EncodingWriter::new(MailType::Ascii);
    let local = LocalPart::try_from("Jörn").unwrap();
    let res = local.encode(&mut writer);
    assert_eq!(
        res,
        Err(EncodingError::Component(ComponentError::InvalidLocalPart("Jörn".to_owned())))
    );
    writer.undo_header();
    assert_eq!(writer.trace(), vec![]);
}

#[test]
fn domain() {
    let mut writer = EncodingWriter::new(MailType::Ascii);
    Domain::try_from("bad.at.domain").unwrap().encode(&mut writer).unwrap();
    assert_eq!(
        writer.trace(),
        vec![TraceToken::MarkFWS, text("bad.at.domain"), TraceToken::MarkFWS]
    );
}

#[test]
fn domain_international() {
    let mut writer = EncodingWriter::new(MailType::Internationalized);
    Domain::try_from("dömain").unwrap().encode(&mut writer).unwrap();
    assert_eq!(writer.trace(), vec![TraceToken::MarkFWS, text("dömain"), TraceToken::MarkFWS]);
}

#[test]
fn domain_encoded() {
    let mut writer = EncodingWriter::new(MailType::Ascii);
    Domain::try_from("dat.ü.dü").unwrap().encode(&mut writer).unwrap();
    assert_eq!(
        writer.trace(),
        vec![TraceToken::MarkFWS, text("dat.xn--tda.xn--d-eha"), TraceToken::MarkFWS]
    );
}

#[test]
fn domain_unchanged_when_internationalized() {
    let mut writer = EncodingWriter::new(MailType::Internationalized);
    Domain::try_from("dat.ü.dü").unwrap().encode(&mut writer).unwrap();
    assert_eq!(writer.to_string(), "dat.ü.dü");
}

#[test]
fn email_simple() {
    let mut writer = EncodingWriter::new(MailType::Ascii);
    Email::try_from("simple@and.ascii").unwrap().encode(&mut writer).unwrap();
    assert_eq!(
        writer.trace(),
        vec![
            TraceToken::MarkFWS,
            text("simple"),
            TraceToken::MarkFWS,
            text("@"),
            TraceToken::MarkFWS,
            text("and.ascii"),
            TraceToken::MarkFWS
        ]
    );
}

#[test]
fn local_part_as_str() {
    let lp = LocalPart::try_from("hello").unwrap();
    assert_eq!(lp.as_str(), "hello")
}

#[test]
fn domain_as_str() {
    let domain = Domain::try_from("hello").unwrap();
    assert_eq!(domain.as_str(), "hello")
}

#[test]
fn email_without_at_is_no_email() {
    for text in ["", "abc", "abc.de", "[abc]", "a b c"] {
        assert_eq!(Email::try_from(text), Err(ComponentError::InvalidEmail(text.to_owned())));
    }
}

#[test]
fn email_splits_at_the_first_at() {
    let email = Email::try_from("a@[b@c]").unwrap();
    assert_eq!(email.local_part.as_str(), "a");
    assert_eq!(email.domain.as_str(), "[b@c]");
    assert_eq!(Email::try_from("a@b@c"), Err(ComponentError::InvalidDomainName("b@c".to_owned())));
    assert_eq!(Email::try_from("a@"), Err(ComponentError::InvalidDomainName("".to_owned())));
    let odd = Email::try_from("@b").unwrap();
    assert_eq!(odd.local_part.as_str(), "");
    let mut writer = EncodingWriter::new(MailType::Ascii);
    odd.encode(&mut writer).unwrap();
    assert_eq!(writer.to_string(), "\"\"@b");
}

#[test]
fn email_round_trips() {
    for &(text, mail_type, written) in &[
        ("simple@and.ascii", MailType::Ascii, "simple@and.ascii"),
        ("a.b-c@[127.0.0.1]", MailType::Mime8BitEnabled, "a.b-c@[127.0.0.1]"),
        ("simple@dat.ü.dü", MailType::Ascii, "simple@dat.xn--tda.xn--d-eha"),
        ("simple@dat.ü.dü", MailType::Internationalized, "simple@dat.ü.dü"),
        ("jörn@dömain", MailType::Internationalized, "jörn@dömain"),
    ] {
        let email = Email::try_from(text).unwrap();
        let mut first = EncodingWriter::new(mail_type);
        email.encode(&mut first).unwrap();
        assert_eq!(first.to_string(), written);
        // a second writer gets the same
        let mut second = EncodingWriter::new(mail_type);
        email.clone().encode(&mut second).unwrap();
        assert_eq!(first.trace(), second.trace());
    }
}

#[test]
fn check_domain_tells_the_mail_type() {
    assert_eq!(Domain::check_domain("de.fg"), Ok(MailType::Ascii));
    assert_eq!(Domain::check_domain("dö.fg"), Ok(MailType::Internationalized));
    assert_eq!(Domain::check_domain("[127.0.0.1]"), Ok(MailType::Ascii));
    assert_eq!(Domain::check_domain("[]"), Ok(MailType::Ascii));
    assert_eq!(Domain::check_domain("[a b\tc]"), Ok(MailType::Ascii));
    assert_eq!(Domain::check_domain("[ä]"), Ok(MailType::Internationalized));
    for bad in ["", ".", ".a", "a.", "a..b", "a b", "a@b", "[a", "a]", "[a[b]", "[a]b]", "[a\\b]",
        "[a\nb]", "[", "]", "a,b"]
    {
        assert_eq!(
            Domain::check_domain(bad),
            Err(ComponentError::InvalidDomainName(bad.to_owned())),
            "{:?}",
            bad
        );
        assert_eq!(
            Domain::try_from(bad),
            Err(ComponentError::InvalidDomainName(bad.to_owned()))
        );
    }
    assert!(Domain::try_from("de.fg").unwrap().is_ascii());
    assert!(!Domain::try_from("dö.fg").unwrap().is_ascii());
}

#[test]
fn local_part_is_quoted_where_it_must_be() {
    for &(text, written) in &[
        ("hans", "hans"),
        ("ha.ns", "ha.ns"),
        ("ha ns", "\"ha ns\""),
        ("", "\"\""),
        (".hans", "\".hans\""),
        ("hans.", "\"hans.\""),
        ("ha..ns", "\"ha..ns\""),
        ("ha\"ns", "\"ha\\\"ns\""),
        ("ha\\ns", "\"ha\\\\ns\""),
        ("ha\tns@", "\"ha\tns@\""),
    ] {
        let mut writer = EncodingWriter::new(MailType::Ascii);
        LocalPart::try_from(text).unwrap().encode(&mut writer).unwrap();
        assert_eq!(writer.to_string(), written);
    }
    let mut writer = EncodingWriter::new(MailType::Internationalized);
    LocalPart::try_from("Jö rn").unwrap().encode(&mut writer).unwrap();
    assert_eq!(writer.to_string(), "\"Jö rn\"");
    for bad in ["Jörn", "Jö rn", "ha\nns", "ha\u{7f}ns"] {
        let mut writer = EncodingWriter::new(MailType::Ascii);
        assert_eq!(
            LocalPart::try_from(bad).unwrap().encode(&mut writer),
            Err(EncodingError::Component(ComponentError::InvalidLocalPart(bad.to_owned())))
        );
        assert_eq!(writer.trace(), vec![]);
    }
}

#[test]
fn domain_that_cannot_be_transcoded() {
    for text in ["ü.xn--a", "a\u{200d}b.ü", "xn--ü"] {
        let domain = Domain::try_from(text).unwrap();
        let mut writer = EncodingWriter::new(MailType::Ascii);
        assert_eq!(
            domain.encode(&mut writer),
            Err(EncodingError::NotEncodable { encoding: "punycode" })
        );
        assert_eq!(writer.trace(), vec![TraceToken::MarkFWS]);
        // as it is, the domain can be written
        let mut writer = EncodingWriter::new(MailType::Internationalized);
        domain.encode(&mut writer).unwrap();
        assert_eq!(writer.to_string(), text);
    }
}

#[test]
fn transcoded_text_is_written_if_it_is_ascii() {
    let mut writer = EncodingWriter::new(MailType::Ascii);
    assert_eq!(write_transcoded(&mut writer, Ok("xn--tda".to_owned())), Ok(()));
    assert_eq!(writer.trace(), vec![text("xn--tda")]);
    assert_eq!(
        write_transcoded(&mut writer, Ok("ü".to_owned())),
        Err(EncodingError::NotEncodable { encoding: "punycode" })
    );
    assert_eq!(
        write_transcoded(&mut writer, Err(idna::Errors::default())),
        Err(EncodingError::NotEncodable { encoding: "punycode" })
    );
    assert_eq!(writer.trace(), vec![text("xn--tda")]);
}

#[test]
fn email_parts_are_windows_into_one_buffer() {
    let email = Email::try_from("abc@de.fg").unwrap();
    assert_eq!(
        format!("{:?}", email.local_part),
        "LocalPart(Input(Shared(SharedText { buf: \"abc@de.fg\", start: 0, end: 3 })))"
    );
    assert_eq!(
        format!("{:?}", email.domain),
        "Domain(Ascii(InnerAscii { text: Shared(SharedText { buf: \"abc@de.fg\", start: 4, end: 9 }) }))"
    );
    let utf8 = Email::try_from("jö@dö").unwrap();
    assert_eq!(
        format!("{:?}", utf8.domain),
        "Domain(Utf8(Shared(SharedText { buf: \"jö@dö\", start: 3, end: 5 })))"
    );
}
