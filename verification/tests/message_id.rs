use mail_headers::components::message_id::{
    dot_atom_text, id_left, id_right, no_fold_literal, parse_message_id, IResult, MessageID,
    MessageIDList, Needed,
};
use mail_headers::encoder::{EncodableInHeader, EncodingWriter, TraceToken};
use mail_headers::error::{ComponentError, EncodingError};
use mail_headers::mail_type::MailType;

fn text(s: &str) -> TraceToken {
    TraceToken::Text(s.to_owned())
}

#[test]
fn simple() {
    let mut writer = EncodingWriter::new(MailType::Ascii);
    MessageID::try_from("affen@haus").unwrap().encode(&mut writer).unwrap();
    assert_eq!(
        writer.trace(),
        vec![TraceToken::MarkFWS, text("<affen@haus>"), TraceToken::MarkFWS]
    );
    assert_eq!(writer.to_string(), "<affen@haus>");
}

#[test]
fn utf8() {
    let mut writer = EncodingWriter::new(MailType::Internationalized);
    MessageID::try_from("↓@↑.utf8").unwrap().encode(&mut writer).unwrap();
    assert_eq!(
        writer.trace(),
        vec![TraceToken::MarkFWS, text("<↓@↑.utf8>"), TraceToken::MarkFWS]
    );
}

#[test]
fn utf8_fails() {
    let mut writer = EncodingWriter::new(MailType::Ascii);
    let mid = MessageID::try_from("abc@øpunny.code").unwrap();
    let res = mid.encode(&mut writer);
    assert_eq!(res, Err(EncodingError::Utf8NotAllowed));
    writer.undo_header();
    assert_eq!(writer.to_string(), "");
}

#[test]
fn multipls() {
    let fst = MessageID::try_from("affen@haus").unwrap();
    let snd = MessageID::try_from("obst@salat").unwrap();
    let list = MessageIDList::try_from_vec(vec![fst, snd]).unwrap();
    let mut writer = EncodingWriter::new(MailType::Ascii);
    list.encode(&mut writer).unwrap();
    assert_eq!(
        writer.trace(),
        vec![
            TraceToken::MarkFWS,
            text("<affen@haus>"),
            TraceToken::MarkFWS,
            TraceToken::MarkFWS,
            text("<obst@salat>"),
            TraceToken::MarkFWS,
        ]
    );
}

#[test]
fn message_id_list_needs_an_id() {
    assert_eq!(
        MessageIDList::try_from_vec(Vec::new()).unwrap_err(),
        ComponentError::MessageIDListSize0
    );
    let list = MessageIDList::try_from_vec(vec![MessageID::try_from("a@b").unwrap()]).unwrap();
    assert_eq!(list.len(), 1);
    assert_eq!(list.clone().as_vec()[0].as_str(), "a@b");
}

#[test]
fn message_id_as_str() {
    assert_eq!(MessageID::try_from("affen@haus").unwrap().as_str(), "affen@haus");
}

#[test]
fn message_id_needs_both_sides() {
    for bad in ["", "affen", "affen@", "@haus", "a@b@c", "a.@b", ".a@b", "a..b@c", "a@b.", "a@[b",
        "a@[b]c", "a b@c", "a@[b c]", "a@b]"]
    {
        let err = MessageID::try_from(bad).unwrap_err();
        assert_eq!(err.component(), "MessageID");
        assert_eq!(err.str_context(), Some(bad));
        assert_eq!(err.cause(), Some(&ComponentError::InvalidMessageId(bad.to_owned())));
        assert_eq!(err.to_string(), "creating component MessageID failed");
    }
    for good in ["a@b", "a.b@c.d", "a@[b]", "a@[]", "a@[b@c]", "ä@ö", "!#$%&'*+-/=?^_`{|}~@x"] {
        assert_eq!(MessageID::try_from(good).unwrap().as_str(), good);
    }
}

#[test]
fn rec_dot_atom_text_no_dot() {
    match dot_atom_text("abc") {
        IResult::Done("", "abc") => {}
        other => panic!("excepted Done(\"\",\"abc\") got {:?}", other),
    }
}

#[test]
fn rec_dot_atom_text_dots() {
    match dot_atom_text("abc.def.ghi") {
        IResult::Done("", "abc.def.ghi") => {}
        other => panic!("excepted Done(\"\",\"abc.def.ghi\") got {:?}", other),
    }
}

#[test]
fn rec_dot_atom_text_no_end_dot() {
    let test_str = "abc.";
    let need_size = test_str.len() + 1;
    match dot_atom_text(test_str) {
        IResult::Incomplete(Needed::Size(ns)) if ns == need_size => {}
        other => panic!("excepted Incomplete(Complete) got {:?}", other),
    }
}

#[test]
fn rec_dot_atom_text_no_douple_dot() {
    match dot_atom_text("abc..de") {
        IResult::Done("..de", "abc") => {}
        other => panic!("excepted Done(\"..de\",\"abc\") got {:?}", other),
    }
}

#[test]
fn rec_dot_atom_text_no_start_dot() {
    match dot_atom_text(".abc") {
        IResult::Error => {}
        other => panic!("expected error got {:?}", other),
    }
}

#[test]
fn no_empty() {
    match dot_atom_text("") {
        IResult::Incomplete(Needed::Size(1)) => {}
        other => panic!("excepted Incomplete(Size(1)) got {:?}", other),
    }
}

#[test]
fn scanners_stop_where_the_match_ends() {
    assert_eq!(dot_atom_text("abc.d e"), IResult::Done(" e", "abc.d"));
    assert_eq!(dot_atom_text("abc.@"), IResult::Done(".@", "abc"));
    assert_eq!(id_left("ab@cd"), IResult::Done("@cd", "ab"));
    assert_eq!(no_fold_literal("[ab]cd"), IResult::Done("cd", "[ab]"));
    assert_eq!(no_fold_literal("[ab"), IResult::Incomplete(Needed::Size(4)));
    assert_eq!(no_fold_literal("[a b]"), IResult::Error);
    assert_eq!(no_fold_literal("ab"), IResult::Error);
    assert_eq!(id_right("[ab]"), IResult::Done("", "[ab]"));
    assert_eq!(id_right("ab.cd>"), IResult::Done(">", "ab.cd"));
    assert_eq!(id_right("[a b]"), IResult::Error);
    assert_eq!(id_right(""), IResult::Incomplete(Needed::Size(1)));
    assert_eq!(parse_message_id("a@b rest"), IResult::Done(" rest", ("a", "b")));
    assert_eq!(parse_message_id("a@[b]"), IResult::Done("", ("a", "[b]")));
    assert_eq!(parse_message_id("a"), IResult::Incomplete(Needed::Unknown));
    assert_eq!(parse_message_id("a@"), IResult::Incomplete(Needed::Unknown));
    assert_eq!(parse_message_id("a b"), IResult::Error);
    assert_eq!(parse_message_id("@"), IResult::Error);
}
