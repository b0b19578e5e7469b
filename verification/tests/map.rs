use mail_headers::components::message_id::MessageID;
use mail_headers::components::phrase::Phrase;
use mail_headers::components::raw_unstructured::RawUnstructured;
use mail_headers::error::{BuildInValidationError, HeaderTypeError, HeaderValidationError};
use mail_headers::header::{
    Component, ComponentKind, HeaderKind, HeaderMapValidator, HeaderMeta, HeaderObj,
};
use mail_headers::headers::{
    _from, _to, bcc, cc, check_header_count_max_one, comments, content_description, content_id,
    content_transfer_encoding, date, in_reply_to, message_id, references, reply_to, resent_cc,
    resent_date, resent_from, resent_msg_id, resent_sender, resent_to, sender, subject,
};
use mail_headers::map::HeaderMap;
use mail_headers::name::HeaderName;
use std::cell::Cell;
use std::collections::HashSet;

const TEXT_1: &str = "Random stuff XD";
const TEXT_2: &str = "Having a log of fun, yes a log!";

fn raw(text: &str) -> Component {
    Component::RawUnstructured(RawUnstructured::try_from(text).unwrap())
}

fn as_str(header: &HeaderObj) -> &str {
    match header.body() {
        Component::RawUnstructured(text) => text.as_str(),
        other => panic!("no unstructured text: {:?}", other),
    }
}

fn kind(
    name: &'static str,
    component: ComponentKind,
    max_count_eq_one: bool,
    contextual_validator: Option<HeaderMapValidator>,
) -> HeaderKind {
    HeaderKind {
        name: HeaderName::new(name).unwrap(),
        component,
        meta: HeaderMeta { max_count_eq_one, contextual_validator },
    }
}

// kinds that name a field as the kinds of the crate do, and hold another component
fn bad_subject() -> HeaderKind {
    kind("Subject", ComponentKind::Phrase, true, None)
}

fn bad_comments() -> HeaderKind {
    kind("Comments", ComponentKind::MessageID, false, None)
}

fn x_comment() -> HeaderKind {
    kind("X-Comment", ComponentKind::RawUnstructured, false, Some(HeaderMapValidator::Custom(1)))
}

// some stupid but simple validator
fn validator(id: u64, map: &HeaderMap) -> Result<(), HeaderValidationError> {
    assert_eq!(id, 1);
    if map.get_untyped(comments().name).len() != 0 {
        return Err(HeaderValidationError::Custom(
            "can't have X-Comment and Comments in same mail".to_owned(),
        ));
    }
    Ok(())
}

#[test]
fn headers_macro() {
    let mut headers = HeaderMap::new();
    headers.insert(comments(), raw(TEXT_1)).unwrap();
    headers.insert(subject(), raw(TEXT_2)).unwrap();

    let count = headers
        .get(&comments())
        .into_iter()
        .map(|h: Result<&HeaderObj, HeaderTypeError>| {
            let v = h.expect("the trait object to be downcastable to Header<Comments>");
            assert_eq!(as_str(v), TEXT_1);
        })
        .count();
    assert_eq!(1, count);

    let count = headers
        .get(&subject())
        .into_iter()
        .map(|h: Result<&HeaderObj, HeaderTypeError>| {
            let val = h.expect("the trait object to be downcastable to Header<Subject>");
            assert_eq!(as_str(val), TEXT_2);
        })
        .count();
    assert_eq!(1, count);
}

#[test]
fn get_single() {
    let mut headers = HeaderMap::new();
    headers.insert(subject(), raw("abc")).unwrap();

    assert_eq!(
        "abc",
        as_str(
            headers
                .get_single(&subject())
                .unwrap() //Some
                .unwrap() //Result
        )
    );
    assert!(headers.get_single(&comments()).is_none());
}

#[test]
fn get_single_cast_error() {
    let mut headers = HeaderMap::new();
    headers.insert(subject(), raw("abc")).unwrap();

    let res = headers.get_single(&bad_subject());
    let err = res.expect("where did the header go?").unwrap_err();
    assert_eq!(err, HeaderTypeError::new(subject().name));
    assert_eq!(
        err.to_string(),
        "cast error caused by mixing different header implementations for Subject"
    );
}

#[test]
fn get() {
    let mut headers = HeaderMap::new();
    headers.insert(subject(), raw("abc")).unwrap();
    headers.insert(comments(), raw("1st")).unwrap();
    headers
        .insert(bad_comments(), Component::MessageID(MessageID::try_from("a@b").unwrap()))
        .unwrap();

    let res = headers.get(&comments());
    let mut res = res.into_iter();

    assert_eq!(res.size_hint(), (2, Some(2)));

    assert_eq!("1st", as_str(res.next().unwrap().unwrap()));

    assert!(res.next().unwrap().is_err());

    assert!(res.next().is_none())
}

#[test]
fn get_untyped() {
    let mut headers = HeaderMap::new();
    headers.insert(subject(), raw("abc")).unwrap();
    headers.insert(comments(), raw("1st")).unwrap();
    headers
        .insert(bad_comments(), Component::MessageID(MessageID::try_from("a@b").unwrap()))
        .unwrap();

    let res = headers
        .get_untyped(subject().name)
        .into_iter()
        .map(|entry| as_str(entry.downcast_ref(&subject()).map(|_| entry).unwrap()))
        .collect::<Vec<_>>();

    assert_eq!(res.as_slice(), &["abc"]);

    let mut res = headers.get_untyped(comments().name).into_iter();

    assert_eq!((2, Some(2)), res.size_hint());

    assert_eq!(as_str(res.next().unwrap().downcast_ref(&comments()).map(|_| ()).map(|_| headers.get_untyped(comments().name)[0]).unwrap()), "1st");

    assert_eq!((1, Some(1)), res.size_hint());

    match res.next().unwrap().downcast_ref(&bad_comments()).unwrap() {
        Component::MessageID(id) => assert_eq!(id.as_str(), "a@b"),
        other => panic!("another body: {:?}", other),
    }

    assert!(res.next().is_none());
}

#[test]
fn fmt_debug() {
    let mut headers = HeaderMap::new();
    headers.insert(subject(), raw("hy there")).unwrap();

    let res = headers.debug_string();
    assert_eq!(
        "HeaderMap { Subject: RawUnstructured { text: Input(Owned(\"hy there\")) }, }",
        res.as_str()
    );
}

#[test]
fn combine_keeps_order() {
    let mut headers = HeaderMap::new();
    headers.insert(x_comment(), raw("ab@c")).unwrap();

    let mut other = HeaderMap::new();
    other.insert(subject(), raw("hy there")).unwrap();
    other.insert(comments(), raw("magic+spell")).unwrap();
    headers.combine(other).unwrap();

    let copy = headers.clone();
    assert_eq!(
        &["X-Comment", "Subject", "Comments"],
        headers
            .into_vec()
            .into_iter()
            .map(|(name, _val)| name.as_str())
            .collect::<Vec<_>>()
            .as_slice()
    );
    assert_eq!(
        copy.iter().into_iter().map(|(name, val)| (name.as_str(), as_str(val))).collect::<Vec<_>>(),
        vec![("X-Comment", "ab@c"), ("Subject", "hy there"), ("Comments", "magic+spell")]
    );
}

#[test]
fn combine_is_all_or_nothing() {
    let mut headers = HeaderMap::new();
    headers.insert(subject(), raw("first")).unwrap();
    headers.insert(comments(), raw("second")).unwrap();

    let mut other = HeaderMap::new();
    other.insert(x_comment(), raw("fits")).unwrap();
    other.insert(kind("Comments", ComponentKind::RawUnstructured, true, None), raw("no")).unwrap();
    other.insert(x_comment(), raw("fits too")).unwrap();

    let err = headers.combine(other).unwrap_err();
    assert_eq!(err, HeaderTypeError::new(comments().name));
    assert_eq!(headers.len(), 2);
    let texts: Vec<&str> = headers.values().into_iter().map(as_str).collect();
    assert_eq!(texts, vec!["first", "second"]);
    assert!(!headers.contains(x_comment().name));
}

#[test]
fn insert_refuses_what_does_not_go_with_the_name() {
    let mut headers = HeaderMap::new();
    headers.insert(comments(), raw("a")).unwrap();

    // another arity under the same name
    let once = kind("Comments", ComponentKind::RawUnstructured, true, None);
    assert_eq!(headers.insert(once, raw("b")), Err(HeaderTypeError::new(comments().name)));
    // another validator under the same name
    let ruled = kind(
        "Comments",
        ComponentKind::RawUnstructured,
        false,
        Some(HeaderMapValidator::Custom(7)),
    );
    assert_eq!(headers.insert(ruled, raw("c")), Err(HeaderTypeError::new(comments().name)));
    // a body of another kind than the header kind asks for
    assert_eq!(
        headers.insert(comments(), Component::Phrase(Phrase::try_from("d").unwrap())),
        Err(HeaderTypeError::new(comments().name))
    );
    assert_eq!(headers.len(), 1);
    assert!(headers.accepts(comments().name, &comments().meta));
    assert!(!headers.accepts(comments().name, &once.meta));
    assert!(headers.accepts(subject().name, &once.meta));

    // the same meta with another component goes with the name
    headers
        .insert(bad_comments(), Component::MessageID(MessageID::try_from("a@b").unwrap()))
        .unwrap();
    assert_eq!(headers.len(), 2);
}

#[test]
fn remove_1() {
    let mut headers = HeaderMap::new();
    headers.insert(comments(), raw("a")).unwrap();
    headers.insert(subject(), raw("b")).unwrap();
    headers.insert(comments(), raw("c")).unwrap();
    headers.insert(comments(), raw("d")).unwrap();

    assert_eq!(false, headers.remove_by_name(x_comment().name));
    assert_eq!(true, headers.remove_by_name(subject().name));

    assert_eq!(3, headers.iter().len());

    let values =
        headers.get(&comments()).into_iter().map(|comp| as_str(comp.unwrap())).collect::<Vec<_>>();

    assert_eq!(&["a", "c", "d"], values.as_slice());
}

#[test]
fn remove_2() {
    let mut headers = HeaderMap::new();
    headers.insert(comments(), raw("a")).unwrap();
    headers.insert(subject(), raw("b")).unwrap();
    headers.insert(comments(), raw("c")).unwrap();
    headers.insert(comments(), raw("d")).unwrap();

    assert_eq!(true, headers.remove_by_name(comments().name));
    assert_eq!(false, headers.remove_by_name(comments().name));

    assert_eq!(1, headers.iter().len());

    let values =
        headers.get(&subject()).into_iter().map(|comp| as_str(comp.unwrap())).collect::<Vec<_>>();

    assert_eq!(&["b"], values.as_slice());
}

#[test]
fn set_replaces_what_is_there() {
    let mut headers = HeaderMap::new();
    headers.insert(comments(), raw("a")).unwrap();
    headers.insert(subject(), raw("b")).unwrap();
    headers.insert(comments(), raw("c")).unwrap();

    let old = headers.set(HeaderObj::new(comments(), raw("d")).unwrap());
    assert_eq!(old.iter().map(as_str).collect::<Vec<_>>(), vec!["a", "c"]);
    assert_eq!(headers.values().into_iter().map(as_str).collect::<Vec<_>>(), vec!["b", "d"]);

    let old = headers.set(HeaderObj::new(x_comment(), raw("e")).unwrap());
    assert!(old.is_empty());
    assert_eq!(headers.len(), 3);
}

#[test]
fn contains_works() {
    let mut map = HeaderMap::new();
    map.insert(subject(), raw("soso")).unwrap();

    assert_eq!(true, map.contains(subject().name));
    assert_eq!(false, map.contains(comments().name));
}

#[test]
fn use_validator_ok() {
    let mut map = HeaderMap::new();
    map.insert(x_comment(), raw("yay")).unwrap();
    map.insert(subject(), raw("soso")).unwrap();

    assert!(map.use_contextual_validators_with(validator).is_ok());
}

#[test]
fn use_validator_err() {
    let mut map = HeaderMap::new();
    map.insert(x_comment(), raw("yay")).unwrap();
    map.insert(comments(), raw("oh no")).unwrap();
    map.insert(subject(), raw("soso")).unwrap();

    assert_eq!(
        map.use_contextual_validators_with(validator),
        Err(HeaderValidationError::Custom(
            "can't have X-Comment and Comments in same mail".to_owned()
        ))
    );
    // without the caller, a rule of the caller cannot pass
    assert!(matches!(map.use_contextual_validators(), Err(HeaderValidationError::Custom(_))));
}

#[test]
fn has_len() {
    let mut map = HeaderMap::new();
    map.insert(x_comment(), raw("yay")).unwrap();
    map.insert(comments(), raw("oh no")).unwrap();
    map.insert(subject(), raw("soso")).unwrap();

    assert_eq!(3, map.len());
    map.clear();
    assert_eq!(0, map.len());
    assert_eq!(0, HeaderMap::default().len());
}

#[test]
fn a_shared_validator_runs_once() {
    let shared = Some(HeaderMapValidator::Custom(3));
    let mut map = HeaderMap::new();
    for name in ["X-One", "X-Two", "X-Three", "X-One"] {
        map.insert(kind(name, ComponentKind::RawUnstructured, false, shared), raw("x")).unwrap();
    }
    map.insert(x_comment(), raw("y")).unwrap();
    assert_eq!(
        map.validators(),
        vec![HeaderMapValidator::Custom(3), HeaderMapValidator::Custom(1)]
    );
    let calls = Cell::new(0u32);
    let res = map.use_contextual_validators_with(|id, _map| {
        if id == 3 {
            calls.set(calls.get() + 1);
        }
        Ok(())
    });
    assert_eq!(res, Ok(()));
    assert_eq!(calls.get(), 1);
}

#[test]
fn max_one_is_checked_by_name() {
    let mut map = HeaderMap::new();
    map.insert(comments(), raw("a")).unwrap();
    assert_eq!(check_header_count_max_one(comments().name, &map), Ok(()));
    assert_eq!(check_header_count_max_one(subject().name, &map), Ok(()));
    map.insert(comments(), raw("b")).unwrap();
    let err = check_header_count_max_one(comments().name, &map).unwrap_err();
    assert_eq!(
        err,
        HeaderValidationError::BuildIn(BuildInValidationError::MoreThenOne {
            header_name: "Comments"
        })
    );
    assert_eq!(
        err.to_string(),
        "Comments header field can appear at most one time in a header map"
    );
}

#[test]
fn validate_header_names() {
    let kinds = [
        date(),
        _from(),
        sender(),
        reply_to(),
        _to(),
        cc(),
        bcc(),
        message_id(),
        in_reply_to(),
        references(),
        subject(),
        comments(),
        resent_date(),
        resent_from(),
        resent_sender(),
        resent_to(),
        resent_cc(),
        resent_msg_id(),
        content_id(),
        content_transfer_encoding(),
        content_description(),
    ];
    let mut seen = HashSet::new();
    for kind in kinds {
        let name = kind.name.as_str();
        if !seen.insert(name) {
            panic!("name appears more than one time: {:?}", name);
        }
        if HeaderName::new(name).is_none() {
            panic!("invalid header name: {:?}", name);
        }
        // names that start with `Resent-` come with the rule of the resent headers
        assert_eq!(
            name.starts_with("Resent-"),
            kind.meta.contextual_validator == Some(HeaderMapValidator::ResentAny)
        );
    }
    assert_eq!(_from().meta.contextual_validator, Some(HeaderMapValidator::From));
    assert!(_from().meta.max_count_eq_one && !comments().meta.max_count_eq_one);
    assert_eq!(message_id().component, ComponentKind::MessageID);
    assert_eq!(content_transfer_encoding().name.as_str(), "Content-Transfer-Encoding");
    for bad in ["", "subject", "Message-ID", "-Subject", "Subject-", "X--Y", "Sub ject", "Sübject"]
    {
        assert!(HeaderName::new(bad).is_none(), "{:?}", bad);
    }
    assert_eq!(HeaderName::new("X-Comment-2").unwrap().as_str(), "X-Comment-2");
}

#[test]
fn downcast_hands_the_body_out() {
    let header = HeaderObj::new(subject(), raw("abc")).unwrap();
    assert!(header.is(&subject()));
    assert!(!header.is(&bad_subject()));
    assert!(header.downcast_ref(&bad_subject()).is_none());
    assert_eq!(header.name().as_str(), "Subject");
    assert_eq!(header.validator(), None);
    let header = header.downcast(&bad_subject()).unwrap_err();
    match header.downcast(&subject()) {
        Ok(Component::RawUnstructured(text)) => assert_eq!(text.as_str(), "abc"),
        other => panic!("no text: {:?}", other),
    }
    assert_eq!(
        HeaderObj::new(bad_subject(), raw("abc")).unwrap_err(),
        HeaderTypeError::new(subject().name)
    );
}

#[test]
fn a_kind_makes_its_body_of_text() {
    let mut map = HeaderMap::new();
    map.add(comments().body(TEXT_1).unwrap()).unwrap();
    map.add(subject().body(TEXT_2).unwrap()).unwrap();
    map.add(_from().body("theduck@example.com").unwrap()).unwrap();
    map.add(sender().body("theduck@example.com").unwrap()).unwrap();
    map.add(message_id().body("a@b").unwrap()).unwrap();
    map.add(references().body("a@b").unwrap()).unwrap();
    assert_eq!(map.len(), 6);
    assert_eq!(as_str(map.get_single(&subject()).unwrap().unwrap()), TEXT_2);
    assert_eq!(map.get_untyped(_from().name)[0].body().mailbox_count(), Some(1));
    assert_eq!(map.get_untyped(sender().name)[0].body().mailbox_count(), None);
    assert_eq!(map.get_untyped(sender().name)[0].body().kind(), ComponentKind::Mailbox);

    let err = _from().body("no at sign").unwrap_err();
    assert_eq!(err.component(), "MailboxList");
    assert_eq!(err.str_context(), Some("no at sign"));
    assert_eq!(
        err.cause(),
        Some(&mail_headers::error::ComponentError::InvalidEmail("no at sign".to_owned()))
    );
    assert_eq!(err.to_string(), "creating component MailboxList failed");

    let err = message_id().body("no at sign").unwrap_err();
    assert_eq!(err.component(), "MessageID");
    assert_eq!(err.str_context(), Some("no at sign"));
    assert_eq!(
        err.cause(),
        Some(&mail_headers::error::ComponentError::InvalidMessageId("no at sign".to_owned()))
    );

    // a date is not spelled as text
    let err = date().body("Thu, 1 Jan 1970 00:00:00 +0000").unwrap_err();
    assert_eq!(err.component(), "DateTime");
    assert_eq!(
        Component::try_from_str(ComponentKind::TransferEncoding, "7bit").unwrap_err().component(),
        "TransferEncoding"
    );
    match Component::try_from_str(ComponentKind::Phrase, "a  b").unwrap() {
        Component::Phrase(phrase) => assert_eq!(phrase, Phrase::try_from("a b").unwrap()),
        other => panic!("no phrase: {:?}", other),
    }
    match Component::try_from_str(ComponentKind::Email, "a@b").unwrap() {
        Component::Email(email) => assert_eq!(email.domain.as_str(), "b"),
        other => panic!("no email: {:?}", other),
    }
    assert_eq!(ComponentKind::RawUnstructured.name(), "RawUnstructured");
}
