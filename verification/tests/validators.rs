use mail_headers::components::date_time::DateTime;
use mail_headers::components::mailbox::Mailbox;
use mail_headers::components::mailbox_list::MailboxList;
use mail_headers::components::raw_unstructured::RawUnstructured;
use mail_headers::error::{BuildInValidationError, HeaderValidationError};
use mail_headers::header::{Component, ComponentKind, HeaderKind, HeaderMapValidator, HeaderMeta, HeaderObj};
use mail_headers::headers::{
    _from, from, resent_any, resent_date, resent_from, resent_sender, resent_to, sender, subject,
    validate_resent_block,
};
use mail_headers::map::HeaderMap;
use mail_headers::name::HeaderName;

fn raw(text: &str) -> Component {
    Component::RawUnstructured(RawUnstructured::try_from(text).unwrap())
}

fn boxes(list: &[(Option<&str>, &str)]) -> Component {
    let boxes = list
        .iter()
        .map(|&(name, email)| match name {
            Some(name) => Mailbox::try_from_pair((name, email)).unwrap(),
            None => Mailbox::try_from(email).unwrap(),
        })
        .collect();
    Component::MailboxList(MailboxList::try_from_vec(boxes).unwrap())
}

fn now() -> Component {
    Component::DateTime(DateTime::from_timestamp(1_540_000_000).unwrap())
}

#[test]
fn header_impl_from_validation_normal() {
    let mut map = HeaderMap::new();
    map.insert(_from(), boxes(&[(Some("Mr. Peté"), "pete@nixmail.nixdomain")])).unwrap();
    map.insert(subject(), raw("Ok")).unwrap();

    assert_eq!(map.use_contextual_validators(), Ok(()));
}

#[test]
fn header_impl_from_validation_multi_err() {
    let mut map = HeaderMap::new();
    map.insert(
        _from(),
        boxes(&[(Some("Mr. Peté"), "nixperson@nixmail.nixdomain"), (None, "a@b.c")]),
    )
    .unwrap();
    map.insert(subject(), raw("Ok")).unwrap();

    assert_eq!(
        map.use_contextual_validators(),
        Err(HeaderValidationError::BuildIn(BuildInValidationError::MultiMailboxFromWithoutSender))
    );
}

#[test]
fn header_impl_from_validation_multi_ok() {
    let mut map = HeaderMap::new();
    map.insert(
        _from(),
        boxes(&[(Some("Mr. Peté"), "nixperson@nixmail.nixdomain"), (None, "a@b.c")]),
    )
    .unwrap();
    map.insert(sender(), Component::Mailbox(Mailbox::try_from("abx@d.e").unwrap())).unwrap();
    map.insert(subject(), raw("Ok")).unwrap();

    assert_eq!(map.use_contextual_validators(), Ok(()));
}

#[test]
fn header_impl_resent_no_date_err() {
    let mut map = HeaderMap::new();
    map.insert(resent_from(), boxes(&[(None, "a@b.c")])).unwrap();
    assert_eq!(
        map.use_contextual_validators(),
        Err(HeaderValidationError::BuildIn(BuildInValidationError::ResentDateFieldMissing))
    );
}

#[test]
fn header_impl_resent_with_date() {
    let mut map = HeaderMap::new();
    map.insert(resent_from(), boxes(&[(None, "a@b.c")])).unwrap();
    map.insert(resent_date(), now()).unwrap();
    assert_eq!(map.use_contextual_validators(), Ok(()));
}

#[test]
fn header_impl_resent_no_date_err_second_block() {
    let mut map = HeaderMap::new();
    map.insert(resent_date(), now()).unwrap();
    map.insert(resent_from(), boxes(&[(None, "a@b.c")])).unwrap();
    map.insert(resent_to(), boxes(&[(None, "e@f.d")])).unwrap();
    map.insert(resent_from(), boxes(&[(None, "ee@ee.e")])).unwrap();

    assert_eq!(
        map.use_contextual_validators(),
        Err(HeaderValidationError::BuildIn(BuildInValidationError::ResentDateFieldMissing))
    );
}

#[test]
fn header_impl_resent_with_date_second_block() {
    let mut map = HeaderMap::new();
    map.insert(resent_date(), now()).unwrap();
    map.insert(resent_from(), boxes(&[(None, "a@b.c")])).unwrap();
    map.insert(resent_to(), boxes(&[(None, "e@f.d")])).unwrap();
    map.insert(resent_from(), boxes(&[(None, "ee@ee.e")])).unwrap();
    map.insert(resent_date(), now()).unwrap();

    assert_eq!(map.use_contextual_validators(), Ok(()));
}

#[test]
fn header_impl_resent_multi_mailbox_from_no_sender() {
    let mut map = HeaderMap::new();
    map.insert(resent_date(), now()).unwrap();
    map.insert(resent_from(), boxes(&[(None, "a@b.c"), (None, "e@c.d")])).unwrap();

    assert_eq!(
        map.use_contextual_validators(),
        Err(HeaderValidationError::BuildIn(
            BuildInValidationError::MultiMailboxResentFromWithoutResentSender
        ))
    );
}

#[test]
fn header_impl_resent_multi_mailbox_from_with_sender() {
    let mut map = HeaderMap::new();
    map.insert(resent_date(), now()).unwrap();
    map.insert(resent_from(), boxes(&[(None, "a@b.c"), (None, "e@c.d")])).unwrap();
    map.insert(resent_sender(), Component::Mailbox(Mailbox::try_from("a@b.c").unwrap())).unwrap();

    assert_eq!(map.use_contextual_validators(), Ok(()));
}

#[test]
fn mod_from_validation_normal() {
    let mut map = HeaderMap::new();
    map.insert(_from(), boxes(&[(Some("Mr. Peté"), "pete@nixmail.nixdomain")])).unwrap();
    map.insert(subject(), raw("Ok")).unwrap();

    assert_eq!(map.use_contextual_validators(), Ok(()));
}

#[test]
fn mod_from_validation_multi_err() {
    let mut map = HeaderMap::new();
    map.insert(
        _from(),
        boxes(&[(Some("Mr. Peté"), "nixperson@nixmail.nixdomain"), (None, "a@b.c")]),
    )
    .unwrap();
    map.insert(subject(), raw("Ok")).unwrap();

    assert_eq!(
        map.use_contextual_validators(),
        Err(HeaderValidationError::BuildIn(BuildInValidationError::MultiMailboxFromWithoutSender))
    );
}

#[test]
fn mod_from_validation_multi_ok() {
    let mut map = HeaderMap::new();
    map.insert(
        _from(),
        boxes(&[(Some("Mr. Peté"), "nixperson@nixmail.nixdomain"), (None, "a@b.c")]),
    )
    .unwrap();
    map.insert(sender(), Component::Mailbox(Mailbox::try_from("abx@d.e").unwrap())).unwrap();
    map.insert(subject(), raw("Ok")).unwrap();

    assert_eq!(map.use_contextual_validators(), Ok(()));
}

#[test]
fn mod_resent_no_date_err() {
    let mut map = HeaderMap::new();
    map.insert(resent_from(), boxes(&[(None, "a@b.c")])).unwrap();
    assert_eq!(
        map.use_contextual_validators(),
        Err(HeaderValidationError::BuildIn(BuildInValidationError::ResentDateFieldMissing))
    );
}

#[test]
fn mod_resent_with_date() {
    let mut map = HeaderMap::new();
    map.insert(resent_from(), boxes(&[(None, "a@b.c")])).unwrap();
    map.insert(resent_date(), now()).unwrap();
    assert_eq!(map.use_contextual_validators(), Ok(()));
}

#[test]
fn mod_resent_no_date_err_second_block() {
    let mut map = HeaderMap::new();
    map.insert(resent_date(), now()).unwrap();
    map.insert(resent_from(), boxes(&[(None, "a@b.c")])).unwrap();
    map.insert(resent_to(), boxes(&[(None, "e@f.d")])).unwrap();
    map.insert(resent_from(), boxes(&[(None, "ee@ee.e")])).unwrap();

    assert_eq!(
        map.use_contextual_validators(),
        Err(HeaderValidationError::BuildIn(BuildInValidationError::ResentDateFieldMissing))
    );
}

#[test]
fn mod_resent_with_date_second_block() {
    let mut map = HeaderMap::new();
    map.insert(resent_date(), now()).unwrap();
    map.insert(resent_from(), boxes(&[(None, "a@b.c")])).unwrap();
    map.insert(resent_to(), boxes(&[(None, "e@f.d")])).unwrap();
    map.insert(resent_from(), boxes(&[(None, "ee@ee.e")])).unwrap();
    map.insert(resent_date(), now()).unwrap();

    assert_eq!(map.use_contextual_validators(), Ok(()));
}

#[test]
fn mod_resent_multi_mailbox_from_no_sender() {
    let mut map = HeaderMap::new();
    map.insert(resent_date(), now()).unwrap();
    map.insert(resent_from(), boxes(&[(None, "a@b.c"), (None, "e@c.d")])).unwrap();

    assert_eq!(
        map.use_contextual_validators(),
        Err(HeaderValidationError::BuildIn(
            BuildInValidationError::MultiMailboxResentFromWithoutResentSender
        ))
    );
}

#[test]
fn mod_resent_multi_mailbox_from_with_sender() {
    let mut map = HeaderMap::new();
    map.insert(resent_date(), now()).unwrap();
    map.insert(resent_from(), boxes(&[(None, "a@b.c"), (None, "e@c.d")])).unwrap();
    map.insert(resent_sender(), Component::Mailbox(Mailbox::try_from("a@b.c").unwrap())).unwrap();

    assert_eq!(map.use_contextual_validators(), Ok(()));
}

#[test]
fn validators_run_alone() {
    let mut map = HeaderMap::new();
    assert_eq!(from(&map), Ok(()));
    // a map without any resent header has no block that could lack a date
    assert_eq!(resent_any(&map), Ok(()));
    map.insert(subject(), raw("Ok")).unwrap();
    assert_eq!(resent_any(&map), Ok(()));
    assert_eq!(map.use_contextual_validators(), Ok(()));
    assert_eq!(map.validators(), vec![]);
    map.insert(resent_date(), now()).unwrap();
    map.insert(_from(), boxes(&[(None, "a@b.c")])).unwrap();
    map.insert(resent_to(), boxes(&[(None, "a@b.c")])).unwrap();
    assert_eq!(map.validators(), vec![HeaderMapValidator::ResentAny, HeaderMapValidator::From]);
    assert_eq!(resent_any(&map), Ok(()));
    assert_eq!(from(&map), Ok(()));
}

#[test]
fn from_of_another_kind_is_not_looked_at() {
    let other_from = HeaderKind {
        name: HeaderName::new("From").unwrap(),
        component: ComponentKind::MailboxList,
        meta: HeaderMeta { max_count_eq_one: true, contextual_validator: Some(HeaderMapValidator::From) },
    };
    let mut map = HeaderMap::new();
    map.insert(other_from, boxes(&[(None, "a@b.c"), (None, "e@c.d")])).unwrap();
    assert_eq!(
        from(&map),
        Err(HeaderValidationError::BuildIn(BuildInValidationError::MultiMailboxFromWithoutSender))
    );
    let stranger = HeaderKind {
        name: HeaderName::new("From").unwrap(),
        component: ComponentKind::MailboxList,
        meta: HeaderMeta { max_count_eq_one: false, contextual_validator: None },
    };
    let mut map = HeaderMap::new();
    map.insert(stranger, boxes(&[(None, "a@b.c"), (None, "e@c.d")])).unwrap();
    assert_eq!(from(&map), Ok(()));
}

#[test]
fn resent_block_alone() {
    let date = HeaderObj::new(resent_date(), now()).unwrap();
    let one = HeaderObj::new(resent_from(), boxes(&[(None, "a@b.c")])).unwrap();
    let two = HeaderObj::new(resent_from(), boxes(&[(None, "a@b.c"), (None, "e@c.d")])).unwrap();
    let by = HeaderObj::new(
        resent_sender(),
        Component::Mailbox(Mailbox::try_from("a@b.c").unwrap()),
    )
    .unwrap();
    let missing_date =
        Err(HeaderValidationError::BuildIn(BuildInValidationError::ResentDateFieldMissing));
    let missing_sender = Err(HeaderValidationError::BuildIn(
        BuildInValidationError::MultiMailboxResentFromWithoutResentSender,
    ));
    // a block that was never opened is no block; one that is handed over empty holds no date
    assert_eq!(validate_resent_block(&vec![]), missing_date);
    assert_eq!(validate_resent_block(&vec![&one, &by]), missing_date);
    assert_eq!(validate_resent_block(&vec![&date]), Ok(()));
    assert_eq!(validate_resent_block(&vec![&one, &date]), Ok(()));
    assert_eq!(validate_resent_block(&vec![&date, &two]), missing_sender);
    assert_eq!(validate_resent_block(&vec![&date, &two, &by]), Ok(()));
    assert_eq!(
        missing_sender.unwrap_err().to_string(),
        "Resent-From field in resent block without a Resent-Sender field"
    );
    assert_eq!(
        missing_date.unwrap_err().to_string(),
        "each resent block must have a resent-date field"
    );
}

#[test]
fn the_first_block_that_fails_decides() {
    let mut map = HeaderMap::new();
    // first block: a date, and two senders of whom none is named
    map.insert(resent_date(), now()).unwrap();
    map.insert(resent_from(), boxes(&[(None, "a@b.c"), (None, "e@c.d")])).unwrap();
    // second block: no date
    map.insert(resent_from(), boxes(&[(None, "a@b.c")])).unwrap();
    assert_eq!(
        resent_any(&map),
        Err(HeaderValidationError::BuildIn(
            BuildInValidationError::MultiMailboxResentFromWithoutResentSender
        ))
    );
    // headers that are not resent headers do not part blocks
    let mut map = HeaderMap::new();
    map.insert(resent_from(), boxes(&[(None, "a@b.c")])).unwrap();
    map.insert(subject(), raw("Ok")).unwrap();
    map.insert(resent_date(), now()).unwrap();
    assert_eq!(resent_any(&map), Ok(()));
}

#[test]
fn a_copy_of_a_map_passes_and_fails_as_the_map_does() {
    let mut map = HeaderMap::new();
    assert_eq!(map.clone().use_contextual_validators(), Ok(()));
    map.insert(_from(), boxes(&[(Some("Mr. Peté"), "a@b.c"), (None, "e@c.d")])).unwrap();
    map.insert(subject(), raw("Ok")).unwrap();
    let copy = map.clone();
    assert_eq!(copy.len(), 2);
    assert_eq!(copy.validators(), map.validators());
    assert_eq!(copy.use_contextual_validators(), map.use_contextual_validators());
    assert_eq!(
        copy.use_contextual_validators(),
        Err(HeaderValidationError::BuildIn(BuildInValidationError::MultiMailboxFromWithoutSender))
    );
    assert_eq!(copy.debug_string(), map.debug_string());
    assert_eq!(copy.get_untyped(_from().name)[0].body().mailbox_count(), Some(2));

    map.insert(resent_from(), boxes(&[(None, "a@b.c")])).unwrap();
    map.insert(sender(), Component::Mailbox(Mailbox::try_from("abx@d.e").unwrap())).unwrap();
    assert_eq!(
        map.clone().use_contextual_validators(),
        Err(HeaderValidationError::BuildIn(BuildInValidationError::ResentDateFieldMissing))
    );
    // the copy that was made before is as it was
    assert_eq!(copy.len(), 2);
}

#[test]
fn no_resent_header_no_block() {
    let mut map = HeaderMap::new();
    assert_eq!(resent_any(&map), Ok(()));
    map.insert(subject(), raw("Ok")).unwrap();
    map.insert(_from(), boxes(&[(None, "a@b.c")])).unwrap();
    assert_eq!(resent_any(&map), Ok(()));
    // a header that names the rule without being a resent header opens no block either
    let odd = HeaderKind {
        name: HeaderName::new("X-Resent").unwrap(),
        component: ComponentKind::RawUnstructured,
        meta: HeaderMeta {
            max_count_eq_one: false,
            contextual_validator: Some(HeaderMapValidator::ResentAny),
        },
    };
    map.insert(odd, raw("x")).unwrap();
    assert_eq!(map.use_contextual_validators(), Ok(()));
}
