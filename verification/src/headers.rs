//! The header kinds of RFC 5322 and RFC 2045, and the rules that are
//! checked on a whole header map.

use vstd::prelude::*;
use vstd::string::StringExecFns;
use crate::error::{BuildInValidationError, HeaderValidationError};
use crate::header::{ComponentKind, HeaderKind, HeaderMapValidator, HeaderMeta, HeaderObj};
use crate::map::{has_name, lemma_in_with_name, lemma_with_name, with_name, HeaderMap};
use crate::name::HeaderName;
use crate::text::chars_of;

verus! {

/// Whether `kind` is the header kind of this name, component and meta.
pub open spec fn is_kind(
    kind: HeaderKind,
    name: Seq<char>,
    component: ComponentKind,
    max_count_eq_one: bool,
    contextual_validator: Option<HeaderMapValidator>,
) -> bool {
    &&& kind.name@ == name
    &&& kind.component == component
    &&& kind.meta == (HeaderMeta { max_count_eq_one, contextual_validator })
}

fn kind_of(
    name: &'static str,
    component: ComponentKind,
    max_count_eq_one: bool,
    contextual_validator: Option<HeaderMapValidator>,
) -> (r: HeaderKind)
    ensures
        is_kind(r, name@, component, max_count_eq_one, contextual_validator),
{
    HeaderKind {
        name: HeaderName::from_ascii_unchecked(name),
        component,
        meta: HeaderMeta { max_count_eq_one, contextual_validator },
    }
}

/// `Date` (RFC 5322)
pub fn date() -> (r: HeaderKind)
    ensures
        is_kind(r, "Date"@, ComponentKind::DateTime, true, None),
{
    kind_of("Date", ComponentKind::DateTime, true, None)
}

/// `From` (RFC 5322)
pub fn _from() -> (r: HeaderKind)
    ensures
        is_from_kind(r),
{
    kind_of("From", ComponentKind::MailboxList, true, Some(HeaderMapValidator::From))
}

/// `Sender` (RFC 5322)
pub fn sender() -> (r: HeaderKind)
    ensures
        is_kind(r, "Sender"@, ComponentKind::Mailbox, true, None),
{
    kind_of("Sender", ComponentKind::Mailbox, true, None)
}

/// `Reply-To` (RFC 5322)
pub fn reply_to() -> (r: HeaderKind)
    ensures
        is_kind(r, "Reply-To"@, ComponentKind::MailboxList, true, None),
{
    kind_of("Reply-To", ComponentKind::MailboxList, true, None)
}

/// `To` (RFC 5322)
pub fn _to() -> (r: HeaderKind)
    ensures
        is_kind(r, "To"@, ComponentKind::MailboxList, true, None),
{
    kind_of("To", ComponentKind::MailboxList, true, None)
}

/// `Cc` (RFC 5322)
pub fn cc() -> (r: HeaderKind)
    ensures
        is_kind(r, "Cc"@, ComponentKind::MailboxList, true, None),
{
    kind_of("Cc", ComponentKind::MailboxList, true, None)
}

/// `Bcc` (RFC 5322)
pub fn bcc() -> (r: HeaderKind)
    ensures
        is_kind(r, "Bcc"@, ComponentKind::MailboxList, true, None),
{
    kind_of("Bcc", ComponentKind::MailboxList, true, None)
}

/// `Message-Id` (RFC 5322)
pub fn message_id() -> (r: HeaderKind)
    ensures
        is_kind(r, "Message-Id"@, ComponentKind::MessageID, true, None),
{
    kind_of("Message-Id", ComponentKind::MessageID, true, None)
}

/// `In-Reply-To` (RFC 5322)
pub fn in_reply_to() -> (r: HeaderKind)
    ensures
        is_kind(r, "In-Reply-To"@, ComponentKind::MessageIDList, true, None),
{
    kind_of("In-Reply-To", ComponentKind::MessageIDList, true, None)
}

/// `References` (RFC 5322)
pub fn references() -> (r: HeaderKind)
    ensures
        is_kind(r, "References"@, ComponentKind::MessageIDList, true, None),
{
    kind_of("References", ComponentKind::MessageIDList, true, None)
}

/// `Subject` (RFC 5322)
pub fn subject() -> (r: HeaderKind)
    ensures
        is_kind(r, "Subject"@, ComponentKind::RawUnstructured, true, None),
{
    kind_of("Subject", ComponentKind::RawUnstructured, true, None)
}

/// `Comments` (RFC 5322)
pub fn comments() -> (r: HeaderKind)
    ensures
        is_kind(r, "Comments"@, ComponentKind::RawUnstructured, false, None),
{
    kind_of("Comments", ComponentKind::RawUnstructured, false, None)
}

/// `Resent-Date` (RFC 5322)
pub fn resent_date() -> (r: HeaderKind)
    ensures
        is_kind(
            r,
            "Resent-Date"@,
            ComponentKind::DateTime,
            false,
            Some(HeaderMapValidator::ResentAny),
        ),
{
    kind_of("Resent-Date", ComponentKind::DateTime, false, Some(HeaderMapValidator::ResentAny))
}

/// `Resent-From` (RFC 5322)
pub fn resent_from() -> (r: HeaderKind)
    ensures
        is_kind(
            r,
            "Resent-From"@,
            ComponentKind::MailboxList,
            false,
            Some(HeaderMapValidator::ResentAny),
        ),
{
    kind_of("Resent-From", ComponentKind::MailboxList, false, Some(HeaderMapValidator::ResentAny))
}

/// `Resent-Sender` (RFC 5322)
pub fn resent_sender() -> (r: HeaderKind)
    ensures
        is_kind(
            r,
            "Resent-Sender"@,
            ComponentKind::Mailbox,
            false,
            Some(HeaderMapValidator::ResentAny),
        ),
{
    kind_of("Resent-Sender", ComponentKind::Mailbox, false, Some(HeaderMapValidator::ResentAny))
}

/// `Resent-To` (RFC 5322)
pub fn resent_to() -> (r: HeaderKind)
    ensures
        is_kind(
            r,
            "Resent-To"@,
            ComponentKind::MailboxList,
            false,
            Some(HeaderMapValidator::ResentAny),
        ),
{
    kind_of("Resent-To", ComponentKind::MailboxList, false, Some(HeaderMapValidator::ResentAny))
}

/// `Resent-Cc` (RFC 5322)
pub fn resent_cc() -> (r: HeaderKind)
    ensures
        is_kind(
            r,
            "Resent-Cc"@,
            ComponentKind::MailboxList,
            false,
            Some(HeaderMapValidator::ResentAny),
        ),
{
    kind_of("Resent-Cc", ComponentKind::MailboxList, false, Some(HeaderMapValidator::ResentAny))
}

/// `Resent-Msg-Id` (RFC 5322)
pub fn resent_msg_id() -> (r: HeaderKind)
    ensures
        is_kind(
            r,
            "Resent-Msg-Id"@,
            ComponentKind::MessageID,
            false,
            Some(HeaderMapValidator::ResentAny),
        ),
{
    kind_of("Resent-Msg-Id", ComponentKind::MessageID, false, Some(HeaderMapValidator::ResentAny))
}

/// `Content-Id` (RFC 2045)
pub fn content_id() -> (r: HeaderKind)
    ensures
        is_kind(r, "Content-Id"@, ComponentKind::MessageID, true, None),
{
    kind_of("Content-Id", ComponentKind::MessageID, true, None)
}

/// `Content-Transfer-Encoding` (RFC 2045): how the body is encoded for
/// transfer.
pub fn content_transfer_encoding() -> (r: HeaderKind)
    ensures
        is_kind(r, "Content-Transfer-Encoding"@, ComponentKind::TransferEncoding, true, None),
{
    kind_of("Content-Transfer-Encoding", ComponentKind::TransferEncoding, true, None)
}

/// `Content-Description` (RFC 2045): a description of the body.
pub fn content_description() -> (r: HeaderKind)
    ensures
        is_kind(r, "Content-Description"@, ComponentKind::RawUnstructured, true, None),
{
    kind_of("Content-Description", ComponentKind::RawUnstructured, true, None)
}

/// Whether `kind` is the kind of the `From` header field.
pub open spec fn is_from_kind(kind: HeaderKind) -> bool {
    is_kind(kind, "From"@, ComponentKind::MailboxList, true, Some(HeaderMapValidator::From))
}

/// Whether `header` lists more than one mailbox.
pub open spec fn lists_many(header: HeaderObj) -> bool {
    header.spec_body().spec_mailbox_count() matches Some(n) && n > 1
}

/// Whether some `From` header, of the kind of this module, lists more
/// than one mailbox.
pub open spec fn from_needs_sender(headers: Seq<HeaderObj>) -> bool {
    exists|i: int|
        0 <= i < headers.len() && is_from_kind((#[trigger] headers[i]).spec_kind()) && lists_many(
            headers[i],
        )
}

/// What the rule of `From` has against `headers`, if anything: a `From`
/// that lists more than one mailbox needs a `Sender` beside it.
pub open spec fn from_violation(headers: Seq<HeaderObj>) -> Option<BuildInValidationError> {
    if from_needs_sender(headers) && !has_name(headers, "Sender"@) {
        Some(BuildInValidationError::MultiMailboxFromWithoutSender)
    } else {
        None
    }
}

/// Checks the rule of `From` on `map`. Headers named `From` that are of
/// another kind are not looked at.
pub fn from(map: &HeaderMap) -> (r: Result<(), HeaderValidationError>)
    ensures
        match r {
            Ok(_) => from_violation(map@).is_none(),
            Err(e) => from_violation(map@) matches Some(v) && e == HeaderValidationError::BuildIn(
                v,
            ),
        },
{
    let kind = _from();
    let bodies = map.get(&kind);
    let mut needs_sender = false;
    let mut i: usize = 0;
    let ghost named = with_name(map@, kind.name@);
    while i < bodies.len() && !needs_sender
        invariant
            0 <= i <= bodies.len(),
            is_from_kind(kind),
            named == with_name(map@, kind.name@),
            bodies@.len() == named.len(),
            forall|k: int|
                0 <= k < bodies@.len() ==> match #[trigger] bodies@[k] {
                    Ok(h) => *h == named[k] && h.spec_kind().spec_same_as(&kind),
                    Err(e) => !named[k].spec_kind().spec_same_as(&kind),
                },
            !needs_sender ==> forall|k: int|
                0 <= k < i ==> !(is_from_kind((#[trigger] named[k]).spec_kind()) && lists_many(
                    named[k],
                )),
            needs_sender ==> from_needs_sender(map@),
        decreases bodies.len() - i + (if needs_sender { 0int } else { 1int }),
    {
        match &bodies[i] {
            Ok(header) => {
                match header.body().mailbox_count() {
                    Some(n) => {
                        if n > 1 {
                            needs_sender = true;
                            proof {
                                lemma_with_name(map@, kind.name@);
                                let x = named[i as int];
                                assert(map@.contains(x));
                                let k = choose|k: int| 0 <= k < map@.len() && map@[k] == x;
                                assert(is_from_kind(map@[k].spec_kind()) && lists_many(map@[k]));
                            }
                        }
                    },
                    None => {},
                }
            },
            Err(_) => {},
        }
        if !needs_sender {
            i = i + 1;
        }
    }
    proof {
        if !needs_sender && from_needs_sender(map@) {
            let k = choose|k: int|
                0 <= k < map@.len() && is_from_kind((#[trigger] map@[k]).spec_kind()) && lists_many(
                    map@[k],
                );
            lemma_in_with_name(map@, kind.name@, k);
            let p = choose|p: int| 0 <= p < named.len() && named[p] == map@[k];
            assert(is_from_kind(named[p].spec_kind()) && lists_many(named[p]));
        }
    }
    if needs_sender && !map.contains(sender().name) {
        return Err(
            HeaderValidationError::from(BuildInValidationError::MultiMailboxFromWithoutSender),
        );
    }
    Ok(())
}

/// Whether `name` is the name of a `Resent-` header field.
pub open spec fn spec_is_resent(name: Seq<char>) -> bool {
    name.len() >= 7 && name.subrange(0, 7) == "Resent-"@
}

/// Whether `name` starts with `Resent-`.
pub fn is_resent(name: &str) -> (r: bool)
    ensures
        r == spec_is_resent(name@),
{
    let chars = chars_of(name);
    let prefix = chars_of("Resent-");
    proof {
        reveal_strlit("Resent-");
    }
    if chars.len() < 7 {
        return false;
    }
    let mut i: usize = 0;
    while i < 7
        invariant
            0 <= i <= 7,
            chars@ == name@,
            chars.len() >= 7,
            prefix@ == "Resent-"@,
            prefix@.len() == 7,
            forall|j: int| 0 <= j < i ==> chars@[j] == prefix@[j],
        decreases 7 - i,
    {
        if chars[i] != prefix[i] {
            assert(name@.subrange(0, 7)[i as int] != "Resent-"@[i as int]);
            return false;
        }
        i = i + 1;
    }
    assert(name@.subrange(0, 7) =~= "Resent-"@);
    true
}

/// What speaks against a block of `Resent-` headers, if anything: it
/// must hold a `Resent-Date`, and a `Resent-Sender` if its `Resent-From`
/// lists more than one mailbox.
pub open spec fn block_violation(block: Seq<HeaderObj>) -> Option<BuildInValidationError> {
    if !has_name(block, "Resent-Date"@) {
        Some(BuildInValidationError::ResentDateFieldMissing)
    } else if has_name(block, "Resent-From"@) && lists_many(with_name(block, "Resent-From"@)[0])
        && !has_name(block, "Resent-Sender"@) {
        Some(BuildInValidationError::MultiMailboxResentFromWithoutResentSender)
    } else {
        None
    }
}

/// The headers behind the references, in order.
pub open spec fn deref_all(block: Seq<&HeaderObj>) -> Seq<HeaderObj> {
    block.map_values(|h: &HeaderObj| *h)
}

/// The first header named `name` in `block`, if there is one.
fn find_in_block<'a>(block: &Vec<&'a HeaderObj>, name: &str) -> (r: Option<&'a HeaderObj>)
    ensures
        r.is_some() == has_name(deref_all(block@), name@),
        r matches Some(h) ==> *h == with_name(deref_all(block@), name@)[0],
{
    let ghost headers = deref_all(block@);
    let mut i: usize = 0;
    while i < block.len()
        invariant
            0 <= i <= block.len(),
            headers == deref_all(block@),
            forall|k: int| 0 <= k < i ==> (#[trigger] headers[k]).spec_name() != name@,
        decreases block.len() - i,
    {
        if crate::text::str_eq(block[i].name().as_str(), name) {
            proof {
                assert(headers[i as int].spec_name() == name@);
                lemma_first_with_name(headers, name@, i as int);
            }
            return Some(block[i]);
        }
        i = i + 1;
    }
    None
}

/// The first header with the name stands first among those of the name.
proof fn lemma_first_with_name(headers: Seq<HeaderObj>, name: Seq<char>, i: int)
    requires
        0 <= i < headers.len(),
        headers[i].spec_name() == name,
        forall|k: int| 0 <= k < i ==> (#[trigger] headers[k]).spec_name() != name,
    ensures
        with_name(headers, name).len() > 0,
        with_name(headers, name)[0] == headers[i],
    decreases headers.len(),
{
    let rest = headers.drop_last();
    if i == headers.len() - 1 {
        assert(with_name(rest, name).len() == 0) by {
            lemma_with_name(rest, name);
            if has_name(rest, name) {
                let k = choose|k: int|
                    0 <= k < rest.len() && (#[trigger] rest[k]).spec_name() == name;
                assert(headers[k].spec_name() == name);
            }
        }
        assert(headers.last() == headers[i]);
    } else {
        assert(rest[i] == headers[i]);
        assert forall|k: int| 0 <= k < i implies (#[trigger] rest[k]).spec_name() != name by {
            assert(rest[k] == headers[k]);
        }
        lemma_first_with_name(rest, name, i);
    }
}

/// Checks one block of `Resent-` headers.
pub fn validate_resent_block(block: &Vec<&HeaderObj>) -> (r: Result<(), HeaderValidationError>)
    ensures
        match r {
            Ok(_) => block_violation(deref_all(block@)).is_none(),
            Err(e) => block_violation(deref_all(block@)) matches Some(v) && e
                == HeaderValidationError::BuildIn(v),
        },
{
    if find_in_block(block, "Resent-Date").is_none() {
        return Err(HeaderValidationError::from(BuildInValidationError::ResentDateFieldMissing));
    }
    let needs_sender = match find_in_block(block, "Resent-From") {
        Some(header) => match header.body().mailbox_count() {
            Some(n) => n > 1,
            None => false,
        },
        None => false,
    };
    if needs_sender && find_in_block(block, "Resent-Sender").is_none() {
        return Err(
            HeaderValidationError::from(
                BuildInValidationError::MultiMailboxResentFromWithoutResentSender,
            ),
        );
    }
    Ok(())
}

/// What the rule of the `Resent-` headers has against `headers` from
/// index `from` on, with `block` being the block that is open there.
///
/// The `Resent-` headers are taken in order. A header whose name the open
/// block holds already ends that block and opens the next. Every block is
/// checked when it ends, the last one at the end of the headers; the
/// first block that fails decides. A block holds one header at least:
/// where there is no `Resent-` header, there is no block, and nothing to
/// fail.
pub open spec fn resent_scan(headers: Seq<HeaderObj>, from: int, block: Seq<HeaderObj>) -> Option<
    BuildInValidationError,
>
    decreases headers.len() - from,
{
    if from < 0 || from >= headers.len() {
        if block.len() == 0 {
            None
        } else {
            block_violation(block)
        }
    } else if !spec_is_resent(headers[from].spec_name()) {
        resent_scan(headers, from + 1, block)
    } else if has_name(block, headers[from].spec_name()) {
        match block_violation(block) {
            Some(v) => Some(v),
            None => resent_scan(headers, from + 1, seq![headers[from]]),
        }
    } else {
        resent_scan(headers, from + 1, block.push(headers[from]))
    }
}

/// What the rule of the `Resent-` headers has against `headers`, if
/// anything.
pub open spec fn resent_violation(headers: Seq<HeaderObj>) -> Option<BuildInValidationError> {
    resent_scan(headers, 0, Seq::empty())
}

/// The rule of the `Resent-` headers has nothing against headers of which
/// none is a `Resent-` header.
pub proof fn law_no_resent_header_no_block(headers: Seq<HeaderObj>)
    requires
        forall|i: int| 0 <= i < headers.len() ==> !spec_is_resent((#[trigger] headers[i]).spec_name()),
    ensures
        resent_violation(headers).is_none(),
{
    lemma_scan_without_resent(headers, 0);
}

proof fn lemma_scan_without_resent(headers: Seq<HeaderObj>, from: int)
    requires
        0 <= from <= headers.len(),
        forall|i: int| 0 <= i < headers.len() ==> !spec_is_resent((#[trigger] headers[i]).spec_name()),
    ensures
        resent_scan(headers, from, Seq::empty()).is_none(),
    decreases headers.len() - from,
{
    if from < headers.len() {
        lemma_scan_without_resent(headers, from + 1);
    }
}

/// Checks the rule of the `Resent-` headers on `map`. A map without any
/// `Resent-` header passes.
pub fn resent_any(map: &HeaderMap) -> (r: Result<(), HeaderValidationError>)
    ensures
        match r {
            Ok(_) => resent_violation(map@).is_none(),
            Err(e) => resent_violation(map@) matches Some(v) && e == HeaderValidationError::BuildIn(
                v,
            ),
        },
{
    let entries = map.iter();
    let mut block: Vec<&HeaderObj> = Vec::new();
    let mut i: usize = 0;
    assert(deref_all(block@) =~= Seq::<HeaderObj>::empty());
    while i < entries.len()
        invariant
            0 <= i <= entries.len(),
            entries@.len() == map@.len(),
            forall|k: int|
                0 <= k < entries@.len() ==> *(#[trigger] entries@[k]).1 == map@[k] && entries@[k].0
                    == map@[k].spec_kind().name,
            resent_violation(map@) == resent_scan(map@, i as int, deref_all(block@)),
        decreases entries.len() - i,
    {
        let (name, content) = entries[i];
        if is_resent(name.as_str()) {
            if find_in_block(&block, name.as_str()).is_some() {
                validate_resent_block(&block)?;
                block = Vec::new();
                proof {
                    assert(deref_all(block@.push(content)) =~= seq![map@[i as int]]);
                }
            } else {
                proof {
                    assert(deref_all(block@.push(content)) =~= deref_all(block@).push(
                        map@[i as int],
                    ));
                }
            }
            block.push(content);
        }
        i = i + 1;
    }
    if block.len() == 0 {
        assert(deref_all(block@).len() == 0);
        return Ok(());
    }
    validate_resent_block(&block)
}

/// Checks that `map` holds one header named `name` at most.
pub fn check_header_count_max_one(name: HeaderName, map: &HeaderMap) -> (r: Result<
    (),
    HeaderValidationError,
>)
    ensures
        match r {
            Ok(_) => with_name(map@, name@).len() <= 1,
            Err(e) => with_name(map@, name@).len() > 1 && (
            e matches HeaderValidationError::BuildIn(
                BuildInValidationError::MoreThenOne { header_name },
            ) && header_name@ == name@),
        },
{
    let valid = map.get_untyped(name).len() <= 1;
    if valid {
        Ok(())
    } else {
        Err(
            HeaderValidationError::from(
                BuildInValidationError::MoreThenOne { header_name: name.as_str() },
            ),
        )
    }
}

/// The rules that `headers` name, each once, in the order in which they
/// are first named.
pub open spec fn distinct_validators(headers: Seq<HeaderObj>) -> Seq<HeaderMapValidator>
    decreases headers.len(),
{
    if headers.len() == 0 {
        Seq::empty()
    } else {
        let before = distinct_validators(headers.drop_last());
        match headers.last().spec_meta().contextual_validator {
            Some(v) => if before.contains(v) {
                before
            } else {
                before.push(v)
            },
            None => before,
        }
    }
}

/// Whether some header among `headers` names the rule `v`.
pub open spec fn names_validator(headers: Seq<HeaderObj>, v: HeaderMapValidator) -> bool {
    exists|i: int|
        0 <= i < headers.len() && (#[trigger] headers[i]).spec_meta().contextual_validator == Some(
            v,
        )
}

/// However many headers name one rule, the rule is run once: among the
/// rules that are run, none occurs twice, and a rule is among them exactly
/// if some header names it.
pub proof fn law_each_validator_once(headers: Seq<HeaderObj>)
    ensures
        distinct_validators(headers).no_duplicates(),
        forall|v: HeaderMapValidator|
            distinct_validators(headers).contains(v) == names_validator(headers, v),
    decreases headers.len(),
{
    if headers.len() > 0 {
        let rest = headers.drop_last();
        let before = distinct_validators(rest);
        let all = distinct_validators(headers);
        law_each_validator_once(rest);
        assert forall|v: HeaderMapValidator| all.contains(v) == names_validator(headers, v) by {
            if names_validator(rest, v) {
                let i = choose|i: int|
                    0 <= i < rest.len() && (#[trigger] rest[i]).spec_meta().contextual_validator
                        == Some(v);
                assert(headers[i] == rest[i]);
            }
            if names_validator(headers, v) && !names_validator(rest, v) {
                let i = choose|i: int|
                    0 <= i < headers.len() && (
                    #[trigger] headers[i]).spec_meta().contextual_validator == Some(v);
                if i < rest.len() {
                    assert(rest[i] == headers[i]);
                }
            }
            if before.contains(v) {
                let k = choose|k: int| 0 <= k < before.len() && before[k] == v;
                assert(all[k] == v);
            }
            if headers.last().spec_meta().contextual_validator == Some(v) {
                assert(headers[headers.len() - 1] == headers.last());
                if !before.contains(v) {
                    assert(all[all.len() - 1] == v);
                }
            }
            if all.contains(v) && !before.contains(v) {
                let k = choose|k: int| 0 <= k < all.len() && all[k] == v;
                if k < before.len() {
                    assert(before[k] == v);
                }
            }
        }
    }
}

/// Why validation fails: for a rule of this crate that is broken, or for
/// a rule of the caller, which this crate cannot check.
pub enum ValidationFailure {
    BuildIn(BuildInValidationError),
    UnknownCustom(u64),
}

/// What the rule `v` has against `headers`, if anything. Against a rule
/// of the caller speaks that it cannot be checked here.
pub open spec fn validator_failure(v: HeaderMapValidator, headers: Seq<HeaderObj>) -> Option<
    ValidationFailure,
> {
    match v {
        HeaderMapValidator::From => match from_violation(headers) {
            Some(e) => Some(ValidationFailure::BuildIn(e)),
            None => None,
        },
        HeaderMapValidator::ResentAny => match resent_violation(headers) {
            Some(e) => Some(ValidationFailure::BuildIn(e)),
            None => None,
        },
        HeaderMapValidator::Custom(n) => Some(ValidationFailure::UnknownCustom(n)),
    }
}

/// The failure of the first of `validators`, from index `from` on, that
/// has something against `headers`.
pub open spec fn first_failure(
    validators: Seq<HeaderMapValidator>,
    headers: Seq<HeaderObj>,
    from: int,
) -> Option<ValidationFailure>
    decreases validators.len() - from,
{
    if from < 0 || from >= validators.len() {
        None
    } else {
        match validator_failure(validators[from], headers) {
            Some(f) => Some(f),
            None => first_failure(validators, headers, from + 1),
        }
    }
}

/// Two runs of headers look alike to the rules if they are as long, and
/// each header of the one is of the kind of the header at its place in
/// the other and lists as many mailboxes.
pub open spec fn alike_to_rules(a: Seq<HeaderObj>, b: Seq<HeaderObj>) -> bool {
    &&& a.len() == b.len()
    &&& forall|i: int|
        0 <= i < a.len() ==> (#[trigger] a[i]).spec_kind() == b[i].spec_kind()
            && a[i].spec_body().spec_mailbox_count() == b[i].spec_body().spec_mailbox_count()
}

/// The rules look at the kinds of the headers and at how many mailboxes
/// they list, and at nothing else: on headers that agree in these, such
/// as a map and its copy, every rule gives the same, and the same rules
/// are run in the same order.
pub proof fn law_rules_agree_on_copies(a: Seq<HeaderObj>, b: Seq<HeaderObj>)
    requires
        alike_to_rules(a, b),
    ensures
        from_violation(a) == from_violation(b),
        resent_violation(a) == resent_violation(b),
        distinct_validators(a) == distinct_validators(b),
        first_failure(distinct_validators(a), a, 0) == first_failure(distinct_validators(b), b, 0),
{
    lemma_from_alike(a, b);
    lemma_scan_alike(a, b, 0, Seq::empty(), Seq::empty());
    lemma_validators_alike(a, b);
    lemma_first_failure_alike(distinct_validators(a), a, b, 0);
}

proof fn lemma_has_name_alike(a: Seq<HeaderObj>, b: Seq<HeaderObj>, name: Seq<char>)
    requires
        alike_to_rules(a, b),
    ensures
        has_name(a, name) == has_name(b, name),
{
    if has_name(a, name) {
        let i = choose|i: int| 0 <= i < a.len() && (#[trigger] a[i]).spec_name() == name;
        assert(b[i].spec_name() == name);
    }
    if has_name(b, name) {
        let i = choose|i: int| 0 <= i < b.len() && (#[trigger] b[i]).spec_name() == name;
        assert(a[i].spec_kind() == b[i].spec_kind());
        assert(a[i].spec_name() == name);
    }
}

proof fn lemma_from_alike(a: Seq<HeaderObj>, b: Seq<HeaderObj>)
    requires
        alike_to_rules(a, b),
    ensures
        from_violation(a) == from_violation(b),
{
    lemma_has_name_alike(a, b, "Sender"@);
    if from_needs_sender(a) {
        let i = choose|i: int|
            0 <= i < a.len() && is_from_kind((#[trigger] a[i]).spec_kind()) && lists_many(a[i]);
        assert(is_from_kind(b[i].spec_kind()) && lists_many(b[i]));
    }
    if from_needs_sender(b) {
        let i = choose|i: int|
            0 <= i < b.len() && is_from_kind((#[trigger] b[i]).spec_kind()) && lists_many(b[i]);
        assert(a[i].spec_kind() == b[i].spec_kind());
        assert(is_from_kind(a[i].spec_kind()) && lists_many(a[i]));
    }
}

proof fn lemma_with_name_alike(a: Seq<HeaderObj>, b: Seq<HeaderObj>, name: Seq<char>)
    requires
        alike_to_rules(a, b),
    ensures
        alike_to_rules(with_name(a, name), with_name(b, name)),
    decreases a.len(),
{
    if a.len() > 0 {
        let ra = a.drop_last();
        let rb = b.drop_last();
        assert(alike_to_rules(ra, rb)) by {
            assert forall|i: int| 0 <= i < ra.len() implies (#[trigger] ra[i]).spec_kind()
                == rb[i].spec_kind() && ra[i].spec_body().spec_mailbox_count()
                == rb[i].spec_body().spec_mailbox_count() by {
                assert(ra[i] == a[i]);
                assert(rb[i] == b[i]);
                assert(a[i].spec_kind() == b[i].spec_kind());
            }
        }
        lemma_with_name_alike(ra, rb, name);
        assert(a[a.len() - 1].spec_kind() == b[b.len() - 1].spec_kind());
        let wa = with_name(a, name);
        let wb = with_name(b, name);
        if a.last().spec_name() == name {
            assert forall|i: int| 0 <= i < wa.len() implies (#[trigger] wa[i]).spec_kind()
                == wb[i].spec_kind() && wa[i].spec_body().spec_mailbox_count()
                == wb[i].spec_body().spec_mailbox_count() by {
                if i < with_name(ra, name).len() {
                    assert(wa[i] == with_name(ra, name)[i]);
                    assert(wb[i] == with_name(rb, name)[i]);
                    assert(with_name(ra, name)[i].spec_kind() == with_name(rb, name)[i].spec_kind());
                }
            }
        }
    }
}

proof fn lemma_block_alike(a: Seq<HeaderObj>, b: Seq<HeaderObj>)
    requires
        alike_to_rules(a, b),
    ensures
        block_violation(a) == block_violation(b),
{
    lemma_has_name_alike(a, b, "Resent-Date"@);
    lemma_has_name_alike(a, b, "Resent-From"@);
    lemma_has_name_alike(a, b, "Resent-Sender"@);
    lemma_with_name_alike(a, b, "Resent-From"@);
    lemma_with_name(a, "Resent-From"@);
    lemma_with_name(b, "Resent-From"@);
    if has_name(a, "Resent-From"@) {
        let wa = with_name(a, "Resent-From"@);
        let wb = with_name(b, "Resent-From"@);
        assert(wa[0].spec_kind() == wb[0].spec_kind());
    }
}

proof fn lemma_scan_alike(
    a: Seq<HeaderObj>,
    b: Seq<HeaderObj>,
    from: int,
    block_a: Seq<HeaderObj>,
    block_b: Seq<HeaderObj>,
)
    requires
        alike_to_rules(a, b),
        alike_to_rules(block_a, block_b),
        0 <= from <= a.len(),
    ensures
        resent_scan(a, from, block_a) == resent_scan(b, from, block_b),
    decreases a.len() - from,
{
    lemma_block_alike(block_a, block_b);
    if from < a.len() {
        assert(a[from].spec_kind() == b[from].spec_kind());
        let name = a[from].spec_name();
        lemma_has_name_alike(block_a, block_b, name);
        if !spec_is_resent(name) {
            lemma_scan_alike(a, b, from + 1, block_a, block_b);
        } else if has_name(block_a, name) {
            assert(alike_to_rules(seq![a[from]], seq![b[from]]));
            lemma_scan_alike(a, b, from + 1, seq![a[from]], seq![b[from]]);
        } else {
            let pa = block_a.push(a[from]);
            let pb = block_b.push(b[from]);
            assert(alike_to_rules(pa, pb)) by {
                assert forall|i: int| 0 <= i < pa.len() implies (#[trigger] pa[i]).spec_kind()
                    == pb[i].spec_kind() && pa[i].spec_body().spec_mailbox_count()
                    == pb[i].spec_body().spec_mailbox_count() by {
                    if i < block_a.len() {
                        assert(pa[i] == block_a[i]);
                        assert(pb[i] == block_b[i]);
                        assert(block_a[i].spec_kind() == block_b[i].spec_kind());
                    }
                }
            }
            lemma_scan_alike(a, b, from + 1, pa, pb);
        }
    }
}

proof fn lemma_validators_alike(a: Seq<HeaderObj>, b: Seq<HeaderObj>)
    requires
        alike_to_rules(a, b),
    ensures
        distinct_validators(a) == distinct_validators(b),
    decreases a.len(),
{
    if a.len() > 0 {
        let ra = a.drop_last();
        let rb = b.drop_last();
        assert(alike_to_rules(ra, rb)) by {
            assert forall|i: int| 0 <= i < ra.len() implies (#[trigger] ra[i]).spec_kind()
                == rb[i].spec_kind() && ra[i].spec_body().spec_mailbox_count()
                == rb[i].spec_body().spec_mailbox_count() by {
                assert(ra[i] == a[i]);
                assert(rb[i] == b[i]);
                assert(a[i].spec_kind() == b[i].spec_kind());
            }
        }
        lemma_validators_alike(ra, rb);
        assert(a[a.len() - 1].spec_kind() == b[b.len() - 1].spec_kind());
    }
}

proof fn lemma_first_failure_alike(
    validators: Seq<HeaderMapValidator>,
    a: Seq<HeaderObj>,
    b: Seq<HeaderObj>,
    from: int,
)
    requires
        alike_to_rules(a, b),
        0 <= from <= validators.len(),
    ensures
        first_failure(validators, a, from) == first_failure(validators, b, from),
    decreases validators.len() - from,
{
    lemma_from_alike(a, b);
    lemma_scan_alike(a, b, 0, Seq::empty(), Seq::empty());
    if from < validators.len() {
        lemma_first_failure_alike(validators, a, b, from + 1);
    }
}

impl HeaderMap {
    /// The rules that the headers of the map name, each once, in the
    /// order in which they are first named.
    pub fn validators(&self) -> (r: Vec<HeaderMapValidator>)
        ensures
            r@ == distinct_validators(self@),
    {
        let headers = self.values();
        let mut seen: Vec<HeaderMapValidator> = Vec::new();
        let mut i: usize = 0;
        assert(self@.take(0) =~= Seq::<HeaderObj>::empty());
        while i < headers.len()
            invariant
                0 <= i <= headers.len(),
                headers@.len() == self@.len(),
                forall|k: int| 0 <= k < headers@.len() ==> *(#[trigger] headers@[k]) == self@[k],
                seen@ == distinct_validators(self@.take(i as int)),
            decreases headers.len() - i,
        {
            proof {
                assert(self@.take(i as int + 1).drop_last() =~= self@.take(i as int));
                assert(self@.take(i as int + 1).last() == self@[i as int]);
            }
            match headers[i].validator() {
                Some(validator) => {
                    let mut known = false;
                    let mut k: usize = 0;
                    while k < seen.len() && !known
                        invariant
                            0 <= k <= seen.len(),
                            known ==> seen@.contains(validator),
                            !known ==> forall|j: int| 0 <= j < k ==> seen@[j] != validator,
                        decreases seen.len() - k + (if known { 0int } else { 1int }),
                    {
                        if seen[k] == validator {
                            known = true;
                        } else {
                            k = k + 1;
                        }
                    }
                    if !known {
                        seen.push(validator);
                    }
                },
                None => {},
            }
            i = i + 1;
        }
        assert(self@.take(i as int) =~= self@);
        seen
    }

    /// Runs each rule that the headers of the map name, once, in the
    /// order in which the rules are first named, and stops at the first
    /// that fails. A rule of the caller fails here, since only the caller
    /// can check it: see `use_contextual_validators_with`.
    pub fn use_contextual_validators(&self) -> (r: Result<(), HeaderValidationError>)
        ensures
            match r {
                Ok(_) => first_failure(distinct_validators(self@), self@, 0).is_none(),
                Err(HeaderValidationError::BuildIn(e)) => first_failure(
                    distinct_validators(self@),
                    self@,
                    0,
                ) == Some(ValidationFailure::BuildIn(e)),
                Err(HeaderValidationError::Custom(_)) => first_failure(
                    distinct_validators(self@),
                    self@,
                    0,
                ) matches Some(ValidationFailure::UnknownCustom(_)),
            },
    {
        let validators = self.validators();
        let mut i: usize = 0;
        while i < validators.len()
            invariant
                0 <= i <= validators.len(),
                validators@ == distinct_validators(self@),
                first_failure(validators@, self@, 0) == first_failure(validators@, self@, i as int),
            decreases validators.len() - i,
        {
            match validators[i] {
                HeaderMapValidator::From => {
                    from(self)?;
                },
                HeaderMapValidator::ResentAny => {
                    resent_any(self)?;
                },
                HeaderMapValidator::Custom(_) => {
                    return Err(
                        HeaderValidationError::Custom(
                            String::from_str("a rule of the caller cannot be checked here"),
                        ),
                    );
                },
            }
            i = i + 1;
        }
        Ok(())
    }

    /// Runs each rule that the headers of the map name, once, in the
    /// order in which the rules are first named, and stops at the first
    /// that fails. A rule of the caller is run by `custom`, which is
    /// handed the number of the rule and the map.
    pub fn use_contextual_validators_with<F>(&self, custom: F) -> (r: Result<
        (),
        HeaderValidationError,
    >) where F: Fn(u64, &HeaderMap) -> Result<(), HeaderValidationError>
        requires
            forall|n: u64| custom.requires((n, self)),
        ensures
            match r {
                Ok(_) => forall|k: int|
                    0 <= k < distinct_validators(self@).len() ==> passes(
                        #[trigger] distinct_validators(self@)[k],
                        self,
                        custom,
                    ),
                Err(e) => exists|k: int|
                    0 <= k < distinct_validators(self@).len() && #[trigger] fails_with(
                        distinct_validators(self@)[k],
                        self,
                        custom,
                        e,
                    ) && forall|j: int|
                        0 <= j < k ==> passes(
                            #[trigger] distinct_validators(self@)[j],
                            self,
                            custom,
                        ),
            },
    {
        let validators = self.validators();
        let mut i: usize = 0;
        while i < validators.len()
            invariant
                0 <= i <= validators.len(),
                validators@ == distinct_validators(self@),
                forall|n: u64| custom.requires((n, self)),
                forall|j: int| 0 <= j < i ==> passes(#[trigger] validators@[j], self, custom),
            decreases validators.len() - i,
        {
            let res = match validators[i] {
                HeaderMapValidator::From => from(self),
                HeaderMapValidator::ResentAny => resent_any(self),
                HeaderMapValidator::Custom(n) => custom(n, self),
            };
            match res {
                Ok(done) => {
                    assert(done == ());
                    assert(passes(validators@[i as int], self, custom));
                },
                Err(e) => {
                    assert(fails_with(validators@[i as int], self, custom, e));
                    return Err(e);
                },
            }
            i = i + 1;
        }
        Ok(())
    }
}

/// Whether the rule `v` has nothing against `map`, a rule of the caller
/// being one that `custom` can let pass.
pub open spec fn passes<F: Fn(u64, &HeaderMap) -> Result<(), HeaderValidationError>>(
    v: HeaderMapValidator,
    map: &HeaderMap,
    custom: F,
) -> bool {
    match v {
        HeaderMapValidator::Custom(n) => custom.ensures((n, map), Ok(())),
        _ => validator_failure(v, map@).is_none(),
    }
}

/// Whether the rule `v` fails on `map` with `e`, a rule of the caller
/// being one that `custom` can fail with `e`.
pub open spec fn fails_with<F: Fn(u64, &HeaderMap) -> Result<(), HeaderValidationError>>(
    v: HeaderMapValidator,
    map: &HeaderMap,
    custom: F,
    e: HeaderValidationError,
) -> bool {
    match v {
        HeaderMapValidator::Custom(n) => custom.ensures((n, map), Err(e)),
        _ => e matches HeaderValidationError::BuildIn(b) && validator_failure(v, map@) == Some(
            ValidationFailure::BuildIn(b),
        ),
    }
}

} // verus!
