//! Header kinds, and header bodies together with their kind.

use vstd::prelude::*;
use vstd::string::StrSliceExecFns;
use crate::components::date_time::DateTime;
use crate::components::email::{first_at, first_index_of, lemma_first_index_of, Email};
use crate::components::mailbox::{same_mailbox, Mailbox};
use crate::components::mailbox_list::MailboxList;
use crate::components::message_id::{MessageID, MessageIDList};
use crate::components::phrase::{word_texts, Phrase};
use crate::components::raw_unstructured::RawUnstructured;
use crate::components::transfer_encoding::TransferEncoding;
use vstd::utf8::is_ascii_chars;
use crate::encoder::{
    encodes_alike, mark, text_pieces, EncodableInHeader, EncodingWriter, Piece,
};
use crate::components::message_id::valid_message_id;
use crate::error::{
    ComponentCreationError, ComponentError, EncodingError, EncodingFailure, HeaderTypeError,
};
use crate::mail_type::MailType;
use crate::name::HeaderName;
use crate::text::chars_of;

verus! {

/// The kinds of component that a header field can hold.
#[derive(Debug, Clone, Copy, PartialEq, Eq, Hash, Structural)]
pub enum ComponentKind {
    DateTime,
    Email,
    Mailbox,
    MailboxList,
    MessageID,
    MessageIDList,
    Phrase,
    RawUnstructured,
    TransferEncoding,
}

impl ComponentKind {
    pub open spec fn spec_name(&self) -> Seq<char> {
        match *self {
            ComponentKind::DateTime => "DateTime"@,
            ComponentKind::Email => "Email"@,
            ComponentKind::Mailbox => "Mailbox"@,
            ComponentKind::MailboxList => "MailboxList"@,
            ComponentKind::MessageID => "MessageID"@,
            ComponentKind::MessageIDList => "MessageIDList"@,
            ComponentKind::Phrase => "Phrase"@,
            ComponentKind::RawUnstructured => "RawUnstructured"@,
            ComponentKind::TransferEncoding => "TransferEncoding"@,
        }
    }

    /// The name of the component kind, as errors give it.
    pub fn name(&self) -> (r: &'static str)
        ensures
            r@ == self.spec_name(),
    {
        match self {
            ComponentKind::DateTime => "DateTime",
            ComponentKind::Email => "Email",
            ComponentKind::Mailbox => "Mailbox",
            ComponentKind::MailboxList => "MailboxList",
            ComponentKind::MessageID => "MessageID",
            ComponentKind::MessageIDList => "MessageIDList",
            ComponentKind::Phrase => "Phrase",
            ComponentKind::RawUnstructured => "RawUnstructured",
            ComponentKind::TransferEncoding => "TransferEncoding",
        }
    }
}

/// A component of any kind.
#[derive(Debug)]
pub enum Component {
    DateTime(DateTime),
    Email(Email),
    Mailbox(Mailbox),
    MailboxList(MailboxList),
    MessageID(MessageID),
    MessageIDList(MessageIDList),
    Phrase(Phrase),
    RawUnstructured(RawUnstructured),
    TransferEncoding(TransferEncoding),
}

impl Component {
    pub open spec fn spec_kind(&self) -> ComponentKind {
        match *self {
            Component::DateTime(_) => ComponentKind::DateTime,
            Component::Email(_) => ComponentKind::Email,
            Component::Mailbox(_) => ComponentKind::Mailbox,
            Component::MailboxList(_) => ComponentKind::MailboxList,
            Component::MessageID(_) => ComponentKind::MessageID,
            Component::MessageIDList(_) => ComponentKind::MessageIDList,
            Component::Phrase(_) => ComponentKind::Phrase,
            Component::RawUnstructured(_) => ComponentKind::RawUnstructured,
            Component::TransferEncoding(_) => ComponentKind::TransferEncoding,
        }
    }

    /// The kind of the component.
    #[verifier::when_used_as_spec(spec_kind)]
    pub fn kind(&self) -> (r: ComponentKind)
        ensures
            r == self.spec_kind(),
    {
        match self {
            Component::DateTime(_) => ComponentKind::DateTime,
            Component::Email(_) => ComponentKind::Email,
            Component::Mailbox(_) => ComponentKind::Mailbox,
            Component::MailboxList(_) => ComponentKind::MailboxList,
            Component::MessageID(_) => ComponentKind::MessageID,
            Component::MessageIDList(_) => ComponentKind::MessageIDList,
            Component::Phrase(_) => ComponentKind::Phrase,
            Component::RawUnstructured(_) => ComponentKind::RawUnstructured,
            Component::TransferEncoding(_) => ComponentKind::TransferEncoding,
        }
    }

    /// How many mailboxes the component lists, if it is a list of
    /// mailboxes.
    pub open spec fn spec_mailbox_count(&self) -> Option<nat> {
        match *self {
            Component::MailboxList(list) => Some(list@.len()),
            _ => None,
        }
    }

    /// How many mailboxes the component lists, if it is a list of
    /// mailboxes.
    pub fn mailbox_count(&self) -> (r: Option<usize>)
        ensures
            match r {
                Some(n) => self.spec_mailbox_count() == Some(n as nat),
                None => self.spec_mailbox_count().is_none(),
            },
    {
        match self {
            Component::MailboxList(list) => Some(list.len()),
            _ => None,
        }
    }
}

impl Component {
    /// The component inside as it shows itself for debugging: what `Debug`
    /// gives for the component, without the name of its kind and the
    /// brackets that `Debug` puts around the component inside.
    pub fn debug_string(&self) -> (r: String)
        ensures
            r@ == self.spec_debug(),
    {
        let text = debug_text(self);
        within_brackets_of(text.as_str()).to_owned()
    }

    /// The text in which the component inside shows itself for debugging.
    pub open spec fn spec_debug(&self) -> Seq<char> {
        within_brackets(component_debug(*self))
    }
}

/// The text that `Debug` gives for a component: the name of its kind, and
/// in round brackets what it gives for the component inside.
pub uninterp spec fn component_debug(body: Component) -> Seq<char>;

/// `format!` with `{:?}` on a component. The text that it gives depends
/// on the component alone, so it has a name here; nothing more is claimed
/// of it.
#[verifier::external_body]
fn debug_text(body: &Component) -> (r: String)
    ensures
        r@ == component_debug(*body),
{
    format!("{:?}", body)
}

/// What stands in `s` behind its first `(` and before the `)` at its end.
/// A text without a `(`, or with anything but `)` at its end, stands for
/// itself.
pub open spec fn within_brackets(s: Seq<char>) -> Seq<char> {
    match first_index_of(s, '(') {
        Some(open) => if s.last() == ')' {
            s.subrange(open + 1, s.len() - 1)
        } else {
            s
        },
        None => s,
    }
}

/// The part of `text` that stands within its brackets.
pub fn within_brackets_of(text: &str) -> (r: &str)
    ensures
        r@ == within_brackets(text@),
{
    let chars = chars_of(text);
    let n: usize = chars.len();
    let mut open: usize = 0;
    while open < n && chars[open] != '('
        invariant
            n == chars.len(),
            0 <= open <= n,
            first_at(chars@, '(', open as int),
        decreases n - open,
    {
        open = open + 1;
    }
    if open == n {
        proof {
            if first_index_of(chars@, '(').is_some() {
                let k = choose|k: int|
                    0 <= k < chars@.len() && chars@[k] == '(' && first_at(chars@, '(', k);
                assert(chars@[k] != '(');
            }
        }
        return text;
    }
    proof {
        lemma_first_index_of(chars@, '(', open as int);
    }
    if chars[n - 1] != ')' {
        return text;
    }
    text.substring_char(open + 1, n - 1)
}

/// Whether `body` is the component that `text` spells: what the
/// component of its kind makes of the text. A list is the list of the one
/// item that the text spells.
pub open spec fn spells(body: Component, text: &str) -> bool {
    match body {
        Component::Email(c) => Email::try_from.ensures((text,), Ok(c)),
        Component::Mailbox(c) => Mailbox::try_from.ensures((text,), Ok(c)),
        Component::MailboxList(c) => c@.len() == 1 && Mailbox::try_from.ensures((text,), Ok(c@[0])),
        Component::MessageID(c) => MessageID::try_from.ensures((text,), Ok(c)),
        Component::MessageIDList(c) => c@.len() == 1 && MessageID::try_from.ensures(
            (text,),
            Ok(c@[0]),
        ),
        Component::Phrase(c) => Phrase::try_from.ensures((text,), Ok(c)),
        Component::RawUnstructured(c) => RawUnstructured::try_from.ensures((text,), Ok(c)),
        Component::DateTime(_) => false,
        Component::TransferEncoding(_) => false,
    }
}

/// Whether the component kind `kind` refuses `text`, for `cause` where it
/// gives one. Dates and transfer encodings are not spelled as text and
/// refuse every text.
pub open spec fn refuses(kind: ComponentKind, text: &str, cause: Option<ComponentError>) -> bool {
    match kind {
        ComponentKind::Email => cause matches Some(e) && Email::try_from.ensures((text,), Err(e)),
        ComponentKind::Mailbox | ComponentKind::MailboxList => cause matches Some(e)
            && Mailbox::try_from.ensures((text,), Err(e)),
        ComponentKind::MessageID | ComponentKind::MessageIDList => !valid_message_id(text@) && (
        cause matches Some(ComponentError::InvalidMessageId(t)) && t@ == text@),
        ComponentKind::Phrase => cause matches Some(e) && Phrase::try_from.ensures(
            (text,),
            Err(e),
        ),
        ComponentKind::RawUnstructured => false,
        ComponentKind::DateTime | ComponentKind::TransferEncoding => cause.is_none(),
    }
}

impl Component {
    /// The component of kind `kind` that `text` spells. Where the kind
    /// refuses the text, the error names the kind and holds the text, and
    /// the cause where the kind gives one.
    pub fn try_from_str(kind: ComponentKind, text: &str) -> (r: Result<
        Component,
        ComponentCreationError,
    >)
        ensures
            match r {
                Ok(body) => body.spec_kind() == kind && spells(body, text),
                Err(e) => e.spec_component() == kind.spec_name() && e.spec_str_context() == Some(
                    text@,
                ) && refuses(kind, text, e.spec_cause()),
            },
    {
        let made = match kind {
            ComponentKind::Email => match Email::try_from(text) {
                Ok(c) => Ok(Component::Email(c)),
                Err(e) => Err(Some(e)),
            },
            ComponentKind::Mailbox => match Mailbox::try_from(text) {
                Ok(c) => Ok(Component::Mailbox(c)),
                Err(e) => Err(Some(e)),
            },
            ComponentKind::MailboxList => match Mailbox::try_from(text) {
                Ok(c) => Ok(Component::MailboxList(MailboxList::from_single(c))),
                Err(e) => Err(Some(e)),
            },
            ComponentKind::MessageID => match MessageID::try_from(text) {
                Ok(c) => Ok(Component::MessageID(c)),
                Err(_) => Err(Some(ComponentError::InvalidMessageId(text.to_owned()))),
            },
            ComponentKind::MessageIDList => match MessageID::try_from(text) {
                Ok(c) => Ok(Component::MessageIDList(MessageIDList::from_single(c))),
                Err(_) => Err(Some(ComponentError::InvalidMessageId(text.to_owned()))),
            },
            ComponentKind::Phrase => match Phrase::try_from(text) {
                Ok(c) => Ok(Component::Phrase(c)),
                Err(e) => Err(Some(e)),
            },
            ComponentKind::RawUnstructured => match RawUnstructured::try_from(text) {
                Ok(c) => Ok(Component::RawUnstructured(c)),
                Err(e) => Err(Some(e)),
            },
            ComponentKind::DateTime | ComponentKind::TransferEncoding => Err(None),
        };
        match made {
            Ok(body) => Ok(body),
            Err(Some(cause)) => Err(
                ComponentCreationError::from_parent(cause, kind.name()).with_str_context(text),
            ),
            Err(None) => Err(ComponentCreationError::new_with_str(kind.name(), text)),
        }
    }
}

/// Two components hold the same if they are of one kind and hold the
/// same text: the same characters under the same tag, part by part and
/// item by item; the same second, for dates; the same encoding.
pub open spec fn same_content(a: Component, b: Component) -> bool {
    match (a, b) {
        (Component::DateTime(x), Component::DateTime(y)) => x@ == y@,
        (Component::Email(x), Component::Email(y)) => x.local_part@ == y.local_part@ && x.domain@
            == y.domain@ && x.domain.tagged_ascii() == y.domain.tagged_ascii(),
        (Component::Mailbox(x), Component::Mailbox(y)) => same_mailbox(x, y),
        (Component::MailboxList(x), Component::MailboxList(y)) => x@.len() == y@.len() && forall|
            i: int,
        | 0 <= i < x@.len() ==> same_mailbox(#[trigger] x@[i], y@[i]),
        (Component::MessageID(x), Component::MessageID(y)) => x@ == y@ && x.tagged_ascii()
            == y.tagged_ascii(),
        (Component::MessageIDList(x), Component::MessageIDList(y)) => x@.len() == y@.len()
            && forall|i: int|
            0 <= i < x@.len() ==> (#[trigger] x@[i])@ == y@[i]@ && x@[i].tagged_ascii()
                == y@[i].tagged_ascii(),
        (Component::Phrase(x), Component::Phrase(y)) => word_texts(x@) == word_texts(y@),
        (Component::RawUnstructured(x), Component::RawUnstructured(y)) => x@ == y@,
        (Component::TransferEncoding(x), Component::TransferEncoding(y)) => x == y,
        _ => false,
    }
}

/// Two headers hold the same if they are of one kind and their bodies
/// hold the same.
pub open spec fn same_header(a: HeaderObj, b: HeaderObj) -> bool {
    a.spec_kind() == b.spec_kind() && same_content(a.spec_body(), b.spec_body())
}

/// Components that hold the same are of one kind and list as many
/// mailboxes.
pub proof fn lemma_same_content(a: Component, b: Component)
    requires
        same_content(a, b),
    ensures
        a.spec_kind() == b.spec_kind(),
        a.spec_mailbox_count() == b.spec_mailbox_count(),
{
}

impl Clone for Component {
    /// A copy that holds the same and encodes alike.
    fn clone(&self) -> (r: Component)
        ensures
            r.spec_kind() == self.spec_kind(),
            r.spec_mailbox_count() == self.spec_mailbox_count(),
            same_content(r, *self),
            encodes_alike(r, *self),
    {
        let r = match self {
            Component::DateTime(c) => Component::DateTime(*c),
            Component::Email(c) => Component::Email(c.clone()),
            Component::Mailbox(c) => Component::Mailbox(c.clone()),
            Component::MailboxList(c) => Component::MailboxList(c.clone()),
            Component::MessageID(c) => Component::MessageID(c.clone()),
            Component::MessageIDList(c) => Component::MessageIDList(c.clone()),
            Component::Phrase(c) => Component::Phrase(c.clone()),
            Component::RawUnstructured(c) => Component::RawUnstructured(c.clone()),
            Component::TransferEncoding(c) => Component::TransferEncoding(*c),
        };
        proof {
            assert forall|mt: MailType| #[trigger]
                r.pieces(mt) == self.pieces(mt) && r.failure(mt) == self.failure(mt) by {
                match (r, *self) {
                    (Component::Email(a), Component::Email(b)) => {
                        assert(a.pieces(mt) == b.pieces(mt));
                    },
                    (Component::Mailbox(a), Component::Mailbox(b)) => {
                        assert(a.pieces(mt) == b.pieces(mt));
                    },
                    (Component::MailboxList(a), Component::MailboxList(b)) => {
                        assert(a.pieces(mt) == b.pieces(mt));
                    },
                    (Component::MessageIDList(a), Component::MessageIDList(b)) => {
                        assert(a.pieces(mt) == b.pieces(mt));
                    },
                    (Component::Phrase(a), Component::Phrase(b)) => {
                        assert(a.pieces(mt) == b.pieces(mt));
                    },
                    _ => {},
                }
            }
            assert(encodes_alike(r, *self));
        }
        r
    }
}

impl EncodableInHeader for Component {
    /// What the component inside writes.
    open spec fn pieces(&self, mt: MailType) -> Seq<Piece> {
        match *self {
            Component::DateTime(c) => c.pieces(mt),
            Component::Email(c) => c.pieces(mt),
            Component::Mailbox(c) => c.pieces(mt),
            Component::MailboxList(c) => c.pieces(mt),
            Component::MessageID(c) => c.pieces(mt),
            Component::MessageIDList(c) => c.pieces(mt),
            Component::Phrase(c) => c.pieces(mt),
            Component::RawUnstructured(c) => c.pieces(mt),
            Component::TransferEncoding(c) => c.pieces(mt),
        }
    }

    open spec fn failure(&self, mt: MailType) -> Option<EncodingFailure> {
        match *self {
            Component::DateTime(c) => c.failure(mt),
            Component::Email(c) => c.failure(mt),
            Component::Mailbox(c) => c.failure(mt),
            Component::MailboxList(c) => c.failure(mt),
            Component::MessageID(c) => c.failure(mt),
            Component::MessageIDList(c) => c.failure(mt),
            Component::Phrase(c) => c.failure(mt),
            Component::RawUnstructured(c) => c.failure(mt),
            Component::TransferEncoding(c) => c.failure(mt),
        }
    }

    fn encode(&self, handle: &mut EncodingWriter) -> (r: Result<(), EncodingError>) {
        match self {
            Component::DateTime(c) => c.encode(handle),
            Component::Email(c) => c.encode(handle),
            Component::Mailbox(c) => c.encode(handle),
            Component::MailboxList(c) => c.encode(handle),
            Component::MessageID(c) => c.encode(handle),
            Component::MessageIDList(c) => c.encode(handle),
            Component::Phrase(c) => c.encode(handle),
            Component::RawUnstructured(c) => c.encode(handle),
            Component::TransferEncoding(c) => c.encode(handle),
        }
    }
}

/// Names a rule that is checked on a whole header map. Header kinds that
/// name the same rule share it, and it is run once for all of them.
#[derive(Debug, Clone, Copy, PartialEq, Eq, Hash, Structural)]
pub enum HeaderMapValidator {
    /// A `From` with more than one mailbox needs a `Sender`.
    From,
    /// Each block of `Resent-` fields needs a `Resent-Date`, and a
    /// `Resent-Sender` where its `Resent-From` has more than one mailbox.
    ResentAny,
    /// A rule of the caller, which the caller tells by its number.
    Custom(u64),
}

/// What is kept of a header kind with each body: whether the field may
/// occur once only, and which rule comes with it.
#[derive(Debug, Clone, Copy, PartialEq, Eq, Hash, Structural)]
pub struct HeaderMeta {
    pub max_count_eq_one: bool,
    pub contextual_validator: Option<HeaderMapValidator>,
}

/// A header kind: the name of a header field, the kind of component that
/// it holds, and what comes with it.
#[derive(Debug, Clone, Copy)]
pub struct HeaderKind {
    pub name: HeaderName,
    pub component: ComponentKind,
    pub meta: HeaderMeta,
}

impl HeaderKind {
    /// Two kinds are the same if they agree in name, component and what
    /// comes with them.
    pub open spec fn spec_same_as(&self, other: &HeaderKind) -> bool {
        &&& self.name@ == other.name@
        &&& self.component == other.component
        &&& self.meta == other.meta
    }

    #[verifier::when_used_as_spec(spec_same_as)]
    pub fn same_as(&self, other: &HeaderKind) -> (r: bool)
        ensures
            r == self.spec_same_as(other),
    {
        self.name.same_as(&other.name) && self.component == other.component
            && self.meta.max_count_eq_one == other.meta.max_count_eq_one && validator_eq(
            &self.meta.contextual_validator,
            &other.meta.contextual_validator,
        )
    }
}

impl HeaderKind {
    /// A header of this kind whose body is the component that `text`
    /// spells.
    pub fn body(&self, text: &str) -> (r: Result<HeaderObj, ComponentCreationError>)
        ensures
            match r {
                Ok(h) => h.spec_kind() == *self && spells(h.spec_body(), text),
                Err(e) => e.spec_component() == self.component.spec_name() && e.spec_str_context()
                    == Some(text@) && refuses(self.component, text, e.spec_cause()),
            },
    {
        let body = Component::try_from_str(self.component, text)?;
        match HeaderObj::new(*self, body) {
            Ok(header) => Ok(header),
            Err(_) => vstd::pervasive::unreached(),
        }
    }
}

/// Whether two rules, or their absence, are the same.
pub fn validator_eq(a: &Option<HeaderMapValidator>, b: &Option<HeaderMapValidator>) -> (r: bool)
    ensures
        r == (*a == *b),
{
    match (a, b) {
        (None, None) => true,
        (Some(x), Some(y)) => *x == *y,
        _ => false,
    }
}

/// Whether what comes with two kinds agrees.
pub fn meta_eq(a: &HeaderMeta, b: &HeaderMeta) -> (r: bool)
    ensures
        r == (*a == *b),
{
    a.max_count_eq_one == b.max_count_eq_one && validator_eq(
        &a.contextual_validator,
        &b.contextual_validator,
    )
}

/// A header: a body together with the header kind that it was made for.
///
/// The body is of the component kind that the header kind asks for.
#[derive(Debug)]
pub struct HeaderObj {
    kind: HeaderKind,
    body: Component,
}

impl Clone for HeaderObj {
    /// A copy of the same kind, whose body holds the same and encodes
    /// alike.
    fn clone(&self) -> (r: HeaderObj)
        ensures
            r.spec_kind() == self.spec_kind(),
            r.spec_body().spec_mailbox_count() == self.spec_body().spec_mailbox_count(),
            same_header(r, *self),
            encodes_alike(r, *self),
    {
        proof {
            use_type_invariant(self);
        }
        let body = self.body.clone();
        let r = HeaderObj { kind: self.kind, body };
        proof {
            assert forall|mt: MailType| #[trigger]
                r.pieces(mt) == self.pieces(mt) && r.failure(mt) == self.failure(mt) by {
                assert(body.pieces(mt) == self.body.pieces(mt));
            }
            assert(encodes_alike(r, *self));
        }
        r
    }
}

impl HeaderObj {
    #[verifier::type_invariant]
    spec fn inv(&self) -> bool {
        self.body.spec_kind() == self.kind.component
    }

    pub closed spec fn spec_kind(&self) -> HeaderKind {
        self.kind
    }

    pub closed spec fn spec_body(&self) -> Component {
        self.body
    }

    /// The name of the header field.
    pub open spec fn spec_name(&self) -> Seq<char> {
        self.spec_kind().name@
    }

    /// What comes with the header kind.
    pub open spec fn spec_meta(&self) -> HeaderMeta {
        self.spec_kind().meta
    }

    /// A header of kind `kind` with `body`, which must be of the
    /// component kind that `kind` asks for.
    pub fn new(kind: HeaderKind, body: Component) -> (r: Result<HeaderObj, HeaderTypeError>)
        ensures
            match r {
                Ok(h) => body.spec_kind() == kind.component && h.spec_kind() == kind
                    && h.spec_body() == body,
                Err(e) => body.spec_kind() != kind.component && e.header_name == kind.name,
            },
    {
        if body.kind() == kind.component {
            Ok(HeaderObj { kind, body })
        } else {
            Err(HeaderTypeError::new(kind.name))
        }
    }

    pub fn kind(&self) -> (r: &HeaderKind)
        ensures
            *r == self.spec_kind(),
            self.spec_body().spec_kind() == r.component,
    {
        proof {
            use_type_invariant(self);
        }
        &self.kind
    }

    pub fn name(&self) -> (r: HeaderName)
        ensures
            r == self.spec_kind().name,
    {
        self.kind.name
    }

    pub fn validator(&self) -> (r: Option<HeaderMapValidator>)
        ensures
            r == self.spec_meta().contextual_validator,
    {
        self.kind.meta.contextual_validator
    }

    pub fn body(&self) -> (r: &Component)
        ensures
            *r == self.spec_body(),
            r.spec_kind() == self.spec_kind().component,
    {
        proof {
            use_type_invariant(self);
        }
        &self.body
    }

    /// The body as it shows itself for debugging.
    pub fn debug_string(&self) -> (r: String)
        ensures
            r@ == self.spec_body().spec_debug(),
    {
        self.body.debug_string()
    }

    /// Whether the header is of kind `kind`.
    pub fn is(&self, kind: &HeaderKind) -> (r: bool)
        ensures
            r == self.spec_kind().spec_same_as(kind),
    {
        self.kind.same_as(kind)
    }

    /// The body, if the header is of kind `kind`.
    pub fn downcast_ref(&self, kind: &HeaderKind) -> (r: Option<&Component>)
        ensures
            match r {
                Some(body) => self.spec_kind().spec_same_as(kind) && *body == self.spec_body()
                    && body.spec_kind() == kind.component,
                None => !self.spec_kind().spec_same_as(kind),
            },
    {
        proof {
            use_type_invariant(self);
        }
        if self.is(kind) {
            Some(&self.body)
        } else {
            None
        }
    }

    /// The body, if the header is of kind `kind`; the header itself if
    /// not.
    pub fn downcast(self, kind: &HeaderKind) -> (r: Result<Component, HeaderObj>)
        ensures
            match r {
                Ok(body) => self.spec_kind().spec_same_as(kind) && body == self.spec_body(),
                Err(h) => !self.spec_kind().spec_same_as(kind) && h == self,
            },
    {
        if self.is(kind) {
            Ok(self.body)
        } else {
            Err(self)
        }
    }
}

/// The name under which errors speak of header names.
pub open spec fn header_name_name() -> Seq<char> {
    "header name"@
}

impl HeaderObj {
    /// The header as a line of its own: the name, a colon, a blank at
    /// which the line may be folded, the body, and the end of the line.
    pub open spec fn line(&self, mt: MailType) -> Seq<Piece> {
        text_pieces(self.spec_name()) + seq![Some(':'), mark(), Some(' ')] + self.spec_body().pieces(
            mt,
        ) + seq![Some('\r'), Some('\n')]
    }

    /// Why the header cannot be written as a line, if it cannot: for its
    /// name, which must be US-ASCII, or for its body.
    pub open spec fn line_failure(&self, mt: MailType) -> Option<EncodingFailure> {
        if !is_ascii_chars(self.spec_name()) {
            Some(EncodingFailure::NotEncodable(header_name_name()))
        } else {
            self.spec_body().failure(mt)
        }
    }

    /// Writes the header as a line of its own, and ends the header. If the
    /// header cannot be written, all that was written since the last
    /// header ended is taken back.
    pub fn encode_header(&self, handle: &mut EncodingWriter) -> (r: Result<(), EncodingError>)
        ensures
            final(handle).spec_mail_type() == old(handle).spec_mail_type(),
            match r {
                Ok(_) => self.line_failure(old(handle).spec_mail_type()).is_none() && final(handle)@
                    == old(handle)@ + self.line(old(handle).spec_mail_type()) && final(handle).committed() == final(handle)@,
                Err(e) => self.line_failure(old(handle).spec_mail_type()) == Some(e@) && final(handle)@ == old(handle).committed() && final(handle).committed() == old(handle).committed(),
            },
    {
        let ghost mt = handle.spec_mail_type();
        let name = self.kind.name.as_str();
        if !name.is_ascii() {
            handle.undo_header();
            return Err(EncodingError::NotEncodable { encoding: "header name" });
        }
        handle.write_str(name);
        handle.write_char(':');
        handle.write_fws();
        match self.body.encode(handle) {
            Ok(_) => {},
            Err(e) => {
                handle.undo_header();
                return Err(e);
            },
        }
        proof {
            reveal_strlit("\r\n");
            assert("\r\n"@ =~= seq!['\r', '\n']);
            assert(text_pieces("\r\n"@) =~= seq![Some('\r'), Some('\n')]) by {
                crate::encoder::lemma_text_pieces_push(seq!['\r'], '\n');
                crate::encoder::lemma_text_pieces_push(Seq::<char>::empty(), '\r');
                assert(Seq::<char>::empty().push('\r') =~= seq!['\r']);
                assert(seq!['\r'].push('\n') =~= seq!['\r', '\n']);
                assert(text_pieces(Seq::<char>::empty()) =~= Seq::<Piece>::empty());
            }
        }
        handle.write_str("\r\n");
        handle.finish_header();
        assert(handle@ =~= old(handle)@ + self.line(mt));
        Ok(())
    }
}

impl EncodableInHeader for HeaderObj {
    /// What the body writes.
    open spec fn pieces(&self, mt: MailType) -> Seq<Piece> {
        self.spec_body().pieces(mt)
    }

    open spec fn failure(&self, mt: MailType) -> Option<EncodingFailure> {
        self.spec_body().failure(mt)
    }

    fn encode(&self, handle: &mut EncodingWriter) -> (r: Result<(), EncodingError>) {
        self.body.encode(handle)
    }
}

} // verus!
