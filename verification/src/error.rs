//! The errors of this crate.
//!
//! Three families are kept apart: grammar errors raised while a component
//! is created, errors raised while a component is written under a mail type
//! that cannot represent it, and errors of the header map.

use vstd::prelude::*;
use vstd::string::StringExecFns;
use crate::mail_type::MailType;
use crate::name::HeaderName;

verus! {

/// A text failed the grammar of the component it was meant for.
///
/// Every variant that speaks of a text carries that text.
#[derive(Debug, Clone, PartialEq, Eq)]
pub enum ComponentError {
    /// The text holds no `@`.
    InvalidEmail(String),
    /// The text is neither a domain literal nor dot-atom-text.
    InvalidDomainName(String),
    /// The local part cannot be written under the mail type in use.
    InvalidLocalPart(String),
    /// The text is not `id-left "@" id-right`.
    InvalidMessageId(String),
    /// The text holds a character that is not visible under the mail type.
    InvalidRawUnstructured(String, MailType),
    /// The text holds a character that is neither visible nor white space.
    NeedAtLastOneVCHAR(String),
    /// A list that must hold at least one mailbox was given none.
    MailboxListSize0,
    /// A list that must hold at least one message id was given none.
    MessageIDListSize0,
    /// A phrase must hold at least one word.
    PhraseSize0,
}

/// Where a `ComponentCreationError` comes from: the place that raised it,
/// or an earlier error that it wraps.
#[derive(Debug, Clone, PartialEq, Eq)]
pub enum ChainTail {
    Backtrace,
    Error(ComponentError),
}

impl ChainTail {
    pub open spec fn spec_as_fail(&self) -> Option<ComponentError> {
        match *self {
            ChainTail::Backtrace => None,
            ChainTail::Error(e) => Some(e),
        }
    }

    /// The wrapped error, if there is one.
    pub fn as_fail(&self) -> (r: Option<&ComponentError>)
        ensures
            match r {
                Some(e) => self.spec_as_fail() == Some(*e),
                None => self.spec_as_fail().is_none(),
            },
    {
        match self {
            ChainTail::Backtrace => None,
            ChainTail::Error(ref error) => Some(error),
        }
    }
}

/// Creating a component from the given data failed.
#[derive(Debug, Clone, PartialEq, Eq)]
pub struct ComponentCreationError {
    component: &'static str,
    backtrace: ChainTail,
    str_context: Option<String>,
}

impl ComponentCreationError {
    /// The name of the component that could not be created.
    pub closed spec fn spec_component(&self) -> Seq<char> {
        self.component@
    }

    /// The error that this one wraps, if any.
    pub closed spec fn spec_cause(&self) -> Option<ComponentError> {
        self.backtrace.spec_as_fail()
    }

    /// The text that could not be turned into the component, if recorded.
    pub closed spec fn spec_str_context(&self) -> Option<Seq<char>> {
        match self.str_context {
            Some(s) => Some(s@),
            None => None,
        }
    }

    /// An error for `component` that wraps `parent`.
    pub fn from_parent(parent: ComponentError, component: &'static str) -> (r: Self)
        ensures
            r.spec_component() == component@,
            r.spec_cause() == Some(parent),
            r.spec_str_context().is_none(),
    {
        ComponentCreationError {
            component,
            backtrace: ChainTail::Error(parent),
            str_context: None,
        }
    }

    /// An error for `component`, with no cause and no context.
    pub fn new(component: &'static str) -> (r: Self)
        ensures
            r.spec_component() == component@,
            r.spec_cause().is_none(),
            r.spec_str_context().is_none(),
    {
        ComponentCreationError {
            component,
            backtrace: ChainTail::Backtrace,
            str_context: None,
        }
    }

    /// An error for `component` that records the offending text.
    pub fn new_with_str(component: &'static str, str_context: &str) -> (r: Self)
        ensures
            r.spec_component() == component@,
            r.spec_cause().is_none(),
            r.spec_str_context() == Some(str_context@),
    {
        ComponentCreationError {
            component,
            backtrace: ChainTail::Backtrace,
            str_context: Some(str_context.to_owned()),
        }
    }

    pub fn component(&self) -> (r: &'static str)
        ensures
            r@ == self.spec_component(),
    {
        self.component
    }

    pub fn cause(&self) -> (r: Option<&ComponentError>)
        ensures
            match r {
                Some(e) => self.spec_cause() == Some(*e),
                None => self.spec_cause().is_none(),
            },
    {
        self.backtrace.as_fail()
    }

    pub fn str_context(&self) -> (r: Option<&str>)
        ensures
            match r {
                Some(s) => self.spec_str_context() == Some(s@),
                None => self.spec_str_context().is_none(),
            },
    {
        match &self.str_context {
            Some(s) => Some(s.as_str()),
            None => None,
        }
    }

    pub fn set_str_context(&mut self, ctx: &str)
        ensures
            final(self).spec_str_context() == Some(ctx@),
            final(self).spec_component() == old(self).spec_component(),
            final(self).spec_cause() == old(self).spec_cause(),
    {
        self.str_context = Some(ctx.to_owned());
    }

    pub fn with_str_context(self, ctx: &str) -> (r: Self)
        ensures
            r.spec_str_context() == Some(ctx@),
            r.spec_component() == self.spec_component(),
            r.spec_cause() == self.spec_cause(),
    {
        let mut this = self;
        this.set_str_context(ctx);
        this
    }

    /// The message of this error: which component could not be created.
    pub fn to_string(&self) -> (r: String)
        ensures
            r@ == "creating component "@ + self.spec_component() + " failed"@,
    {
        let head = String::from_str("creating component ");
        let mid = head.concat(self.component);
        mid.concat(" failed")
    }
}

/// A component could not be written under the mail type of the writer.
#[derive(Debug, Clone, PartialEq, Eq)]
pub enum EncodingError {
    /// The component's text has no form under the mail type in use.
    Component(ComponentError),
    /// A transcoding that was needed failed; `encoding` names it.
    NotEncodable { encoding: &'static str },
    /// Raw UTF-8 was handed to a writer whose mail type is not
    /// internationalized.
    Utf8NotAllowed,
}

/// What an `EncodingError` says, with texts as sequences of characters.
pub enum EncodingFailure {
    /// The local part with these characters has no form under the mail
    /// type.
    InvalidLocalPart(Seq<char>),
    /// The text with these characters holds one that is not visible under
    /// the mail type.
    InvalidRawUnstructured(Seq<char>, MailType),
    /// Another component error, which encoding does not raise itself.
    OtherComponent,
    /// The transcoding of this name failed.
    NotEncodable(Seq<char>),
    /// Raw UTF-8 met a mail type that is not internationalized.
    Utf8NotAllowed,
}

impl View for EncodingError {
    type V = EncodingFailure;

    open spec fn view(&self) -> EncodingFailure {
        match *self {
            EncodingError::Component(ComponentError::InvalidLocalPart(t)) =>
                EncodingFailure::InvalidLocalPart(t@),
            EncodingError::Component(ComponentError::InvalidRawUnstructured(t, mt)) =>
                EncodingFailure::InvalidRawUnstructured(t@, mt),
            EncodingError::Component(_) => EncodingFailure::OtherComponent,
            EncodingError::NotEncodable { encoding } => EncodingFailure::NotEncodable(encoding@),
            EncodingError::Utf8NotAllowed => EncodingFailure::Utf8NotAllowed,
        }
    }
}

/// The body stored under a header name is not of the header kind asked for.
#[derive(Debug, Clone, Copy, PartialEq, Eq)]
pub struct HeaderTypeError {
    pub header_name: HeaderName,
}

impl HeaderTypeError {
    pub fn new(name: HeaderName) -> (r: Self)
        ensures
            r.header_name == name,
    {
        HeaderTypeError { header_name: name }
    }

    pub fn to_string(&self) -> (r: String)
        ensures
            r@ == "cast error caused by mixing different header implementations for "@
                + self.header_name@,
    {
        let head = String::from_str(
            "cast error caused by mixing different header implementations for ",
        );
        head.concat(self.header_name.as_str())
    }
}

/// The build-in reasons for which a header map fails validation.
#[derive(Copy, Clone, Debug, PartialEq, Eq, Hash)]
pub enum BuildInValidationError {
    /// A header field that may occur once occurs more often.
    MoreThenOne { header_name: &'static str },
    /// A `From` lists more than one mailbox, and there is no `Sender`.
    MultiMailboxFromWithoutSender,
    /// A block of `Resent-` headers holds no `Resent-Date`.
    ResentDateFieldMissing,
    /// A `Resent-From` lists more than one mailbox, and its block holds no
    /// `Resent-Sender`.
    MultiMailboxResentFromWithoutResentSender,
    /// There is no `From`. No rule of this crate fails with this; it is
    /// here for those who put whole mails together.
    NoFrom,
    /// There is no `Content-Type`. For those who put whole mails together.
    NoContentType,
    /// The `Content-Type` of a multipart body names no boundary. For those
    /// who put whole mails together.
    NoMultipartBoundary,
    /// A multipart body has no part. For those who put whole mails
    /// together.
    EmptyMultipartBody,
    /// There is no `To`. RFC 5322 asks for none, but it is sane to refuse
    /// mails without it. For those who put whole mails together.
    NoTo,
}

impl BuildInValidationError {
    pub open spec fn spec_message(&self) -> Seq<char> {
        match *self {
            BuildInValidationError::MoreThenOne { header_name } => header_name@
                + " header field can appear at most one time in a header map"@,
            BuildInValidationError::MultiMailboxFromWithoutSender =>
                "From field contained multiple addresses but no Sender field was set"@,
            BuildInValidationError::ResentDateFieldMissing =>
                "each resent block must have a resent-date field"@,
            BuildInValidationError::MultiMailboxResentFromWithoutResentSender =>
                "Resent-From field in resent block without a Resent-Sender field"@,
            BuildInValidationError::NoFrom => "From field missing"@,
            BuildInValidationError::NoContentType => "Content-Type field missing"@,
            BuildInValidationError::NoMultipartBoundary =>
                "Content-Type header misses boundary parameter in multipart body"@,
            BuildInValidationError::EmptyMultipartBody =>
                "multipart bodies need to contain at last one part (/sub-body)"@,
            BuildInValidationError::NoTo => "missing To header field"@,
        }
    }

    pub fn to_string(&self) -> (r: String)
        ensures
            r@ == self.spec_message(),
    {
        match *self {
            BuildInValidationError::MoreThenOne { header_name } => {
                let head = String::from_str(header_name);
                head.concat(" header field can appear at most one time in a header map")
            },
            BuildInValidationError::MultiMailboxFromWithoutSender => String::from_str(
                "From field contained multiple addresses but no Sender field was set",
            ),
            BuildInValidationError::ResentDateFieldMissing => String::from_str(
                "each resent block must have a resent-date field",
            ),
            BuildInValidationError::MultiMailboxResentFromWithoutResentSender => String::from_str(
                "Resent-From field in resent block without a Resent-Sender field",
            ),
            BuildInValidationError::NoFrom => String::from_str("From field missing"),
            BuildInValidationError::NoContentType => String::from_str(
                "Content-Type field missing",
            ),
            BuildInValidationError::NoMultipartBoundary => String::from_str(
                "Content-Type header misses boundary parameter in multipart body",
            ),
            BuildInValidationError::EmptyMultipartBody => String::from_str(
                "multipart bodies need to contain at last one part (/sub-body)",
            ),
            BuildInValidationError::NoTo => String::from_str("missing To header field"),
        }
    }
}

/// A contextual validator of a header map failed.
#[derive(Debug, Clone, PartialEq, Eq)]
pub enum HeaderValidationError {
    /// One of the rules that this crate ships.
    BuildIn(BuildInValidationError),
    /// A rule of the caller; the text says what went wrong.
    Custom(String),
}

impl HeaderValidationError {
    pub fn from(err: BuildInValidationError) -> (r: Self)
        ensures
            r == HeaderValidationError::BuildIn(err),
    {
        HeaderValidationError::BuildIn(err)
    }

    pub fn to_string(&self) -> (r: String)
        ensures
            match *self {
                HeaderValidationError::BuildIn(e) => r@ == e.spec_message(),
                HeaderValidationError::Custom(s) => r@ == s@,
            },
    {
        match self {
            HeaderValidationError::BuildIn(e) => e.to_string(),
            HeaderValidationError::Custom(s) => s.clone(),
        }
    }
}

} // verus!
