//! Immutable text as the components hold it: owned, or a window into a
//! shared buffer, and either of them tagged as known US-ASCII or as UTF-8.

use std::rc::Rc;
use vstd::prelude::*;
use vstd::string::StrSliceExecFns;
use vstd::utf8::is_ascii_chars;
use vstd::std_specs::cmp::PartialEqSpecImpl;
use vstd::std_specs::convert::FromSpecImpl;
use crate::text::str_eq;

verus! {

/// `Rc::clone`: another pointer to the same allocation, so the text behind
/// the result is the text behind `buf`.
#[verifier::external_body]
fn share(buf: &Rc<String>) -> (r: Rc<String>)
    ensures
        r == *buf,
{
    Rc::clone(buf)
}

/// A window into a reference-counted text. Cutting a window out of a
/// window copies nothing: both keep the one buffer alive.
///
/// The window is kept in characters, so that it can never split one.
#[derive(Debug)]
pub struct SharedText {
    buf: Rc<String>,
    start: usize,
    end: usize,
}

impl View for SharedText {
    type V = Seq<char>;

    closed spec fn view(&self) -> Seq<char> {
        (*self.buf)@.subrange(self.start as int, self.end as int)
    }
}

impl SharedText {
    #[verifier::type_invariant]
    spec fn inv(&self) -> bool {
        self.start <= self.end <= (*self.buf)@.len()
    }

    /// Puts `text` into a shared buffer; the window is all of it.
    pub fn new(text: String) -> (r: SharedText)
        ensures
            r@ == text@,
    {
        let n = text.as_str().unicode_len();
        assert(text@.subrange(0, n as int) =~= text@);
        SharedText { buf: Rc::new(text), start: 0, end: n }
    }

    /// The number of characters in the window.
    pub fn len(&self) -> (r: usize)
        ensures
            r == self@.len(),
    {
        proof {
            use_type_invariant(self);
        }
        self.end - self.start
    }

    /// The text in the window.
    pub fn as_str(&self) -> (r: &str)
        ensures
            r@ == self@,
    {
        proof {
            use_type_invariant(self);
        }
        (*self.buf).as_str().substring_char(self.start, self.end)
    }

    /// Whether two windows look into one and the same buffer.
    pub closed spec fn same_buffer(&self, other: &SharedText) -> bool {
        self.buf == other.buf
    }

    /// To look into the same buffer is an equivalence.
    pub proof fn lemma_same_buffer(a: SharedText, b: SharedText, c: SharedText)
        ensures
            a.same_buffer(&a),
            a.same_buffer(&b) ==> b.same_buffer(&a),
            a.same_buffer(&b) && b.same_buffer(&c) ==> a.same_buffer(&c),
    {
    }

    /// The window from character `from` up to character `to` of this one,
    /// on the same buffer.
    pub fn slice(&self, from: usize, to: usize) -> (r: SharedText)
        requires
            from <= to <= self@.len(),
        ensures
            r@ == self@.subrange(from as int, to as int),
            r.same_buffer(self),
    {
        proof {
            use_type_invariant(self);
            assert((*self.buf)@.subrange(self.start + from, self.start + to) =~= self@.subrange(
                from as int,
                to as int,
            ));
        }
        SharedText { buf: share(&self.buf), start: self.start + from, end: self.start + to }
    }
}

impl Clone for SharedText {
    /// Another window of the same place in the same buffer.
    fn clone(&self) -> (r: SharedText)
        ensures
            r@ == self@,
            r.same_buffer(self),
    {
        proof {
            use_type_invariant(self);
        }
        SharedText { buf: share(&self.buf), start: self.start, end: self.end }
    }
}

impl PartialEq for SharedText {
    fn eq(&self, other: &SharedText) -> (r: bool) {
        str_eq(self.as_str(), other.as_str())
    }
}

impl PartialEqSpecImpl for SharedText {
    open spec fn obeys_eq_spec() -> bool {
        true
    }

    open spec fn eq_spec(&self, other: &SharedText) -> bool {
        self@ == other@
    }
}

/// The two ways in which a text is held.
#[derive(Debug)]
pub enum InnerUtf8 {
    /// A buffer of its own.
    Owned(String),
    /// A window into a buffer that others may hold too.
    Shared(SharedText),
}

impl View for InnerUtf8 {
    type V = Seq<char>;

    open spec fn view(&self) -> Seq<char> {
        match *self {
            InnerUtf8::Owned(s) => s@,
            InnerUtf8::Shared(s) => s@,
        }
    }
}

impl InnerUtf8 {
    pub fn as_str(&self) -> (r: &str)
        ensures
            r@ == self@,
    {
        match self {
            InnerUtf8::Owned(s) => s.as_str(),
            InnerUtf8::Shared(s) => s.as_str(),
        }
    }
}

impl Clone for InnerUtf8 {
    fn clone(&self) -> (r: InnerUtf8)
        ensures
            r@ == self@,
    {
        match self {
            InnerUtf8::Owned(s) => InnerUtf8::Owned(s.clone()),
            InnerUtf8::Shared(s) => InnerUtf8::Shared(s.clone()),
        }
    }
}

impl PartialEq for InnerUtf8 {
    fn eq(&self, other: &InnerUtf8) -> (r: bool) {
        str_eq(self.as_str(), other.as_str())
    }
}

impl PartialEqSpecImpl for InnerUtf8 {
    open spec fn obeys_eq_spec() -> bool {
        true
    }

    open spec fn eq_spec(&self, other: &InnerUtf8) -> bool {
        self@ == other@
    }
}

/// Whether two texts are held as windows into one and the same buffer.
pub open spec fn share_a_buffer(a: InnerUtf8, b: InnerUtf8) -> bool {
    match (a, b) {
        (InnerUtf8::Shared(x), InnerUtf8::Shared(y)) => x.same_buffer(&y),
        _ => false,
    }
}

/// An immutable text handed to a component. Two inputs are equal if they
/// hold the same text, however they hold it.
#[derive(Debug)]
pub struct Input(pub InnerUtf8);

impl PartialEq for Input {
    fn eq(&self, other: &Input) -> (r: bool) {
        str_eq(self.as_str(), other.as_str())
    }
}

impl PartialEqSpecImpl for Input {
    open spec fn obeys_eq_spec() -> bool {
        true
    }

    open spec fn eq_spec(&self, other: &Input) -> bool {
        self@ == other@
    }
}

impl View for Input {
    type V = Seq<char>;

    open spec fn view(&self) -> Seq<char> {
        self.0@
    }
}

impl Input {
    /// An owned input with the characters of `text`.
    pub fn from_str(text: &str) -> (r: Input)
        ensures
            r@ == text@,
            r.0 is Owned,
    {
        Input(InnerUtf8::Owned(text.to_owned()))
    }

    /// An owned input that takes `text` over.
    pub fn from_string(text: String) -> (r: Input)
        ensures
            r@ == text@,
            r.0 is Owned,
    {
        Input(InnerUtf8::Owned(text))
    }

    pub fn as_str(&self) -> (r: &str)
        ensures
            r@ == self@,
    {
        self.0.as_str()
    }

    /// The same text in shared form, so that parts of it can be cut out
    /// without copying. A shared input is handed back as it is.
    pub fn into_shared(self) -> (r: Input)
        ensures
            r@ == self@,
            r.0 is Shared,
            self.0 is Shared ==> r == self,
    {
        match self.0 {
            InnerUtf8::Owned(s) => Input(InnerUtf8::Shared(SharedText::new(s))),
            InnerUtf8::Shared(s) => Input(InnerUtf8::Shared(s)),
        }
    }

    /// The text as a `String` of its own.
    pub fn into_string(self) -> (r: String)
        ensures
            r@ == self@,
    {
        match self.0 {
            InnerUtf8::Owned(s) => s,
            InnerUtf8::Shared(s) => s.as_str().to_owned(),
        }
    }
}

impl Clone for Input {
    fn clone(&self) -> (r: Input)
        ensures
            r@ == self@,
    {
        Input(self.0.clone())
    }
}

/// A text of which it is known that every character is US-ASCII.
#[derive(Debug)]
pub struct InnerAscii {
    text: InnerUtf8,
}

impl View for InnerAscii {
    type V = Seq<char>;

    closed spec fn view(&self) -> Seq<char> {
        self.text@
    }
}

impl InnerAscii {
    #[verifier::type_invariant]
    spec fn inv(&self) -> bool {
        is_ascii_chars(self.text@)
    }

    /// The tagged text that holds `text`, as it is held.
    pub closed spec fn holding(text: InnerUtf8) -> InnerAscii {
        InnerAscii { text }
    }

    /// The text as it is held: owned, or as a window into a buffer.
    pub closed spec fn held(&self) -> InnerUtf8 {
        self.text
    }

    /// Takes `text` if all of it is US-ASCII, and hands it back if not.
    pub fn from_ascii(text: InnerUtf8) -> (r: Result<InnerAscii, InnerUtf8>)
        ensures
            match r {
                Ok(a) => is_ascii_chars(text@) && a == InnerAscii::holding(text) && a@ == text@
                    && a.held() == text,
                Err(t) => !is_ascii_chars(text@) && t == text,
            },
    {
        if text.as_str().is_ascii() {
            Ok(InnerAscii { text })
        } else {
            Err(text)
        }
    }

    pub fn as_str(&self) -> (r: &str)
        ensures
            r@ == self@,
            is_ascii_chars(r@),
    {
        proof {
            use_type_invariant(self);
        }
        self.text.as_str()
    }

    /// Gives the text up.
    pub fn into_inner(self) -> (r: InnerUtf8)
        ensures
            r@ == self@,
            is_ascii_chars(r@),
    {
        proof {
            use_type_invariant(&self);
        }
        self.text
    }
}

impl Clone for InnerAscii {
    fn clone(&self) -> (r: InnerAscii)
        ensures
            r@ == self@,
    {
        proof {
            use_type_invariant(self);
        }
        InnerAscii { text: self.text.clone() }
    }
}

impl PartialEq for InnerAscii {
    fn eq(&self, other: &InnerAscii) -> (r: bool) {
        str_eq(self.as_str(), other.as_str())
    }
}

impl PartialEqSpecImpl for InnerAscii {
    open spec fn obeys_eq_spec() -> bool {
        true
    }

    open spec fn eq_spec(&self, other: &InnerAscii) -> bool {
        self@ == other@
    }
}

/// A text tagged with what is known of its characters. Two items are equal
/// if they carry the same tag and hold the same text.
#[derive(Debug)]
pub enum SimpleItem {
    /// The text is US-ASCII.
    Ascii(InnerAscii),
    /// The text is UTF-8; whether it is also US-ASCII was not looked at, or
    /// it is not.
    Utf8(InnerUtf8),
}

impl View for SimpleItem {
    type V = Seq<char>;

    open spec fn view(&self) -> Seq<char> {
        match *self {
            SimpleItem::Ascii(a) => a@,
            SimpleItem::Utf8(u) => u@,
        }
    }
}

impl SimpleItem {
    /// The text as it is held: owned, or as a window into a buffer.
    pub open spec fn held(&self) -> InnerUtf8 {
        match *self {
            SimpleItem::Ascii(a) => a.held(),
            SimpleItem::Utf8(u) => u,
        }
    }

    pub open spec fn spec_is_ascii(&self) -> bool {
        *self is Ascii
    }

    /// Whether the item carries the US-ASCII tag.
    #[verifier::when_used_as_spec(spec_is_ascii)]
    pub fn is_ascii(&self) -> (r: bool)
        ensures
            r == (*self is Ascii),
    {
        match *self {
            SimpleItem::Ascii(..) => true,
            SimpleItem::Utf8(..) => false,
        }
    }

    /// Tags `s` as UTF-8 without looking at it.
    pub fn from_utf8(s: String) -> (r: Self)
        ensures
            r == SimpleItem::Utf8(InnerUtf8::Owned(s)),
    {
        SimpleItem::Utf8(InnerUtf8::Owned(s))
    }

    /// Tags `input` as UTF-8 without looking at it.
    pub fn from_utf8_input(input: Input) -> (r: Self)
        ensures
            r == SimpleItem::Utf8(input.0),
    {
        SimpleItem::Utf8(input.0)
    }

    /// The text. Under the US-ASCII tag it holds nothing but US-ASCII.
    pub fn as_str(&self) -> (r: &str)
        ensures
            r@ == self@,
            *self is Ascii ==> is_ascii_chars(r@),
    {
        match self {
            SimpleItem::Ascii(a) => a.as_str(),
            SimpleItem::Utf8(u) => u.as_str(),
        }
    }

    /// The text as a `String` of its own.
    pub fn into_string(self) -> (r: String)
        ensures
            r@ == self@,
    {
        match self {
            SimpleItem::Ascii(a) => Input(a.into_inner()).into_string(),
            SimpleItem::Utf8(u) => Input(u).into_string(),
        }
    }
}

impl From<String> for SimpleItem {
    /// Tags `string` by what it holds: US-ASCII if every character is,
    /// UTF-8 otherwise.
    fn from(string: String) -> (r: SimpleItem)
        ensures
            r@ == string@,
            (r is Ascii) == is_ascii_chars(string@),
    {
        match InnerAscii::from_ascii(InnerUtf8::Owned(string)) {
            Ok(ascii) => SimpleItem::Ascii(ascii),
            Err(text) => SimpleItem::Utf8(text),
        }
    }
}

impl FromSpecImpl<String> for SimpleItem {
    open spec fn obeys_from_spec() -> bool {
        true
    }

    open spec fn from_spec(string: String) -> SimpleItem {
        if is_ascii_chars(string@) {
            SimpleItem::Ascii(InnerAscii::holding(InnerUtf8::Owned(string)))
        } else {
            SimpleItem::Utf8(InnerUtf8::Owned(string))
        }
    }
}

impl From<Input> for SimpleItem {
    /// Tags `input` by what it holds, and keeps it as it is held.
    fn from(input: Input) -> (r: SimpleItem)
        ensures
            r@ == input@,
            (r is Ascii) == is_ascii_chars(input@),
            r.held() == input.0,
    {
        match InnerAscii::from_ascii(input.0) {
            Ok(ascii) => SimpleItem::Ascii(ascii),
            Err(text) => SimpleItem::Utf8(text),
        }
    }
}

impl FromSpecImpl<Input> for SimpleItem {
    open spec fn obeys_from_spec() -> bool {
        true
    }

    open spec fn from_spec(input: Input) -> SimpleItem {
        if is_ascii_chars(input@) {
            SimpleItem::Ascii(InnerAscii::holding(input.0))
        } else {
            SimpleItem::Utf8(input.0)
        }
    }
}

impl PartialEq for SimpleItem {
    fn eq(&self, other: &SimpleItem) -> (r: bool) {
        self.is_ascii() == other.is_ascii() && str_eq(self.as_str(), other.as_str())
    }
}

impl PartialEqSpecImpl for SimpleItem {
    open spec fn obeys_eq_spec() -> bool {
        true
    }

    open spec fn eq_spec(&self, other: &SimpleItem) -> bool {
        (*self is Ascii) == (*other is Ascii) && self@ == other@
    }
}

impl Clone for SimpleItem {
    fn clone(&self) -> (r: SimpleItem)
        ensures
            r@ == self@,
            (r is Ascii) == (*self is Ascii),
    {
        match self {
            SimpleItem::Ascii(a) => SimpleItem::Ascii(a.clone()),
            SimpleItem::Utf8(u) => SimpleItem::Utf8(u.clone()),
        }
    }
}

} // verus!
