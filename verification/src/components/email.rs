//! Email addresses of the form `local-part@domain`.

use vstd::prelude::*;
use vstd::utf8::is_ascii_chars;
use crate::bind::idna_ascii_form;
use crate::data::{share_a_buffer, InnerAscii, InnerUtf8, Input, SharedText, SimpleItem};
use crate::encoder::{
    chars_of_pieces, encodes_alike, lemma_chars_of_pieces_add, lemma_chars_of_text_pieces, mark,
    text_pieces, EncodableInHeader, EncodingWriter, Piece,
};
use crate::error::{ComponentError, EncodingError, EncodingFailure};
use crate::grammar::{is_dot_atom_text, is_dtext, is_ws, spec_is_dot_atom_text, spec_is_dtext, spec_is_ws};
use crate::mail_type::MailType;
use crate::quoting::{lemma_quoted_if_needed_ascii, quote_if_needed, quoted_if_needed};
use crate::text::chars_of;

verus! {

/// Whether `s` stands between `[` and `]`.
pub open spec fn bracketed(s: Seq<char>) -> bool {
    s.len() >= 2 && s[0] == '[' && s[s.len() - 1] == ']'
}

/// A domain is a domain literal, `[` and `]` around dtext and white space,
/// or else dot-atom-text. Non-ASCII characters may stand in both.
pub open spec fn valid_domain(s: Seq<char>) -> bool {
    if bracketed(s) {
        forall|i: int|
            0 < i < s.len() - 1 ==> spec_is_dtext(#[trigger] s[i], MailType::Internationalized)
                || spec_is_ws(s[i])
    } else {
        spec_is_dot_atom_text(s, MailType::Internationalized)
    }
}

/// The mail type that a text asks for: `Ascii` if it is US-ASCII,
/// `Internationalized` if not.
pub open spec fn mail_type_of(s: Seq<char>) -> MailType {
    if is_ascii_chars(s) {
        MailType::Ascii
    } else {
        MailType::Internationalized
    }
}

/// The index of the first `c` in `s`, if `c` occurs in `s`.
pub open spec fn first_index_of(s: Seq<char>, c: char) -> Option<int> {
    if exists|i: int| 0 <= i < s.len() && s[i] == c && first_at(s, c, i) {
        Some(choose|i: int| 0 <= i < s.len() && s[i] == c && first_at(s, c, i))
    } else {
        None
    }
}

/// No `c` stands before `i` in `s`.
pub open spec fn first_at(s: Seq<char>, c: char, i: int) -> bool {
    forall|j: int| 0 <= j < i ==> #[trigger] s[j] != c
}

/// The part of an address before the `@`.
///
/// Any text can be a local part. Whether and how it can be written is
/// decided when it is encoded, by the mail type of the writer.
#[derive(Debug, PartialEq)]
pub struct LocalPart(Input);

impl View for LocalPart {
    type V = Seq<char>;

    closed spec fn view(&self) -> Seq<char> {
        self.0@
    }
}

impl Clone for LocalPart {
    fn clone(&self) -> (r: LocalPart)
        ensures
            r@ == self@,
    {
        LocalPart(self.0.clone())
    }
}

impl LocalPart {
    /// Takes any text.
    pub fn try_from(text: &str) -> (r: Result<LocalPart, ComponentError>)
        ensures
            r matches Ok(lp) && lp@ == text@,
    {
        Ok(LocalPart(Input::from_str(text)))
    }

    /// The text as it is held: owned, or as a window into a buffer.
    pub closed spec fn held(&self) -> InnerUtf8 {
        self.0.0
    }

    /// Takes any input, and keeps it as it is held.
    pub fn from_input(input: Input) -> (r: LocalPart)
        ensures
            r@ == input@,
            r.held() == input.0,
    {
        LocalPart(input)
    }

    pub fn as_str(&self) -> (r: &str)
        ensures
            r@ == self@,
    {
        self.0.as_str()
    }
}

impl EncodableInHeader for LocalPart {
    /// The local part as dot-atom-text or as a quoted string, between two
    /// marks; nothing at all if it has neither form.
    open spec fn pieces(&self, mt: MailType) -> Seq<Piece> {
        match quoted_if_needed(self@, mt) {
            Some(t) => seq![mark()] + text_pieces(t) + seq![mark()],
            None => Seq::empty(),
        }
    }

    open spec fn failure(&self, mt: MailType) -> Option<EncodingFailure> {
        match quoted_if_needed(self@, mt) {
            Some(_) => None,
            None => Some(EncodingFailure::InvalidLocalPart(self@)),
        }
    }

    fn encode(&self, handle: &mut EncodingWriter) -> (r: Result<(), EncodingError>) {
        let input = self.0.as_str();
        let mail_type = handle.mail_type();
        match quote_if_needed(input, mail_type) {
            Some(res) => {
                proof {
                    if !mail_type.is_internationalized() {
                        lemma_quoted_if_needed_ascii(self@, mail_type);
                    }
                    assert(old(handle)@.push(mark()) + text_pieces(res@) =~= old(handle)@ + (
                    seq![mark()] + text_pieces(res@)));
                }
                handle.mark_fws_pos();
                handle.write_str_unchecked(res.as_str());
                handle.mark_fws_pos();
                assert(final(handle)@ =~= old(handle)@ + self.pieces(mail_type));
                Ok(())
            },
            None => {
                assert(old(handle)@ + Seq::<Piece>::empty() =~= old(handle)@);
                Err(EncodingError::Component(ComponentError::InvalidLocalPart(input.to_owned())))
            },
        }
    }
}

/// A local part with a character that is not US-ASCII cannot be written
/// into a mail that is not internationalized, quoted or not: encoding it
/// fails and writes nothing.
pub proof fn law_non_ascii_local_part_fails(local_part: LocalPart, mt: MailType)
    requires
        !is_ascii_chars(local_part@),
        !mt.is_internationalized(),
    ensures
        local_part.failure(mt) == Some(EncodingFailure::InvalidLocalPart(local_part@)),
        local_part.pieces(mt) == Seq::<Piece>::empty(),
{
    let s = local_part@;
    let i = choose|i: int| 0 <= i < s.len() && !('\0' <= #[trigger] s[i] <= '\u{7f}');
    assert(!crate::quoting::quotable(s[i], mt));
    assert(!crate::grammar::dot_atom_char_ok(s, i, mt));
}

/// The name of the transcoding, as errors give it.
pub open spec fn punycode_name() -> Seq<char> {
    "punycode"@
}

/// The text that stands for a domain name in a mail that is not
/// internationalized, given what the transcoding made of the name: the
/// transcoded form if there is one and it is US-ASCII.
pub open spec fn usable_ascii_form(transcoded: Option<Seq<char>>) -> Option<Seq<char>> {
    match transcoded {
        Some(s) => if is_ascii_chars(s) {
            Some(s)
        } else {
            None
        },
        None => None,
    }
}

/// Writes a transcoded domain name. A transcoding that failed, or that
/// gave anything but US-ASCII, is an error and nothing is written.
pub fn write_transcoded(handle: &mut EncodingWriter, transcoded: Result<String, idna::Errors>) -> (r:
    Result<(), EncodingError>)
    ensures
        final(handle).spec_mail_type() == old(handle).spec_mail_type(),
        final(handle).committed() == old(handle).committed(),
        match r {
            Ok(_) => transcoded matches Ok(s) && is_ascii_chars(s@) && final(handle)@ == old(
                handle,
            )@ + text_pieces(s@),
            Err(e) => !(transcoded matches Ok(s) && is_ascii_chars(s@)) && final(handle)@ == old(
                handle,
            )@ && e@ == EncodingFailure::NotEncodable(punycode_name()),
        },
{
    match transcoded {
        Ok(ascii) => {
            if ascii.as_str().is_ascii() {
                handle.write_str(ascii.as_str());
                Ok(())
            } else {
                Err(EncodingError::NotEncodable { encoding: "punycode" })
            }
        },
        Err(_) => Err(EncodingError::NotEncodable { encoding: "punycode" }),
    }
}

/// The part of an address after the `@`.
#[derive(Debug, PartialEq)]
pub struct Domain(SimpleItem);

impl View for Domain {
    type V = Seq<char>;

    closed spec fn view(&self) -> Seq<char> {
        self.0@
    }
}

impl Clone for Domain {
    fn clone(&self) -> (r: Domain)
        ensures
            r@ == self@,
            r.tagged_ascii() == self.tagged_ascii(),
    {
        proof {
            use_type_invariant(self);
        }
        Domain(self.0.clone())
    }
}

impl Domain {
    /// The text is a valid domain, and carries the US-ASCII tag exactly if
    /// it is US-ASCII. This is made sure of once, when the domain is made.
    #[verifier::type_invariant]
    spec fn inv(&self) -> bool {
        &&& valid_domain(self.0@)
        &&& (self.0 is Ascii) == is_ascii_chars(self.0@)
    }

    /// Whether the domain is stored as known US-ASCII.
    pub closed spec fn tagged_ascii(&self) -> bool {
        self.0 is Ascii
    }

    /// The text as it is held: owned, or as a window into a buffer.
    pub closed spec fn held(&self) -> InnerUtf8 {
        self.0.held()
    }

    /// Checks `domain` against the grammar of domains, and says which mail
    /// type it asks for.
    pub fn check_domain(domain: &str) -> (r: Result<MailType, ComponentError>)
        ensures
            match r {
                Ok(mt) => valid_domain(domain@) && mt == mail_type_of(domain@),
                Err(e) => !valid_domain(domain@) && (e matches ComponentError::InvalidDomainName(
                    t,
                ) && t@ == domain@),
            },
    {
        let chars = chars_of(domain);
        let n: usize = chars.len();
        if n >= 2 && chars[0] == '[' && chars[n - 1] == ']' {
            let mut i: usize = 1;
            while i < n - 1
                invariant
                    chars@ == domain@,
                    n == chars.len(),
                    n >= 2,
                    1 <= i <= n - 1,
                    bracketed(domain@),
                    forall|j: int|
                        0 < j < i ==> spec_is_dtext(
                            #[trigger] chars@[j],
                            MailType::Internationalized,
                        ) || spec_is_ws(chars@[j]),
                decreases n - i,
            {
                let ch = chars[i];
                if !(is_dtext(ch, MailType::Internationalized) || is_ws(ch)) {
                    assert(!(spec_is_dtext(domain@[i as int], MailType::Internationalized)
                        || spec_is_ws(domain@[i as int])));
                    return Err(ComponentError::InvalidDomainName(domain.to_owned()));
                }
                i = i + 1;
            }
        } else if !is_dot_atom_text(&chars, MailType::Internationalized) {
            return Err(ComponentError::InvalidDomainName(domain.to_owned()));
        }
        Ok(
            if domain.is_ascii() {
                MailType::Ascii
            } else {
                MailType::Internationalized
            },
        )
    }

    /// Makes a domain of `text`, if it is one.
    pub fn try_from(text: &str) -> (r: Result<Domain, ComponentError>)
        ensures
            match r {
                Ok(d) => valid_domain(text@) && d@ == text@ && d.tagged_ascii() == is_ascii_chars(
                    text@,
                ),
                Err(e) => !valid_domain(text@) && (e matches ComponentError::InvalidDomainName(t)
                    && t@ == text@),
            },
    {
        Domain::from_input(Input::from_str(text))
    }

    /// Makes a domain of `input`, if it is one, and keeps the input as it
    /// is held.
    pub fn from_input(input: Input) -> (r: Result<Domain, ComponentError>)
        ensures
            match r {
                Ok(d) => valid_domain(input@) && d@ == input@ && d.tagged_ascii()
                    == is_ascii_chars(input@) && d.held() == input.0,
                Err(e) => !valid_domain(input@) && (e matches ComponentError::InvalidDomainName(t)
                    && t@ == input@),
            },
    {
        let mail_type = Domain::check_domain(input.as_str())?;
        let item = match mail_type {
            MailType::Internationalized => SimpleItem::from_utf8_input(input),
            MailType::Ascii | MailType::Mime8BitEnabled => match InnerAscii::from_ascii(input.0) {
                Ok(ascii) => SimpleItem::Ascii(ascii),
                Err(text) => SimpleItem::Utf8(text),
            },
        };
        Ok(Domain(item))
    }

    pub fn as_str(&self) -> (r: &str)
        ensures
            r@ == self@,
            valid_domain(r@),
            self.tagged_ascii() == is_ascii_chars(r@),
    {
        proof {
            use_type_invariant(self);
        }
        self.0.as_str()
    }

    /// Whether the domain is stored as known US-ASCII, which it is
    /// exactly if it is US-ASCII.
    pub fn is_ascii(&self) -> (r: bool)
        ensures
            r == self.tagged_ascii(),
            r == is_ascii_chars(self@),
    {
        proof {
            use_type_invariant(self);
        }
        self.0.is_ascii()
    }

    /// The text that stands for the domain in a mail of type `mt`: the
    /// domain itself where it is US-ASCII or the mail internationalized,
    /// else its ASCII-compatible form, if it has one.
    pub open spec fn text_under(&self, mt: MailType) -> Option<Seq<char>> {
        if self.tagged_ascii() || mt.is_internationalized() {
            Some(self@)
        } else {
            usable_ascii_form(idna_ascii_form(self@))
        }
    }
}

impl EncodableInHeader for Domain {
    /// A mark, the text that stands for the domain, a mark; the first mark
    /// alone if the domain cannot be transcoded.
    open spec fn pieces(&self, mt: MailType) -> Seq<Piece> {
        match self.text_under(mt) {
            Some(t) => seq![mark()] + text_pieces(t) + seq![mark()],
            None => seq![mark()],
        }
    }

    open spec fn failure(&self, mt: MailType) -> Option<EncodingFailure> {
        match self.text_under(mt) {
            Some(_) => None,
            None => Some(EncodingFailure::NotEncodable(punycode_name())),
        }
    }

    fn encode(&self, handle: &mut EncodingWriter) -> (r: Result<(), EncodingError>) {
        let ghost mt = handle.spec_mail_type();
        handle.mark_fws_pos();
        assert(handle@ =~= old(handle)@ + seq![mark()]);
        match &self.0 {
            SimpleItem::Ascii(ascii) => {
                handle.write_str(ascii.as_str());
            },
            SimpleItem::Utf8(utf8) => {
                if handle.mail_type().is_internationalized() {
                    handle.write_utf8(utf8.as_str())?;
                } else {
                    let transcoded = idna::domain_to_ascii(utf8.as_str());
                    write_transcoded(handle, transcoded)?;
                }
            },
        }
        assert(handle@ =~= old(handle)@ + (seq![mark()] + text_pieces(self.text_under(mt).unwrap())));
        handle.mark_fws_pos();
        assert(final(handle)@ =~= old(handle)@ + self.pieces(mt));
        Ok(())
    }
}

/// An email address, `local-part@domain`, without `<` and `>` around it.
#[derive(Debug, PartialEq)]
pub struct Email {
    pub local_part: LocalPart,
    pub domain: Domain,
}

impl Clone for Email {
    fn clone(&self) -> (r: Email)
        ensures
            r.local_part@ == self.local_part@,
            r.domain@ == self.domain@,
            r.domain.tagged_ascii() == self.domain.tagged_ascii(),
            encodes_alike(r, *self),
    {
        let r = Email { local_part: self.local_part.clone(), domain: self.domain.clone() };
        proof {
            assert forall|mt: MailType| #[trigger]
                r.pieces(mt) == self.pieces(mt) && r.failure(mt) == self.failure(mt) by {
                assert(r.local_part.pieces(mt) == self.local_part.pieces(mt));
                assert(r.domain.pieces(mt) == self.domain.pieces(mt));
            }
        }
        r
    }
}

impl Email {
    /// Splits `email` at its first `@` into local part and domain. The two
    /// are windows into one buffer, that of the input where the input is
    /// shared already: nothing is copied. A text without `@` is no email,
    /// nor is one with anything but a domain after the first `@`.
    pub fn new(email: Input) -> (r: Result<Email, ComponentError>)
        ensures
            !email@.contains('@') ==> (r matches Err(ComponentError::InvalidEmail(t)) && t@
                == email@),
            match first_index_of(email@, '@') {
                None => r matches Err(ComponentError::InvalidEmail(t)) && t@ == email@,
                Some(at) => {
                    let local = email@.subrange(0, at);
                    let domain = email@.subrange(at + 1, email@.len() as int);
                    match r {
                        Ok(e) => valid_domain(domain) && e.local_part@ == local && e.domain@
                            == domain && e.domain.tagged_ascii() == is_ascii_chars(domain),
                        Err(e) => !valid_domain(domain) && (
                        e matches ComponentError::InvalidDomainName(t) && t@ == domain),
                    }
                },
            },
            r matches Ok(e) ==> share_a_buffer(e.local_part.held(), e.domain.held()) && (
            email.0 is Shared ==> share_a_buffer(email.0, e.local_part.held())),
    {
        proof {
            if !email@.contains('@') {
                lemma_no_index_of(email@, '@');
            }
        }
        let email = email.into_shared();
        match email.0 {
            InnerUtf8::Owned(text) => {
                proof {
                    assert(false);
                }
                Err(ComponentError::InvalidEmail(text))
            },
            InnerUtf8::Shared(shared) => {
                let chars = chars_of(shared.as_str());
                let n: usize = chars.len();
                let mut index: usize = 0;
                while index < n && chars[index] != '@'
                    invariant
                        n == chars.len(),
                        0 <= index <= n,
                        first_at(chars@, '@', index as int),
                    decreases n - index,
                {
                    index = index + 1;
                }
                if index == n {
                    assert(first_index_of(chars@, '@').is_none()) by {
                        assert forall|i: int| 0 <= i < chars@.len() implies chars@[i] != '@' by {
                            assert(first_at(chars@, '@', n as int));
                        }
                    }
                    return Err(ComponentError::InvalidEmail(shared.as_str().to_owned()));
                }
                proof {
                    lemma_first_index_of(chars@, '@', index as int);
                }
                let left = shared.slice(0, index);
                let local_part = LocalPart::from_input(Input(InnerUtf8::Shared(left)));
                let right = shared.slice(index + 1, n);
                proof {
                    SharedText::lemma_same_buffer(left, shared, right);
                    SharedText::lemma_same_buffer(right, shared, left);
                    SharedText::lemma_same_buffer(shared, left, right);
                }
                let domain = Domain::from_input(Input(InnerUtf8::Shared(right)))?;
                Ok(Email { local_part, domain })
            },
        }
    }

    /// The email that `email` spells.
    pub fn try_from(email: &str) -> (r: Result<Email, ComponentError>)
        ensures
            !email@.contains('@') ==> (r matches Err(ComponentError::InvalidEmail(t)) && t@
                == email@),
            match first_index_of(email@, '@') {
                None => r matches Err(ComponentError::InvalidEmail(t)) && t@ == email@,
                Some(at) => {
                    let local = email@.subrange(0, at);
                    let domain = email@.subrange(at + 1, email@.len() as int);
                    match r {
                        Ok(e) => valid_domain(domain) && e.local_part@ == local && e.domain@
                            == domain && e.domain.tagged_ascii() == is_ascii_chars(domain),
                        Err(e) => !valid_domain(domain) && (
                        e matches ComponentError::InvalidDomainName(t) && t@ == domain),
                    }
                },
            },
            r matches Ok(e) ==> share_a_buffer(e.local_part.held(), e.domain.held()),
    {
        Email::new(Input::from_str(email))
    }
}

/// If `c` stands at `i` in `s` and nowhere before, `i` is the first index
/// of `c` in `s`.
pub proof fn lemma_first_index_of(s: Seq<char>, c: char, i: int)
    requires
        0 <= i < s.len(),
        s[i] == c,
        first_at(s, c, i),
    ensures
        first_index_of(s, c) == Some(i),
{
    let k = choose|k: int| 0 <= k < s.len() && s[k] == c && first_at(s, c, k);
    if k < i {
        assert(s[k] != c);
    }
    if i < k {
        assert(s[i] != c);
    }
}

/// A text in which `c` does not occur has no first index of `c`.
pub proof fn lemma_no_index_of(s: Seq<char>, c: char)
    requires
        !s.contains(c),
    ensures
        first_index_of(s, c).is_none(),
{
    if first_index_of(s, c).is_some() {
        let k = choose|k: int| 0 <= k < s.len() && s[k] == c && first_at(s, c, k);
        assert(s.contains(c));
    }
}

/// The characters of a text between two marks are the text.
proof fn lemma_chars_between_marks(t: Seq<char>)
    ensures
        chars_of_pieces(seq![mark()] + text_pieces(t) + seq![mark()]) == t,
{
    let m = seq![mark()];
    assert(chars_of_pieces(m) =~= Seq::<char>::empty()) by {
        assert(m.drop_last() =~= Seq::<Piece>::empty());
        assert(m.last() == mark());
        assert(chars_of_pieces(Seq::<Piece>::empty()) =~= Seq::<char>::empty());
    }
    lemma_chars_of_text_pieces(t);
    lemma_chars_of_pieces_add(m, text_pieces(t));
    lemma_chars_of_pieces_add(m + text_pieces(t), m);
    assert(Seq::<char>::empty() + t + Seq::<char>::empty() =~= t);
}

/// An address that is made of dot-atom-text, `@` and a domain comes out
/// of encoding as it went in, but for the domain where that is not
/// US-ASCII and the mail not internationalized: there the ASCII-compatible
/// form of the domain stands for it.
///
/// `email` is the address that `local + "@" + domain` spells: the text
/// splits at the `@` between the two, so that making an email of it
/// succeeds and gives these parts. Encoding `email` for a mail of type
/// `mt` fails only where the domain has no ASCII-compatible form and
/// needs one.
pub proof fn law_email_round_trip(email: Email, local: Seq<char>, domain: Seq<char>, mt: MailType)
    requires
        spec_is_dot_atom_text(local, mt),
        valid_domain(domain),
        email.local_part@ == local,
        email.domain@ == domain,
        email.domain.tagged_ascii() == is_ascii_chars(domain),
    ensures
        first_index_of(local + seq!['@'] + domain, '@') == Some(local.len() as int),
        (local + seq!['@'] + domain).subrange(0, local.len() as int) == local,
        (local + seq!['@'] + domain).subrange(
            local.len() as int + 1,
            (local + seq!['@'] + domain).len() as int,
        ) == domain,
        is_ascii_chars(domain) || mt.is_internationalized() ==> email.domain.text_under(mt) == Some(
            domain,
        ),
        !is_ascii_chars(domain) && !mt.is_internationalized() ==> email.domain.text_under(mt)
            == usable_ascii_form(idna_ascii_form(domain)),
        match email.domain.text_under(mt) {
            Some(written) => email.failure(mt).is_none() && chars_of_pieces(email.pieces(mt))
                == local + seq!['@'] + written,
            None => email.failure(mt) == Some(EncodingFailure::NotEncodable(punycode_name())),
        },
{
    let whole = local + seq!['@'] + domain;
    let at = local.len() as int;
    assert(whole[at] == '@');
    assert(first_at(whole, '@', at)) by {
        assert forall|j: int| 0 <= j < at implies #[trigger] whole[j] != '@' by {
            assert(whole[j] == local[j]);
            assert(crate::grammar::dot_atom_char_ok(local, j, mt));
        }
    }
    lemma_first_index_of(whole, '@', at);
    assert(whole.subrange(0, at) =~= local);
    assert(whole.subrange(at + 1, whole.len() as int) =~= domain);
    assert(quoted_if_needed(local, mt) == Some(local));
    match email.domain.text_under(mt) {
        Some(written) => {
            let lp = seq![mark()] + text_pieces(local) + seq![mark()];
            let dp = seq![mark()] + text_pieces(written) + seq![mark()];
            lemma_chars_between_marks(local);
            lemma_chars_between_marks(written);
            lemma_chars_of_pieces_add(lp, seq![Some('@')]);
            lemma_chars_of_pieces_add(lp + seq![Some('@')], dp);
            assert(chars_of_pieces(seq![Some('@')]) =~= seq!['@']) by {
                assert(seq![Some('@')].drop_last() =~= Seq::<Piece>::empty());
                assert(seq![Some('@')].last() == Some('@'));
                assert(chars_of_pieces(Seq::<Piece>::empty()) =~= Seq::<char>::empty());
            }
        },
        None => {},
    }
}

impl EncodableInHeader for Email {
    /// The local part, `@`, the domain. Where the local part fails,
    /// nothing follows it.
    open spec fn pieces(&self, mt: MailType) -> Seq<Piece> {
        if self.local_part.failure(mt).is_some() {
            self.local_part.pieces(mt)
        } else {
            self.local_part.pieces(mt) + seq![Some('@')] + self.domain.pieces(mt)
        }
    }

    open spec fn failure(&self, mt: MailType) -> Option<EncodingFailure> {
        if self.local_part.failure(mt).is_some() {
            self.local_part.failure(mt)
        } else {
            self.domain.failure(mt)
        }
    }

    fn encode(&self, handle: &mut EncodingWriter) -> (r: Result<(), EncodingError>) {
        let ghost mt = handle.spec_mail_type();
        self.local_part.encode(handle)?;
        handle.write_char('@');
        let ghost mid = handle@;
        assert(mid =~= old(handle)@ + (self.local_part.pieces(mt) + seq![Some('@')]));
        let res = self.domain.encode(handle);
        assert(final(handle)@ =~= old(handle)@ + self.pieces(mt));
        res
    }
}

} // verus!
