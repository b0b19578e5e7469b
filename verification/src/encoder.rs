//! The writer that components encode themselves into.
//!
//! The writer keeps what was written as a trace of text and of marks, a
//! mark being a place where the line may later be folded. It does not fold
//! lines itself. What it holds is, in contracts, a sequence of `Piece`s.

use vstd::prelude::*;
use vstd::string::{StrSliceExecFns, StringExecFns};
use vstd::utf8::is_ascii_chars;
use crate::error::{EncodingError, EncodingFailure};
use crate::grammar::spec_is_ascii;
use crate::mail_type::MailType;
use crate::text::push_char;

verus! {

/// One element of what a writer holds: `Some` character, or `None` for a
/// mark between two characters, where a line break may be put.
pub type Piece = Option<char>;

/// The piece that is a mark.
pub open spec fn mark() -> Piece {
    None
}

/// A text as pieces: its characters, with no mark among them.
pub open spec fn text_pieces(s: Seq<char>) -> Seq<Piece> {
    s.map_values(|c: char| Some(c))
}

/// The characters among the pieces, in order.
pub open spec fn chars_of_pieces(p: Seq<Piece>) -> Seq<char>
    decreases p.len(),
{
    if p.len() == 0 {
        Seq::empty()
    } else {
        match p.last() {
            None => chars_of_pieces(p.drop_last()),
            Some(c) => chars_of_pieces(p.drop_last()).push(c),
        }
    }
}

/// Whether every character among the pieces is US-ASCII.
pub open spec fn pieces_are_ascii(p: Seq<Piece>) -> bool {
    forall|i: int| 0 <= i < p.len() ==> (#[trigger] p[i] matches Some(c) ==> spec_is_ascii(c))
}

/// An entry of a writer's trace.
#[derive(Debug, Clone, PartialEq, Eq)]
pub enum TraceToken {
    /// A place where the line may be folded.
    MarkFWS,
    /// Text that was written.
    Text(String),
}

impl TraceToken {
    /// The pieces that the entry stands for.
    pub open spec fn pieces(&self) -> Seq<Piece> {
        match *self {
            TraceToken::MarkFWS => seq![mark()],
            TraceToken::Text(s) => text_pieces(s@),
        }
    }
}

/// The pieces that a trace stands for.
pub open spec fn flatten(trace: Seq<TraceToken>) -> Seq<Piece>
    decreases trace.len(),
{
    if trace.len() == 0 {
        Seq::empty()
    } else {
        flatten(trace.drop_last()) + trace.last().pieces()
    }
}

/// A trace is merged if it holds no empty text and no two texts side by
/// side. Each sequence of pieces has one merged trace.
pub open spec fn merged(trace: Seq<TraceToken>) -> bool {
    &&& forall|i: int|
        0 <= i < trace.len() ==> (#[trigger] trace[i] matches TraceToken::Text(s) ==> s@.len() > 0)
    &&& forall|i: int|
        0 <= i < trace.len() - 1 ==> !(#[trigger] trace[i] is Text && trace[i + 1] is Text)
}

/// A trace with one more entry stands for the pieces of the trace, then
/// those of the entry.
pub proof fn lemma_flatten_push(trace: Seq<TraceToken>, t: TraceToken)
    ensures
        flatten(trace.push(t)) == flatten(trace) + t.pieces(),
{
    assert(trace.push(t).drop_last() =~= trace);
}

/// Pieces of a concatenation are the concatenation of the pieces.
pub proof fn lemma_text_pieces_add(a: Seq<char>, b: Seq<char>)
    ensures
        text_pieces(a + b) == text_pieces(a) + text_pieces(b),
{
    assert(text_pieces(a + b) =~= text_pieces(a) + text_pieces(b));
}

/// The pieces of a text with one more character are the pieces of the
/// text, then the character.
pub proof fn lemma_text_pieces_push(a: Seq<char>, c: char)
    ensures
        text_pieces(a.push(c)) == text_pieces(a).push(Some(c)),
{
    assert(text_pieces(a.push(c)) =~= text_pieces(a).push(Some(c)));
}

/// The characters among `a + b` are those of `a`, then those of `b`.
pub proof fn lemma_chars_of_pieces_add(a: Seq<Piece>, b: Seq<Piece>)
    ensures
        chars_of_pieces(a + b) == chars_of_pieces(a) + chars_of_pieces(b),
    decreases b.len(),
{
    if b.len() == 0 {
        assert(a + b =~= a);
        assert(chars_of_pieces(a) + chars_of_pieces(b) =~= chars_of_pieces(a));
    } else {
        assert((a + b).drop_last() =~= a + b.drop_last());
        assert((a + b).last() == b.last());
        lemma_chars_of_pieces_add(a, b.drop_last());
        match b.last() {
            None => {},
            Some(c) => {
                assert((chars_of_pieces(a) + chars_of_pieces(b.drop_last())).push(c)
                    =~= chars_of_pieces(a) + chars_of_pieces(b.drop_last()).push(c));
            },
        }
    }
}

/// The characters among the pieces of a text are the text.
pub proof fn lemma_chars_of_text_pieces(s: Seq<char>)
    ensures
        chars_of_pieces(text_pieces(s)) == s,
    decreases s.len(),
{
    if s.len() == 0 {
        assert(chars_of_pieces(text_pieces(s)) =~= s);
    } else {
        assert(text_pieces(s).drop_last() =~= text_pieces(s.drop_last()));
        lemma_chars_of_text_pieces(s.drop_last());
        assert(s.drop_last().push(s.last()) =~= s);
    }
}

proof fn lemma_ascii_text_pieces(s: Seq<char>)
    ensures
        pieces_are_ascii(text_pieces(s)) == is_ascii_chars(s),
{
    if is_ascii_chars(s) {
        assert forall|i: int| 0 <= i < text_pieces(s).len() implies (
        #[trigger] text_pieces(s)[i] matches Some(c) ==> spec_is_ascii(c)) by {
            assert('\0' <= s[i] <= '\u{7f}');
        }
    }
    if pieces_are_ascii(text_pieces(s)) {
        assert forall|i: int| 0 <= i < s.len() implies '\0' <= #[trigger] s[i] <= '\u{7f}' by {
            assert(text_pieces(s)[i] == Some(s[i]));
        }
    }
}

/// Collects header text for a mail of one mail type.
///
/// Unless the mail type is internationalized, a writer holds nothing but
/// US-ASCII: every way to write into it either demands US-ASCII text or
/// refuses text while the mail type is not internationalized.
pub struct EncodingWriter {
    mail_type: MailType,
    trace: Vec<TraceToken>,
    header_start: usize,
}

impl View for EncodingWriter {
    type V = Seq<Piece>;

    closed spec fn view(&self) -> Seq<Piece> {
        flatten(self.trace@)
    }
}

impl EncodingWriter {
    #[verifier::type_invariant]
    spec fn inv(&self) -> bool {
        &&& self.header_start <= self.trace.len()
        &&& !self.mail_type.is_internationalized() ==> pieces_are_ascii(flatten(self.trace@))
    }

    /// The mail type that the writer was made for.
    pub closed spec fn spec_mail_type(&self) -> MailType {
        self.mail_type
    }

    /// What was written before the header that is being written began.
    pub closed spec fn committed(&self) -> Seq<Piece> {
        flatten(self.trace@.take(self.header_start as int))
    }

    /// An empty writer for mails of type `mail_type`.
    pub fn new(mail_type: MailType) -> (r: Self)
        ensures
            r@ == Seq::<Piece>::empty(),
            r.committed() == Seq::<Piece>::empty(),
            r.spec_mail_type() == mail_type,
    {
        let trace: Vec<TraceToken> = Vec::new();
        assert(trace@.take(0) =~= trace@);
        EncodingWriter { mail_type, trace, header_start: 0 }
    }

    #[verifier::when_used_as_spec(spec_mail_type)]
    pub fn mail_type(&self) -> (r: MailType)
        ensures
            r == self.spec_mail_type(),
    {
        self.mail_type
    }

    fn push_token(&mut self, token: TraceToken)
        requires
            !old(self).spec_mail_type().is_internationalized() ==> pieces_are_ascii(token.pieces()),
        ensures
            final(self)@ == old(self)@ + token.pieces(),
            final(self).spec_mail_type() == old(self).spec_mail_type(),
            final(self).committed() == old(self).committed(),
    {
        proof {
            use_type_invariant(&*self);
        }
        let mut taken = EncodingWriter::new(self.mail_type);
        core::mem::swap(self, &mut taken);
        let EncodingWriter { mail_type, trace, header_start } = taken;
        let mut trace = trace;
        proof {
            lemma_flatten_push(trace@, token);
            assert(trace@.push(token).take(header_start as int) =~= trace@.take(
                header_start as int,
            ));
            lemma_ascii_add(flatten(trace@), token.pieces());
        }
        trace.push(token);
        *self = EncodingWriter { mail_type, trace, header_start };
    }

    /// Marks the place reached as one where the line may be folded.
    pub fn mark_fws_pos(&mut self)
        ensures
            final(self)@ == old(self)@.push(mark()),
            final(self).spec_mail_type() == old(self).spec_mail_type(),
            final(self).committed() == old(self).committed(),
    {
        assert(old(self)@ + seq![mark()] =~= old(self)@.push(mark()));
        self.push_token(TraceToken::MarkFWS);
    }

    /// Writes one US-ASCII character.
    pub fn write_char(&mut self, ch: char)
        requires
            spec_is_ascii(ch),
        ensures
            final(self)@ == old(self)@.push(Some(ch)),
            final(self).spec_mail_type() == old(self).spec_mail_type(),
            final(self).committed() == old(self).committed(),
    {
        let mut text = String::new();
        push_char(&mut text, ch);
        proof {
            assert(text@ =~= seq![ch]);
            assert(text_pieces(text@) =~= seq![Some(ch)]);
            assert(old(self)@ + seq![Some(ch)] =~= old(self)@.push(Some(ch)));
        }
        self.push_token(TraceToken::Text(text));
    }

    /// Writes text that the caller knows to be US-ASCII.
    pub fn write_str(&mut self, s: &str)
        requires
            is_ascii_chars(s@),
        ensures
            final(self)@ == old(self)@ + text_pieces(s@),
            final(self).spec_mail_type() == old(self).spec_mail_type(),
            final(self).committed() == old(self).committed(),
    {
        proof {
            lemma_ascii_text_pieces(s@);
        }
        self.push_token(TraceToken::Text(s.to_owned()));
    }

    /// Writes text as it is, if the mail type is internationalized, and
    /// refuses it otherwise, whatever it holds.
    pub fn write_utf8(&mut self, s: &str) -> (r: Result<(), EncodingError>)
        ensures
            r.is_ok() == old(self).spec_mail_type().is_internationalized(),
            r.is_ok() ==> final(self)@ == old(self)@ + text_pieces(s@),
            r matches Err(e) ==> e == EncodingError::Utf8NotAllowed && final(self)@ == old(self)@,
            final(self).spec_mail_type() == old(self).spec_mail_type(),
            final(self).committed() == old(self).committed(),
    {
        if self.mail_type.is_internationalized() {
            self.push_token(TraceToken::Text(s.to_owned()));
            Ok(())
        } else {
            Err(EncodingError::Utf8NotAllowed)
        }
    }

    /// Writes text of which the caller has made sure that it fits the
    /// mail type: any text for an internationalized mail, US-ASCII else.
    pub fn write_str_unchecked(&mut self, s: &str)
        requires
            old(self).spec_mail_type().is_internationalized() || is_ascii_chars(s@),
        ensures
            final(self)@ == old(self)@ + text_pieces(s@),
            final(self).spec_mail_type() == old(self).spec_mail_type(),
            final(self).committed() == old(self).committed(),
    {
        proof {
            lemma_ascii_text_pieces(s@);
        }
        self.push_token(TraceToken::Text(s.to_owned()));
    }

    /// Writes a blank at which the line may be folded.
    pub fn write_fws(&mut self)
        ensures
            final(self)@ == old(self)@.push(mark()).push(Some(' ')),
            final(self).spec_mail_type() == old(self).spec_mail_type(),
            final(self).committed() == old(self).committed(),
    {
        self.mark_fws_pos();
        self.write_char(' ');
    }

    /// Ends the header that is being written: what was written so far
    /// stays, whatever happens to later headers.
    pub fn finish_header(&mut self)
        ensures
            final(self)@ == old(self)@,
            final(self).committed() == old(self)@,
            final(self).spec_mail_type() == old(self).spec_mail_type(),
    {
        proof {
            use_type_invariant(&*self);
            assert(self.trace@.take(self.trace.len() as int) =~= self.trace@);
        }
        self.header_start = self.trace.len();
    }

    /// Takes back all that was written since the last header ended.
    pub fn undo_header(&mut self)
        ensures
            final(self)@ == old(self).committed(),
            final(self).committed() == old(self).committed(),
            final(self).spec_mail_type() == old(self).spec_mail_type(),
    {
        proof {
            use_type_invariant(&*self);
        }
        let mut taken = EncodingWriter::new(self.mail_type);
        core::mem::swap(self, &mut taken);
        let EncodingWriter { mail_type, trace, header_start } = taken;
        let mut trace = trace;
        proof {
            let kept = trace@.take(header_start as int);
            assert(kept.take(header_start as int) =~= kept);
            if !mail_type.is_internationalized() {
                lemma_flatten_prefix_ascii(trace@, header_start as int);
            }
        }
        trace.truncate(header_start);
        *self = EncodingWriter { mail_type, trace, header_start };
    }

    /// The trace in merged form: marks, and between them the text that was
    /// written, each stretch of it as one entry.
    pub fn trace(&self) -> (r: Vec<TraceToken>)
        ensures
            flatten(r@) == self@,
            merged(r@),
    {
        let mut out: Vec<TraceToken> = Vec::new();
        let mut pending = String::new();
        let mut i: usize = 0;
        assert(self.trace@.take(0) =~= Seq::<TraceToken>::empty());
        assert(text_pieces(pending@) =~= Seq::<Piece>::empty());
        while i < self.trace.len()
            invariant
                0 <= i <= self.trace.len(),
                flatten(out@) + text_pieces(pending@) == flatten(self.trace@.take(i as int)),
                merged(out@),
                out.len() == 0 || out@.last() is MarkFWS,
            decreases self.trace.len() - i,
        {
            proof {
                assert(self.trace@.take(i as int + 1) =~= self.trace@.take(i as int).push(
                    self.trace@[i as int],
                ));
                lemma_flatten_push(self.trace@.take(i as int), self.trace@[i as int]);
            }
            match &self.trace[i] {
                TraceToken::MarkFWS => {
                    if pending.as_str().unicode_len() > 0 {
                        let text = pending;
                        pending = String::new();
                        proof {
                            lemma_flatten_push(out@, TraceToken::Text(text));
                            lemma_merged_push(out@, TraceToken::Text(text));
                        }
                        out.push(TraceToken::Text(text));
                    } else {
                        assert(pending@ =~= Seq::<char>::empty());
                    }
                    proof {
                        lemma_flatten_push(out@, TraceToken::MarkFWS);
                        lemma_merged_push(out@, TraceToken::MarkFWS);
                        assert(text_pieces(Seq::<char>::empty()) =~= Seq::<Piece>::empty());
                        assert(flatten(out@) + Seq::<Piece>::empty() =~= flatten(out@));
                        assert(pending@ =~= Seq::<char>::empty());
                    }
                    out.push(TraceToken::MarkFWS);
                    assert(flatten(out@) + text_pieces(pending@) =~= flatten(
                        self.trace@.take(i as int + 1),
                    ));
                },
                TraceToken::Text(s) => {
                    proof {
                        lemma_text_pieces_add(pending@, s@);
                    }
                    pending.append(s.as_str());
                    assert(flatten(out@) + text_pieces(pending@) =~= flatten(
                        self.trace@.take(i as int + 1),
                    ));
                },
            }
            i = i + 1;
        }
        assert(self.trace@.take(i as int) =~= self.trace@);
        if pending.as_str().unicode_len() > 0 {
            proof {
                lemma_flatten_push(out@, TraceToken::Text(pending));
                lemma_merged_push(out@, TraceToken::Text(pending));
            }
            out.push(TraceToken::Text(pending));
        } else {
            assert(pending@ =~= Seq::<char>::empty());
            assert(text_pieces(pending@) =~= Seq::<Piece>::empty());
            assert(flatten(out@) + Seq::<Piece>::empty() =~= flatten(out@));
        }
        out
    }

    /// All the text that was written, without the marks. It is US-ASCII
    /// unless the mail type is internationalized.
    pub fn to_string(&self) -> (r: String)
        ensures
            r@ == chars_of_pieces(self@),
            !self.spec_mail_type().is_internationalized() ==> is_ascii_chars(r@),
    {
        let mut out = String::new();
        let mut i: usize = 0;
        assert(self.trace@.take(0) =~= Seq::<TraceToken>::empty());
        while i < self.trace.len()
            invariant
                0 <= i <= self.trace.len(),
                out@ == chars_of_pieces(flatten(self.trace@.take(i as int))),
            decreases self.trace.len() - i,
        {
            proof {
                let before = self.trace@.take(i as int);
                assert(self.trace@.take(i as int + 1) =~= before.push(self.trace@[i as int]));
                lemma_flatten_push(before, self.trace@[i as int]);
                lemma_chars_of_pieces_add(flatten(before), self.trace@[i as int].pieces());
            }
            match &self.trace[i] {
                TraceToken::MarkFWS => {
                    assert(chars_of_pieces(seq![mark()]) =~= Seq::<char>::empty()) by {
                        assert(seq![mark()].drop_last() =~= Seq::<Piece>::empty());
                        assert(seq![mark()].last() == mark());
                        assert(chars_of_pieces(Seq::<Piece>::empty()) =~= Seq::<char>::empty());
                    }
                    assert(out@ + Seq::<char>::empty() =~= out@);
                },
                TraceToken::Text(s) => {
                    proof {
                        lemma_chars_of_text_pieces(s@);
                    }
                    out.append(s.as_str());
                },
            }
            i = i + 1;
        }
        proof {
            assert(self.trace@.take(i as int) =~= self.trace@);
            use_type_invariant(self);
            if !self.mail_type.is_internationalized() {
                lemma_ascii_chars_of_pieces(self@);
            }
        }
        out
    }
}

/// A value that can write itself into a header.
///
/// What is written depends on the value and on the mail type of the
/// writer, and on nothing else: `pieces` says what is appended to the
/// writer, `failure` whether and why encoding fails. A failing value may
/// have written a part of itself before it fails, and `pieces` says which.
pub trait EncodableInHeader {
    /// What `encode` appends to a writer of mail type `mt`.
    spec fn pieces(&self, mt: MailType) -> Seq<Piece>;

    /// Why `encode` fails on a writer of mail type `mt`, if it does.
    spec fn failure(&self, mt: MailType) -> Option<EncodingFailure>;

    fn encode(&self, handle: &mut EncodingWriter) -> (r: Result<(), EncodingError>)
        ensures
            final(handle)@ == old(handle)@ + self.pieces(old(handle).spec_mail_type()),
            final(handle).spec_mail_type() == old(handle).spec_mail_type(),
            final(handle).committed() == old(handle).committed(),
            match r {
                Ok(_) => self.failure(old(handle).spec_mail_type()).is_none(),
                Err(e) => self.failure(old(handle).spec_mail_type()) == Some(e@),
            },
    ;
}

/// What `encode` promises, as one predicate: what holds of a writer
/// before and after a value encoded itself into it, and of what the call
/// returned.
pub open spec fn encode_post<C: EncodableInHeader + ?Sized>(
    c: &C,
    before: EncodingWriter,
    after: EncodingWriter,
    r: Result<(), EncodingError>,
) -> bool {
    &&& after@ == before@ + c.pieces(before.spec_mail_type())
    &&& after.spec_mail_type() == before.spec_mail_type()
    &&& after.committed() == before.committed()
    &&& match r {
        Ok(_) => c.failure(before.spec_mail_type()).is_none(),
        Err(e) => c.failure(before.spec_mail_type()) == Some(e@),
    }
}

/// Encoding is a function of the value and of the mail type: two writers
/// of one mail type that hold the same, after one value encoded itself
/// into each, hold the same again, and both calls succeeded or both failed
/// for the same reason.
pub proof fn law_encode_is_deterministic<C: EncodableInHeader>(
    c: &C,
    first_before: EncodingWriter,
    first_after: EncodingWriter,
    first_result: Result<(), EncodingError>,
    second_before: EncodingWriter,
    second_after: EncodingWriter,
    second_result: Result<(), EncodingError>,
)
    requires
        encode_post(c, first_before, first_after, first_result),
        encode_post(c, second_before, second_after, second_result),
        first_before@ == second_before@,
        first_before.spec_mail_type() == second_before.spec_mail_type(),
    ensures
        first_after@ == second_after@,
        chars_of_pieces(first_after@) == chars_of_pieces(second_after@),
        first_result.is_ok() == second_result.is_ok(),
        first_result matches Err(e1) ==> (second_result matches Err(e2) && e1@ == e2@),
{
}

/// Why a writer that encodes `items` one by one fails, if it does: for
/// the reason of the first item that fails.
pub open spec fn seq_failure<C: EncodableInHeader>(items: Seq<C>, mt: MailType) -> Option<
    EncodingFailure,
>
    decreases items.len(),
{
    if items.len() == 0 {
        None
    } else {
        match seq_failure(items.drop_last(), mt) {
            Some(f) => Some(f),
            None => items.last().failure(mt),
        }
    }
}

/// What encoding `items` one by one appends, with `sep` between each two:
/// all up to and with what the first failing item wrote, if one fails.
pub open spec fn seq_pieces<C: EncodableInHeader>(
    items: Seq<C>,
    sep: Seq<Piece>,
    mt: MailType,
) -> Seq<Piece>
    decreases items.len(),
{
    if items.len() == 0 {
        Seq::empty()
    } else if seq_failure(items.drop_last(), mt).is_some() {
        seq_pieces(items.drop_last(), sep, mt)
    } else if items.len() == 1 {
        items.last().pieces(mt)
    } else {
        seq_pieces(items.drop_last(), sep, mt) + sep + items.last().pieces(mt)
    }
}

/// Two values encode alike if under every mail type they write the same
/// and fail for the same reason.
pub open spec fn encodes_alike<C: EncodableInHeader>(a: C, b: C) -> bool {
    forall|mt: MailType| #[trigger] a.pieces(mt) == b.pieces(mt) && a.failure(mt) == b.failure(mt)
}

/// Lists whose items encode alike one by one encode alike.
pub proof fn lemma_seq_encodes_alike<C: EncodableInHeader>(
    a: Seq<C>,
    b: Seq<C>,
    sep: Seq<Piece>,
    mt: MailType,
)
    requires
        a.len() == b.len(),
        forall|i: int| 0 <= i < a.len() ==> encodes_alike(#[trigger] a[i], b[i]),
    ensures
        seq_pieces(a, sep, mt) == seq_pieces(b, sep, mt),
        seq_failure(a, mt) == seq_failure(b, mt),
    decreases a.len(),
{
    if a.len() > 0 {
        assert forall|i: int| 0 <= i < a.drop_last().len() implies encodes_alike(
            #[trigger] a.drop_last()[i],
            b.drop_last()[i],
        ) by {
            assert(a.drop_last()[i] == a[i]);
            assert(b.drop_last()[i] == b[i]);
            assert(encodes_alike(a[i], b[i]));
        }
        lemma_seq_encodes_alike(a.drop_last(), b.drop_last(), sep, mt);
        assert(encodes_alike(a[a.len() - 1], b[b.len() - 1]));
        assert(a.last().pieces(mt) == b.last().pieces(mt));
    }
}

/// What stands between the items of a list.
#[derive(Debug, Clone, Copy, PartialEq, Eq, Structural)]
pub enum Separator {
    /// Nothing.
    Nothing,
    /// A blank at which the line may be folded.
    Blank,
    /// A comma, and a blank at which the line may be folded.
    Comma,
}

impl Separator {
    /// What the separator writes.
    pub open spec fn pieces(&self) -> Seq<Piece> {
        match *self {
            Separator::Nothing => Seq::empty(),
            Separator::Blank => seq![mark(), Some(' ')],
            Separator::Comma => seq![Some(','), mark(), Some(' ')],
        }
    }
}

/// Encodes `items` in order, with `separator` between each two, and
/// stops at the first that fails.
pub fn encode_each<C: EncodableInHeader>(
    items: &Vec<C>,
    separator: Separator,
    handle: &mut EncodingWriter,
) -> (r: Result<(), EncodingError>)
    ensures
        final(handle)@ == old(handle)@ + seq_pieces(
            items@,
            separator.pieces(),
            old(handle).spec_mail_type(),
        ),
        final(handle).spec_mail_type() == old(handle).spec_mail_type(),
        final(handle).committed() == old(handle).committed(),
        match r {
            Ok(_) => seq_failure(items@, old(handle).spec_mail_type()).is_none(),
            Err(e) => seq_failure(items@, old(handle).spec_mail_type()) == Some(e@),
        },
{
    let ghost mt = handle.spec_mail_type();
    let ghost sep = separator.pieces();
    let mut i: usize = 0;
    proof {
        assert(items@.take(0) =~= Seq::<C>::empty());
        assert(handle@ + Seq::<Piece>::empty() =~= handle@);
    }
    while i < items.len()
        invariant
            0 <= i <= items.len(),
            handle@ == old(handle)@ + seq_pieces(items@.take(i as int), sep, mt),
            handle.spec_mail_type() == mt,
            mt == old(handle).spec_mail_type(),
            handle.committed() == old(handle).committed(),
            seq_failure(items@.take(i as int), mt).is_none(),
            sep == separator.pieces(),
        decreases items.len() - i,
    {
        let ghost before = items@.take(i as int);
        let ghost upto = items@.take(i as int + 1);
        proof {
            assert(upto.drop_last() =~= before);
            assert(upto.last() == items@[i as int]);
        }
        if i > 0 {
            match separator {
                Separator::Nothing => {},
                Separator::Blank => {
                    handle.write_fws();
                },
                Separator::Comma => {
                    handle.write_char(',');
                    handle.write_fws();
                },
            }
        }
        assert(handle@ =~= old(handle)@ + (seq_pieces(before, sep, mt) + (if i > 0 {
            sep
        } else {
            Seq::<Piece>::empty()
        })));
        let res = items[i].encode(handle);
        proof {
            if i == 0 {
                assert(before =~= Seq::<C>::empty());
                assert(handle@ =~= old(handle)@ + seq_pieces(upto, sep, mt));
            } else {
                assert(handle@ =~= old(handle)@ + seq_pieces(upto, sep, mt));
            }
        }
        match res {
            Ok(_) => {},
            Err(e) => {
                proof {
                    lemma_seq_failure_stays(items@, i as int + 1, sep, mt);
                }
                return Err(e);
            },
        }
        i = i + 1;
    }
    assert(items@.take(i as int) =~= items@);
    Ok(())
}

/// Once a prefix of `items` fails, the whole fails for the same reason,
/// and writes no more than the prefix.
pub proof fn lemma_seq_failure_stays<C: EncodableInHeader>(
    items: Seq<C>,
    k: int,
    sep: Seq<Piece>,
    mt: MailType,
)
    requires
        0 <= k <= items.len(),
        seq_failure(items.take(k), mt).is_some(),
    ensures
        seq_failure(items, mt) == seq_failure(items.take(k), mt),
        seq_pieces(items, sep, mt) == seq_pieces(items.take(k), sep, mt),
    decreases items.len() - k,
{
    if k == items.len() {
        assert(items.take(k) =~= items);
    } else {
        assert(items.drop_last().take(k) =~= items.take(k));
        lemma_seq_failure_stays(items.drop_last(), k, sep, mt);
    }
}

proof fn lemma_merged_push(trace: Seq<TraceToken>, t: TraceToken)
    requires
        merged(trace),
        t matches TraceToken::Text(s) ==> s@.len() > 0 && (trace.len() == 0
            || trace.last() is MarkFWS),
    ensures
        merged(trace.push(t)),
{
    let longer = trace.push(t);
    assert forall|i: int| 0 <= i < longer.len() implies (#[trigger] longer[i] matches TraceToken::Text(
        s,
    ) ==> s@.len() > 0) by {
        if i < trace.len() {
            assert(longer[i] == trace[i]);
        }
    }
    assert forall|i: int| 0 <= i < longer.len() - 1 implies !(#[trigger] longer[i] is Text
        && longer[i + 1] is Text) by {
        assert(longer[i] == trace[i]);
        if i + 1 < trace.len() {
            assert(longer[i + 1] == trace[i + 1]);
        }
    }
}

proof fn lemma_ascii_add(a: Seq<Piece>, b: Seq<Piece>)
    ensures
        pieces_are_ascii(a) && pieces_are_ascii(b) ==> pieces_are_ascii(a + b),
{
    if pieces_are_ascii(a) && pieces_are_ascii(b) {
        assert forall|i: int| 0 <= i < (a + b).len() implies (#[trigger] (a + b)[i] matches Some(c) ==> spec_is_ascii(c)) by {
            if i < a.len() {
                assert((a + b)[i] == a[i]);
            } else {
                assert((a + b)[i] == b[i - a.len()]);
            }
        }
    }
}

proof fn lemma_flatten_prefix_ascii(trace: Seq<TraceToken>, k: int)
    requires
        0 <= k <= trace.len(),
        pieces_are_ascii(flatten(trace)),
    ensures
        pieces_are_ascii(flatten(trace.take(k))),
    decreases trace.len() - k,
{
    if k < trace.len() {
        let shorter = trace.drop_last();
        assert(flatten(trace) == flatten(shorter) + trace.last().pieces());
        assert forall|i: int| 0 <= i < flatten(shorter).len() implies (
        #[trigger] flatten(shorter)[i] matches Some(c) ==> spec_is_ascii(c)) by {
            assert(flatten(trace)[i] == flatten(shorter)[i]);
        }
        assert(shorter.take(k) =~= trace.take(k));
        lemma_flatten_prefix_ascii(shorter, k);
    } else {
        assert(trace.take(k) =~= trace);
    }
}

proof fn lemma_ascii_chars_of_pieces(p: Seq<Piece>)
    requires
        pieces_are_ascii(p),
    ensures
        is_ascii_chars(chars_of_pieces(p)),
    decreases p.len(),
{
    if p.len() > 0 {
        assert forall|i: int| 0 <= i < p.drop_last().len() implies (
        #[trigger] p.drop_last()[i] matches Some(c) ==> spec_is_ascii(c)) by {
            assert(p.drop_last()[i] == p[i]);
        }
        lemma_ascii_chars_of_pieces(p.drop_last());
        assert(p[p.len() - 1] == p.last());
        let before = chars_of_pieces(p.drop_last());
        match p.last() {
            None => {},
            Some(c) => {
                assert forall|i: int| 0 <= i < before.push(c).len() implies '\0' <= (
                #[trigger] before.push(c)[i]) <= '\u{7f}' by {
                    if i < before.len() {
                        assert(before.push(c)[i] == before[i]);
                    }
                }
            },
        }
    }
}

} // verus!
