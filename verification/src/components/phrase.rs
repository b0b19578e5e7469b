//! Phrases: one or more words, as they stand in a display name.

use vstd::prelude::*;
use vstd::std_specs::cmp::PartialEqSpecImpl;
use crate::encoder::{
    encode_each, encodes_alike, lemma_seq_encodes_alike, seq_failure, seq_pieces, text_pieces,
    EncodableInHeader, EncodingWriter, Piece, Separator,
};
use crate::error::{ComponentError, EncodingError, EncodingFailure};
use crate::grammar::{is_atext, spec_is_atext};
use crate::mail_type::MailType;
use crate::quoting::{all_quotable, lemma_quoted_ascii, quote, quoted};
use crate::text::{chars_of, str_eq};
use crate::text_partition::{
    is_partition_of, is_visible, partition, partitionable, uniform_part, Partition,
};

verus! {

/// Whether every character of `s` is visible, in the widest sense.
pub open spec fn all_visible(s: Seq<char>) -> bool {
    forall|i: int| 0 <= i < s.len() ==> is_visible(#[trigger] s[i])
}

/// An atom: one or more atext characters.
pub open spec fn spec_is_atom(s: Seq<char>, mt: MailType) -> bool {
    s.len() > 0 && forall|i: int| 0 <= i < s.len() ==> spec_is_atext(#[trigger] s[i], mt)
}

/// The form in which a word stands in a header: itself if it is an atom,
/// else the quoted string of it, and none if a quoted string cannot hold
/// it.
pub open spec fn word_form(s: Seq<char>, mt: MailType) -> Option<Seq<char>> {
    if spec_is_atom(s, mt) {
        Some(s)
    } else if all_quotable(s, mt) {
        Some(quoted(s))
    } else {
        None
    }
}

/// The name of the quoted-string form, as errors give it.
pub open spec fn quoted_string_name() -> Seq<char> {
    "quoted-string"@
}

/// Whether `chars` is an atom under `mt`.
pub fn is_atom(chars: &Vec<char>, mt: MailType) -> (r: bool)
    ensures
        r == spec_is_atom(chars@, mt),
{
    if chars.len() == 0 {
        return false;
    }
    let mut i: usize = 0;
    while i < chars.len()
        invariant
            0 <= i <= chars.len(),
            forall|j: int| 0 <= j < i ==> spec_is_atext(#[trigger] chars@[j], mt),
        decreases chars.len() - i,
    {
        if !is_atext(chars[i], mt) {
            return false;
        }
        i = i + 1;
    }
    true
}

/// A word: a run of visible characters.
#[derive(Debug)]
pub struct Word {
    text: String,
}

impl View for Word {
    type V = Seq<char>;

    closed spec fn view(&self) -> Seq<char> {
        self.text@
    }
}

impl Clone for Word {
    fn clone(&self) -> (r: Word)
        ensures
            r@ == self@,
    {
        proof {
            use_type_invariant(self);
        }
        Word { text: self.text.clone() }
    }
}

impl PartialEq for Word {
    fn eq(&self, other: &Word) -> (r: bool) {
        str_eq(self.text.as_str(), other.text.as_str())
    }
}

impl PartialEqSpecImpl for Word {
    open spec fn obeys_eq_spec() -> bool {
        true
    }

    open spec fn eq_spec(&self, other: &Word) -> bool {
        self@ == other@
    }
}

impl Word {
    #[verifier::type_invariant]
    spec fn inv(&self) -> bool {
        self.text@.len() > 0 && all_visible(self.text@)
    }

    /// Makes a word of `text`, which must be one or more visible
    /// characters.
    pub fn try_from(text: &str) -> (r: Result<Word, ComponentError>)
        ensures
            match r {
                Ok(w) => w@ == text@ && text@.len() > 0 && all_visible(text@),
                Err(e) => !(text@.len() > 0 && all_visible(text@)) && (
                e matches ComponentError::NeedAtLastOneVCHAR(t) && t@ == text@),
            },
    {
        let chars = chars_of(text);
        if chars.len() == 0 {
            return Err(ComponentError::NeedAtLastOneVCHAR(text.to_owned()));
        }
        let mut i: usize = 0;
        while i < chars.len()
            invariant
                chars@ == text@,
                0 <= i <= chars.len(),
                forall|j: int| 0 <= j < i ==> is_visible(#[trigger] chars@[j]),
            decreases chars.len() - i,
        {
            if !crate::grammar::is_vchar(chars[i], MailType::Internationalized) {
                assert(!is_visible(text@[i as int]));
                return Err(ComponentError::NeedAtLastOneVCHAR(text.to_owned()));
            }
            i = i + 1;
        }
        Ok(Word { text: text.to_owned() })
    }

    pub fn as_str(&self) -> (r: &str)
        ensures
            r@ == self@,
            r@.len() > 0,
            all_visible(r@),
    {
        proof {
            use_type_invariant(self);
        }
        self.text.as_str()
    }
}

impl EncodableInHeader for Word {
    /// The word as an atom or as a quoted string; nothing if it has
    /// neither form.
    open spec fn pieces(&self, mt: MailType) -> Seq<Piece> {
        match word_form(self@, mt) {
            Some(t) => text_pieces(t),
            None => Seq::empty(),
        }
    }

    open spec fn failure(&self, mt: MailType) -> Option<EncodingFailure> {
        match word_form(self@, mt) {
            Some(_) => None,
            None => Some(EncodingFailure::NotEncodable(quoted_string_name())),
        }
    }

    fn encode(&self, handle: &mut EncodingWriter) -> (r: Result<(), EncodingError>) {
        let mail_type = handle.mail_type();
        let chars = chars_of(self.text.as_str());
        if is_atom(&chars, mail_type) {
            proof {
                if !mail_type.is_internationalized() {
                    assert forall|j: int| 0 <= j < self@.len() implies '\0' <= #[trigger] self@[j]
                        <= '\u{7f}' by {
                        assert(spec_is_atext(self@[j], mail_type));
                    }
                }
            }
            handle.write_str_unchecked(self.text.as_str());
            return Ok(());
        }
        match quote(self.text.as_str(), mail_type) {
            Some(text) => {
                proof {
                    if !mail_type.is_internationalized() {
                        lemma_quoted_ascii(self@, mail_type);
                    }
                }
                handle.write_str_unchecked(text.as_str());
                Ok(())
            },
            None => {
                assert(handle@ + Seq::<Piece>::empty() =~= handle@);
                Err(EncodingError::NotEncodable { encoding: "quoted-string" })
            },
        }
    }
}

/// The texts of the runs of visible characters among `parts`, in order.
pub open spec fn visible_runs(parts: Seq<Partition>) -> Seq<Seq<char>>
    decreases parts.len(),
{
    if parts.len() == 0 {
        Seq::empty()
    } else if parts.last().spec_is_visible() {
        visible_runs(parts.drop_last()).push(parts.last().text())
    } else {
        visible_runs(parts.drop_last())
    }
}

/// The texts of `words`, in order.
pub open spec fn word_texts(words: Seq<Word>) -> Seq<Seq<char>> {
    words.map_values(|w: Word| w@)
}

/// The words of `text`: its runs of visible characters. White space
/// between them only parts them.
pub open spec fn is_words_of(words: Seq<Seq<char>>, text: Seq<char>) -> bool {
    exists|parts: Seq<Partition>| #[trigger]
        is_partition_of(parts, text) && words == visible_runs(parts)
}

/// One or more words.
#[derive(Debug, PartialEq)]
pub struct Phrase {
    words: Vec<Word>,
}

impl View for Phrase {
    type V = Seq<Word>;

    closed spec fn view(&self) -> Seq<Word> {
        self.words@
    }
}

impl Clone for Phrase {
    fn clone(&self) -> (r: Phrase)
        ensures
            word_texts(r@) == word_texts(self@),
            encodes_alike(r, *self),
    {
        proof {
            use_type_invariant(self);
        }
        let mut copies: Vec<Word> = Vec::new();
        let mut i: usize = 0;
        while i < self.words.len()
            invariant
                0 <= i <= self.words.len(),
                copies.len() == i,
                forall|j: int| 0 <= j < i ==> (#[trigger] copies@[j])@ == self.words@[j]@,
            decreases self.words.len() - i,
        {
            copies.push(self.words[i].clone());
            i = i + 1;
        }
        assert(word_texts(copies@) =~= word_texts(self.words@));
        let r = Phrase { words: copies };
        proof {
            assert forall|mt: MailType| #[trigger]
                r.pieces(mt) == self.pieces(mt) && r.failure(mt) == self.failure(mt) by {
                assert forall|j: int| 0 <= j < copies@.len() implies encodes_alike(
                    #[trigger] copies@[j],
                    self.words@[j],
                ) by {
                    assert(copies@[j]@ == self.words@[j]@);
                }
                lemma_seq_encodes_alike(copies@, self.words@, Separator::Blank.pieces(), mt);
                assert(r@ == copies@);
            }
            assert(encodes_alike(r, *self));
        }
        r
    }
}

impl Phrase {
    #[verifier::type_invariant]
    spec fn inv(&self) -> bool {
        self.words@.len() > 0
    }

    /// Takes the words of `text`. A text that cannot be partitioned is
    /// refused, and so is one without a word.
    pub fn try_from(text: &str) -> (r: Result<Phrase, ComponentError>)
        ensures
            match r {
                Ok(p) => partitionable(text@) && p@.len() > 0 && is_words_of(
                    word_texts(p@),
                    text@,
                ),
                Err(ComponentError::NeedAtLastOneVCHAR(t)) => !partitionable(text@) && t@ == text@,
                Err(e) => partitionable(text@) && e == ComponentError::PhraseSize0 && forall|
                    i: int,
                | 0 <= i < text@.len() ==> !is_visible(#[trigger] text@[i]),
            },
    {
        let parts = partition(text)?;
        let mut words: Vec<Word> = Vec::new();
        let mut i: usize = 0;
        assert(parts@.take(0) =~= Seq::<Partition>::empty());
        assert(word_texts(words@) =~= visible_runs(parts@.take(0)));
        while i < parts.len()
            invariant
                0 <= i <= parts.len(),
                is_partition_of(parts@, text@),
                word_texts(words@) == visible_runs(parts@.take(i as int)),
                forall|j: int| 0 <= j < i ==> !(#[trigger] parts@[j]).spec_is_visible() || words.len()
                    > 0,
            decreases parts.len() - i,
        {
            proof {
                assert(parts@.take(i as int + 1).drop_last() =~= parts@.take(i as int));
                assert(parts@.take(i as int + 1).last() == parts@[i as int]);
                assert(uniform_part(parts@[i as int]));
            }
            if parts[i].is_visible() {
                let run = parts[i].as_str();
                match Word::try_from(run) {
                    Ok(word) => {
                        proof {
                            assert(word_texts(words@.push(word)) =~= word_texts(words@).push(
                                word@,
                            ));
                        }
                        words.push(word);
                    },
                    Err(e) => {
                        proof {
                            assert(all_visible(run@)) by {
                                assert forall|k: int| 0 <= k < run@.len() implies is_visible(
                                    #[trigger] run@[k],
                                ) by {
                                    assert(is_visible(parts@[i as int].text()[k]));
                                }
                            }
                            assert(false);
                        }
                        return Err(e);
                    },
                }
            }
            i = i + 1;
        }
        assert(parts@.take(i as int) =~= parts@);
        if words.len() == 0 {
            proof {
                lemma_no_visible_part(parts@, text@);
            }
            return Err(ComponentError::PhraseSize0);
        }
        Ok(Phrase { words })
    }

    /// The words, in order: one at least.
    pub fn words(&self) -> (r: &Vec<Word>)
        ensures
            r@ == self@,
            r@.len() > 0,
    {
        proof {
            use_type_invariant(self);
        }
        &self.words
    }
}

/// A text whose partition has no run of visible characters has no
/// visible character.
proof fn lemma_no_visible_part(parts: Seq<Partition>, text: Seq<char>)
    requires
        is_partition_of(parts, text),
        forall|j: int| 0 <= j < parts.len() ==> !(#[trigger] parts[j]).spec_is_visible(),
    ensures
        forall|i: int| 0 <= i < text.len() ==> !is_visible(#[trigger] text[i]),
    decreases parts.len(),
{
    if parts.len() > 0 {
        let rest = parts.drop_last();
        let last = parts.last();
        let head = crate::text_partition::concat_parts(rest);
        assert(text =~= head + last.text());
        assert(is_partition_of(rest, head)) by {
            assert forall|i: int| 0 <= i < rest.len() implies uniform_part(#[trigger] rest[i]) by {
                assert(rest[i] == parts[i]);
            }
            assert forall|i: int| 0 <= i < rest.len() - 1 implies (
            #[trigger] rest[i]).spec_is_visible() != rest[i + 1].spec_is_visible() by {
                assert(rest[i] == parts[i]);
                assert(rest[i + 1] == parts[i + 1]);
            }
        }
        assert forall|j: int| 0 <= j < rest.len() implies !(#[trigger] rest[j]).spec_is_visible() by {
            assert(rest[j] == parts[j]);
        }
        lemma_no_visible_part(rest, head);
        assert(uniform_part(last));
        assert(!parts[parts.len() - 1].spec_is_visible());
        assert forall|i: int| 0 <= i < text.len() implies !is_visible(#[trigger] text[i]) by {
            if i < head.len() {
                assert(text[i] == head[i]);
            } else {
                assert(text[i] == last.text()[i - head.len()]);
                assert(crate::text_partition::is_space_like(last.text()[i - head.len()]));
            }
        }
    }
}

impl EncodableInHeader for Phrase {
    /// The words in order, with a blank at which the line may be folded
    /// between each two.
    open spec fn pieces(&self, mt: MailType) -> Seq<Piece> {
        seq_pieces(self@, Separator::Blank.pieces(), mt)
    }

    open spec fn failure(&self, mt: MailType) -> Option<EncodingFailure> {
        seq_failure(self@, mt)
    }

    fn encode(&self, handle: &mut EncodingWriter) -> (r: Result<(), EncodingError>) {
        encode_each(&self.words, Separator::Blank, handle)
    }
}

} // verus!
