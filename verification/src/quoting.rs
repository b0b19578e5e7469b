//! Quoted strings as MIME writes them: the text between two `"`, with a
//! `\` before each `"` and each `\` of the text.

use vstd::prelude::*;
use vstd::utf8::is_ascii_chars;
use crate::grammar::{
    is_dot_atom_text, is_vchar, is_ws, spec_is_dot_atom_text, spec_is_vchar, spec_is_ws,
};
use crate::mail_type::MailType;
use crate::text::{chars_of, push_char};

verus! {

/// The characters that a quoted string holds only behind a `\`.
pub open spec fn needs_escape(ch: char) -> bool {
    ch == '"' || ch == '\\'
}

/// The characters that a quoted string can hold at all: the visible ones
/// and white space.
pub open spec fn quotable(ch: char, mt: MailType) -> bool {
    spec_is_vchar(ch, mt) || spec_is_ws(ch)
}

/// Whether a quoted string can hold every character of `s`.
pub open spec fn all_quotable(s: Seq<char>, mt: MailType) -> bool {
    forall|i: int| 0 <= i < s.len() ==> quotable(#[trigger] s[i], mt)
}

/// `s` with a `\` before each character that needs one.
pub open spec fn escaped(s: Seq<char>) -> Seq<char>
    decreases s.len(),
{
    if s.len() == 0 {
        Seq::empty()
    } else if needs_escape(s.last()) {
        escaped(s.drop_last()).push('\\').push(s.last())
    } else {
        escaped(s.drop_last()).push(s.last())
    }
}

/// `s` as a quoted string.
pub open spec fn quoted(s: Seq<char>) -> Seq<char> {
    seq!['"'] + escaped(s) + seq!['"']
}

/// The form in which `s` stands where dot-atom-text or a quoted string
/// may stand: itself if it is dot-atom-text, else the quoted string of
/// it, and none if it holds a character that cannot be quoted.
pub open spec fn quoted_if_needed(s: Seq<char>, mt: MailType) -> Option<Seq<char>> {
    if spec_is_dot_atom_text(s, mt) {
        Some(s)
    } else if all_quotable(s, mt) {
        Some(quoted(s))
    } else {
        None
    }
}

/// Under a mail type that is not internationalized, the form is US-ASCII.
pub proof fn lemma_quoted_if_needed_ascii(s: Seq<char>, mt: MailType)
    requires
        !mt.is_internationalized(),
    ensures
        quoted_if_needed(s, mt) matches Some(t) ==> is_ascii_chars(t),
{
    if spec_is_dot_atom_text(s, mt) {
        assert forall|i: int| 0 <= i < s.len() implies '\0' <= #[trigger] s[i] <= '\u{7f}' by {
            assert(crate::grammar::dot_atom_char_ok(s, i, mt));
        }
    } else if all_quotable(s, mt) {
        lemma_escaped_ascii(s, mt);
        let t = quoted(s);
        assert forall|i: int| 0 <= i < t.len() implies '\0' <= #[trigger] t[i] <= '\u{7f}' by {
            if 0 < i < t.len() - 1 {
                assert(t[i] == escaped(s)[i - 1]);
            }
        }
    }
}

proof fn lemma_escaped_ascii(s: Seq<char>, mt: MailType)
    requires
        !mt.is_internationalized(),
        all_quotable(s, mt),
    ensures
        is_ascii_chars(escaped(s)),
    decreases s.len(),
{
    if s.len() > 0 {
        assert forall|i: int| 0 <= i < s.drop_last().len() implies quotable(
            #[trigger] s.drop_last()[i],
            mt,
        ) by {
            assert(s.drop_last()[i] == s[i]);
        }
        lemma_escaped_ascii(s.drop_last(), mt);
        assert(quotable(s[s.len() - 1], mt));
    }
}

/// `input` as a quoted string, if a quoted string can hold all of it.
pub fn quote(input: &str, mt: MailType) -> (r: Option<String>)
    ensures
        match r {
            Some(t) => all_quotable(input@, mt) && t@ == quoted(input@),
            None => !all_quotable(input@, mt),
        },
{
    let chars = chars_of(input);
    let mut out = String::new();
    push_char(&mut out, '"');
    let mut i: usize = 0;
    assert(chars@.take(0) =~= Seq::<char>::empty());
    assert(out@ =~= seq!['"'] + escaped(chars@.take(0)));
    while i < chars.len()
        invariant
            chars@ == input@,
            0 <= i <= chars.len(),
            out@ == seq!['"'] + escaped(chars@.take(i as int)),
            all_quotable(chars@.take(i as int), mt),
        decreases chars.len() - i,
    {
        let ch = chars[i];
        proof {
            assert(chars@.take(i as int + 1).drop_last() =~= chars@.take(i as int));
            assert(chars@.take(i as int + 1).last() == ch);
        }
        if ch == '"' || ch == '\\' {
            push_char(&mut out, '\\');
            push_char(&mut out, ch);
            assert(out@ =~= seq!['"'] + escaped(chars@.take(i as int + 1)));
        } else if is_vchar(ch, mt) || is_ws(ch) {
            push_char(&mut out, ch);
            assert(out@ =~= seq!['"'] + escaped(chars@.take(i as int + 1)));
        } else {
            assert(!quotable(input@[i as int], mt));
            return None;
        }
        proof {
            assert forall|j: int| 0 <= j < i + 1 implies quotable(
                #[trigger] chars@.take(i as int + 1)[j],
                mt,
            ) by {
                if j < i {
                    assert(chars@.take(i as int)[j] == chars@[j]);
                }
            }
        }
        i = i + 1;
    }
    assert(chars@.take(i as int) =~= chars@);
    push_char(&mut out, '"');
    assert(out@ =~= quoted(input@));
    Some(out)
}

/// Writes `input` as dot-atom-text if it is that, and as a quoted string
/// otherwise. There is no form for a text with a character that is
/// neither visible under `mt` nor white space. The empty text becomes the
/// empty quoted string.
pub fn quote_if_needed(input: &str, mt: MailType) -> (r: Option<String>)
    ensures
        match r {
            Some(t) => quoted_if_needed(input@, mt) == Some(t@),
            None => quoted_if_needed(input@, mt).is_none(),
        },
{
    let chars = chars_of(input);
    if is_dot_atom_text(&chars, mt) {
        return Some(input.to_owned());
    }
    quote(input, mt)
}

/// A quoted string is US-ASCII under a mail type that is not
/// internationalized.
pub proof fn lemma_quoted_ascii(s: Seq<char>, mt: MailType)
    requires
        !mt.is_internationalized(),
        all_quotable(s, mt),
    ensures
        is_ascii_chars(quoted(s)),
{
    lemma_escaped_ascii(s, mt);
    let t = quoted(s);
    assert forall|i: int| 0 <= i < t.len() implies '\0' <= #[trigger] t[i] <= '\u{7f}' by {
        if 0 < i < t.len() - 1 {
            assert(t[i] == escaped(s)[i - 1]);
        }
    }
}

} // verus!
