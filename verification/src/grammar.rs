//! Character classes of RFC 5322, widened by RFC 6532 where the mail type
//! is internationalized.

use vstd::prelude::*;
use crate::mail_type::MailType;

verus! {

/// US-ASCII: code points below 128.
pub open spec fn spec_is_ascii(ch: char) -> bool {
    '\0' <= ch <= '\u{7f}'
}

/// WSP: space or horizontal tab.
pub open spec fn spec_is_ws(ch: char) -> bool {
    ch == ' ' || ch == '\t'
}

/// The printable US-ASCII characters `!` to `~`.
pub open spec fn spec_is_ascii_vchar(ch: char) -> bool {
    '!' <= ch <= '~'
}

/// VCHAR: printable US-ASCII, and any non-ASCII character in an
/// internationalized mail.
pub open spec fn spec_is_vchar(ch: char, mt: MailType) -> bool {
    spec_is_ascii_vchar(ch) || (mt == MailType::Internationalized && !spec_is_ascii(ch))
}

/// The specials of RFC 5322.
pub open spec fn spec_is_special(ch: char) -> bool {
    ch == '(' || ch == ')' || ch == '<' || ch == '>' || ch == '[' || ch == ']' || ch == ':'
        || ch == ';' || ch == '@' || ch == '\\' || ch == ',' || ch == '.' || ch == '"'
}

/// atext: a visible character that is no special.
pub open spec fn spec_is_atext(ch: char, mt: MailType) -> bool {
    spec_is_vchar(ch, mt) && !spec_is_special(ch)
}

/// dtext: printable US-ASCII but `[`, `\` and `]`, and any non-ASCII
/// character in an internationalized mail.
pub open spec fn spec_is_dtext(ch: char, mt: MailType) -> bool {
    ('!' <= ch <= 'Z') || ('^' <= ch <= '~') || (mt == MailType::Internationalized
        && !spec_is_ascii(ch))
}

/// qtext: printable US-ASCII but `"` and `\`, and any non-ASCII character
/// in an internationalized mail.
pub open spec fn spec_is_qtext(ch: char, mt: MailType) -> bool {
    spec_is_vchar(ch, mt) && ch != '"' && ch != '\\'
}

#[verifier::when_used_as_spec(spec_is_ascii)]
pub fn is_ascii(ch: char) -> (r: bool)
    ensures
        r == spec_is_ascii(ch),
{
    ch <= '\u{7f}'
}

#[verifier::when_used_as_spec(spec_is_ws)]
pub fn is_ws(ch: char) -> (r: bool)
    ensures
        r == spec_is_ws(ch),
{
    ch == ' ' || ch == '\t'
}

#[verifier::when_used_as_spec(spec_is_ascii_vchar)]
pub fn is_ascii_vchar(ch: char) -> (r: bool)
    ensures
        r == spec_is_ascii_vchar(ch),
{
    '!' <= ch && ch <= '~'
}

#[verifier::when_used_as_spec(spec_is_vchar)]
pub fn is_vchar(ch: char, mt: MailType) -> (r: bool)
    ensures
        r == spec_is_vchar(ch, mt),
{
    is_ascii_vchar(ch) || (mt.is_internationalized() && !is_ascii(ch))
}

#[verifier::when_used_as_spec(spec_is_special)]
pub fn is_special(ch: char) -> (r: bool)
    ensures
        r == spec_is_special(ch),
{
    match ch {
        '(' | ')' | '<' | '>' | '[' | ']' | ':' | ';' | '@' | '\\' | ',' | '.' | '"' => true,
        _ => false,
    }
}

#[verifier::when_used_as_spec(spec_is_atext)]
pub fn is_atext(ch: char, mt: MailType) -> (r: bool)
    ensures
        r == spec_is_atext(ch, mt),
{
    is_vchar(ch, mt) && !is_special(ch)
}

#[verifier::when_used_as_spec(spec_is_dtext)]
pub fn is_dtext(ch: char, mt: MailType) -> (r: bool)
    ensures
        r == spec_is_dtext(ch, mt),
{
    ('!' <= ch && ch <= 'Z') || ('^' <= ch && ch <= '~') || (mt.is_internationalized()
        && !is_ascii(ch))
}

#[verifier::when_used_as_spec(spec_is_qtext)]
pub fn is_qtext(ch: char, mt: MailType) -> (r: bool)
    ensures
        r == spec_is_qtext(ch, mt),
{
    is_vchar(ch, mt) && ch != '"' && ch != '\\'
}

/// dot-atom-text: one or more runs of atext, joined by single dots. No dot
/// stands first or last, and no two dots stand side by side.
pub open spec fn spec_is_dot_atom_text(s: Seq<char>, mt: MailType) -> bool {
    &&& s.len() > 0
    &&& forall|i: int| 0 <= i < s.len() ==> #[trigger] dot_atom_char_ok(s, i, mt)
}

/// Whether the character at `i` may stand there in dot-atom-text: atext
/// anywhere, a dot only between two characters that are no dots.
pub open spec fn dot_atom_char_ok(s: Seq<char>, i: int, mt: MailType) -> bool {
    if s[i] == '.' {
        0 < i < s.len() - 1 && s[i - 1] != '.'
    } else {
        spec_is_atext(s[i], mt)
    }
}

/// Whether `chars` is dot-atom-text under `mt`.
pub fn is_dot_atom_text(chars: &Vec<char>, mt: MailType) -> (r: bool)
    ensures
        r == spec_is_dot_atom_text(chars@, mt),
{
    let n: usize = chars.len();
    if n == 0 {
        return false;
    }
    let mut dot_allowed = false;
    let mut i: usize = 0;
    while i < n
        invariant
            n == chars.len(),
            0 <= i <= n,
            dot_allowed == (i > 0 && chars@[i - 1] != '.'),
            forall|j: int| 0 <= j < i ==> #[trigger] dot_atom_char_ok(chars@, j, mt),
        decreases n - i,
    {
        let ch = chars[i];
        if ch == '.' {
            if !dot_allowed || i + 1 == n {
                assert(!dot_atom_char_ok(chars@, i as int, mt));
                return false;
            }
            assert(dot_atom_char_ok(chars@, i as int, mt));
            dot_allowed = false;
        } else if is_atext(ch, mt) {
            assert(dot_atom_char_ok(chars@, i as int, mt));
            dot_allowed = true;
        } else {
            assert(!dot_atom_char_ok(chars@, i as int, mt));
            return false;
        }
        i = i + 1;
    }
    true
}

/// Every character class widens, and none narrows, when the mail type
/// becomes internationalized.
pub proof fn lemma_classes_widen(ch: char, mt: MailType)
    ensures
        spec_is_vchar(ch, mt) ==> spec_is_vchar(ch, MailType::Internationalized),
        spec_is_atext(ch, mt) ==> spec_is_atext(ch, MailType::Internationalized),
        spec_is_dtext(ch, mt) ==> spec_is_dtext(ch, MailType::Internationalized),
        spec_is_qtext(ch, mt) ==> spec_is_qtext(ch, MailType::Internationalized),
{
}

} // verus!
