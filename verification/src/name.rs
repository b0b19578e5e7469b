//! Header field names.

use vstd::prelude::*;
use crate::text::{chars_of, str_eq};

verus! {

/// Whether the character at `i` may stand there in a header name: a word
/// starts with a capital letter or a digit and goes on with lower case
/// letters and digits; `-` joins words.
pub open spec fn name_char_ok(s: Seq<char>, i: int) -> bool {
    if i == 0 || s[i - 1] == '-' {
        ('A' <= s[i] <= 'Z') || ('0' <= s[i] <= '9')
    } else {
        ('a' <= s[i] <= 'z') || ('0' <= s[i] <= '9') || s[i] == '-'
    }
}

/// A valid header name is made of words joined by single `-`, such as
/// `Message-Id`.
pub open spec fn valid_header_name(s: Seq<char>) -> bool {
    &&& s.len() > 0
    &&& s[s.len() - 1] != '-'
    &&& forall|i: int| 0 <= i < s.len() ==> #[trigger] name_char_ok(s, i)
}

/// The name of a header field, such as `Subject` or `Message-Id`.
#[derive(Debug, Clone, Copy, PartialEq, Eq, Hash)]
pub struct HeaderName {
    name: &'static str,
}

impl View for HeaderName {
    type V = Seq<char>;

    closed spec fn view(&self) -> Seq<char> {
        self.name@
    }
}

impl HeaderName {
    /// Accepts `name` exactly if it is a valid header name.
    pub fn new(name: &'static str) -> (r: Option<HeaderName>)
        ensures
            r.is_some() == valid_header_name(name@),
            r matches Some(n) ==> n@ == name@,
    {
        let chars = chars_of(name);
        let n: usize = chars.len();
        if n == 0 {
            return None;
        }
        let mut at_word_start = true;
        let mut i: usize = 0;
        while i < n
            invariant
                chars@ == name@,
                n == chars.len(),
                0 <= i <= n,
                at_word_start == (i == 0 || chars@[i - 1] == '-'),
                forall|j: int| 0 <= j < i ==> #[trigger] name_char_ok(chars@, j),
            decreases n - i,
        {
            let ch = chars[i];
            let ok = if at_word_start {
                ('A' <= ch && ch <= 'Z') || ('0' <= ch && ch <= '9')
            } else {
                ('a' <= ch && ch <= 'z') || ('0' <= ch && ch <= '9') || ch == '-'
            };
            if !ok {
                assert(!name_char_ok(chars@, i as int));
                return None;
            }
            assert(name_char_ok(chars@, i as int));
            at_word_start = ch == '-';
            i = i + 1;
        }
        if chars[n - 1] == '-' {
            return None;
        }
        Some(HeaderName { name })
    }

    /// Takes `name` as it is. The caller vouches that it is a header name.
    pub fn from_ascii_unchecked(name: &'static str) -> (r: HeaderName)
        ensures
            r@ == name@,
    {
        HeaderName { name }
    }

    pub fn as_str(&self) -> (r: &'static str)
        ensures
            r@ == self@,
    {
        self.name
    }

    /// Whether two names are the same text.
    pub fn same_as(&self, other: &HeaderName) -> (r: bool)
        ensures
            r == (self@ == other@),
    {
        str_eq(self.name, other.name)
    }
}

} // verus!
