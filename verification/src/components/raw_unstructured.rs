//! Unstructured text that is written as it is.

use vstd::prelude::*;
use vstd::std_specs::cmp::PartialEqSpecImpl;
use crate::data::Input;
use crate::encoder::{text_pieces, EncodableInHeader, EncodingWriter, Piece};
use crate::error::{ComponentError, EncodingError, EncodingFailure};
use crate::grammar::{is_vchar, spec_is_vchar};
use crate::mail_type::MailType;
use crate::text::chars_of;

verus! {

/// Whether every character of `s` is visible under `mt`.
pub open spec fn all_vchar(s: Seq<char>, mt: MailType) -> bool {
    forall|i: int| 0 <= i < s.len() ==> spec_is_vchar(#[trigger] s[i], mt)
}

/// An unstructured header field that takes any text but writes only what
/// needs no encoding: the text must be made of visible characters when it
/// is written. It marks no place for folding.
#[derive(Debug)]
pub struct RawUnstructured {
    text: Input,
}

impl View for RawUnstructured {
    type V = Seq<char>;

    closed spec fn view(&self) -> Seq<char> {
        self.text@
    }
}

impl Clone for RawUnstructured {
    fn clone(&self) -> (r: RawUnstructured)
        ensures
            r@ == self@,
    {
        RawUnstructured { text: self.text.clone() }
    }
}

impl PartialEq for RawUnstructured {
    fn eq(&self, other: &RawUnstructured) -> (r: bool) {
        self.text == other.text
    }
}

impl PartialEqSpecImpl for RawUnstructured {
    open spec fn obeys_eq_spec() -> bool {
        true
    }

    open spec fn eq_spec(&self, other: &RawUnstructured) -> bool {
        self@ == other@
    }
}

impl RawUnstructured {
    pub fn as_str(&self) -> (r: &str)
        ensures
            r@ == self@,
    {
        self.text.as_str()
    }

    /// Takes any input.
    pub fn from_input(val: Input) -> (r: RawUnstructured)
        ensures
            r@ == val@,
    {
        RawUnstructured { text: val }
    }

    /// Takes any text.
    pub fn try_from(val: &str) -> (r: Result<RawUnstructured, ComponentError>)
        ensures
            r matches Ok(u) && u@ == val@,
    {
        Ok(RawUnstructured { text: Input::from_str(val) })
    }

    /// Gives the input back.
    pub fn into_input(self) -> (r: Input)
        ensures
            r@ == self@,
    {
        self.text
    }

    /// The text as a `String` of its own.
    pub fn into_string(self) -> (r: String)
        ensures
            r@ == self@,
    {
        self.text.into_string()
    }
}

impl EncodableInHeader for RawUnstructured {
    /// The text, if all of it is visible under the mail type; nothing if
    /// not.
    open spec fn pieces(&self, mt: MailType) -> Seq<Piece> {
        if all_vchar(self@, mt) {
            text_pieces(self@)
        } else {
            Seq::empty()
        }
    }

    open spec fn failure(&self, mt: MailType) -> Option<EncodingFailure> {
        if all_vchar(self@, mt) {
            None
        } else {
            Some(EncodingFailure::InvalidRawUnstructured(self@, mt))
        }
    }

    fn encode(&self, handle: &mut EncodingWriter) -> (r: Result<(), EncodingError>) {
        let mail_type = handle.mail_type();
        let chars = chars_of(self.text.as_str());
        let mut i: usize = 0;
        while i < chars.len()
            invariant
                chars@ == self@,
                *handle == *old(handle),
                mail_type == handle.spec_mail_type(),
                0 <= i <= chars.len(),
                forall|j: int| 0 <= j < i ==> spec_is_vchar(#[trigger] chars@[j], mail_type),
            decreases chars.len() - i,
        {
            if !is_vchar(chars[i], mail_type) {
                assert(!spec_is_vchar(self@[i as int], mail_type));
                assert(!all_vchar(self@, mail_type));
                assert(handle@ + Seq::<Piece>::empty() =~= handle@);
                let input = self.text.as_str().to_owned();
                return Err(
                    EncodingError::Component(
                        ComponentError::InvalidRawUnstructured(input, mail_type),
                    ),
                );
            }
            i = i + 1;
        }
        proof {
            if !mail_type.is_internationalized() {
                assert forall|j: int| 0 <= j < self@.len() implies '\0' <= #[trigger] self@[j]
                    <= '\u{7f}' by {
                    assert(spec_is_vchar(self@[j], mail_type));
                }
            }
        }
        handle.write_str_unchecked(self.text.as_str());
        Ok(())
    }
}

} // verus!
