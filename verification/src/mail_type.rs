use vstd::prelude::*;

verus! {

/// What the bytes of an encoded mail may legally contain.
#[derive(Clone, Copy, Debug, PartialEq, Eq, Hash, Structural)]
pub enum MailType {
    /// 7-bit US-ASCII only.
    Ascii,
    /// 8-bit clean bodies, headers still US-ASCII.
    Mime8BitEnabled,
    /// UTF-8 is allowed in headers (RFC 6532).
    Internationalized,
}

impl MailType {
    pub open spec fn spec_is_internationalized(&self) -> bool {
        *self == MailType::Internationalized
    }

    /// True only for `Internationalized`.
    #[verifier::when_used_as_spec(spec_is_internationalized)]
    pub fn is_internationalized(&self) -> (r: bool)
        ensures
            r == (*self == MailType::Internationalized),
    {
        match self {
            MailType::Internationalized => true,
            _ => false,
        }
    }
}

} // verus!
