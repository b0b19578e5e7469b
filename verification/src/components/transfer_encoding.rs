//! The value of the `Content-Transfer-Encoding` header field.

use vstd::prelude::*;
use vstd::utf8::is_ascii_chars;
use crate::encoder::{text_pieces, EncodableInHeader, EncodingWriter, Piece};
use crate::error::{EncodingError, EncodingFailure};
use crate::mail_type::MailType;

verus! {

/// How a body is encoded for transfer.
#[derive(Debug, Copy, Clone, Eq, PartialEq, Hash, Structural)]
pub enum TransferEncoding {
    _7Bit,
    _8Bit,
    Binary,
    QuotedPrintable,
    Base64,
}

impl TransferEncoding {
    /// The name of the encoding as it stands in a header.
    pub open spec fn spec_repr(&self) -> Seq<char> {
        match *self {
            TransferEncoding::_7Bit => "7bit"@,
            TransferEncoding::_8Bit => "8bit"@,
            TransferEncoding::Binary => "binary"@,
            TransferEncoding::QuotedPrintable => "quoted-printable"@,
            TransferEncoding::Base64 => "base64"@,
        }
    }

    /// The name of the encoding as it stands in a header. It is US-ASCII.
    pub fn repr(&self) -> (r: &'static str)
        ensures
            r@ == self.spec_repr(),
            is_ascii_chars(r@),
    {
        proof {
            reveal_strlit("7bit");
            reveal_strlit("8bit");
            reveal_strlit("binary");
            reveal_strlit("quoted-printable");
            reveal_strlit("base64");
        }
        match *self {
            TransferEncoding::_7Bit => "7bit",
            TransferEncoding::_8Bit => "8bit",
            TransferEncoding::Binary => "binary",
            TransferEncoding::QuotedPrintable => "quoted-printable",
            TransferEncoding::Base64 => "base64",
        }
    }
}

impl EncodableInHeader for TransferEncoding {
    /// The name of the encoding, under every mail type.
    open spec fn pieces(&self, mt: MailType) -> Seq<Piece> {
        text_pieces(self.spec_repr())
    }

    open spec fn failure(&self, mt: MailType) -> Option<EncodingFailure> {
        None
    }

    fn encode(&self, handle: &mut EncodingWriter) -> (r: Result<(), EncodingError>) {
        handle.write_str(self.repr());
        Ok(())
    }
}

} // verus!
