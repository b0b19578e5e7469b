//! A point in time, as the `Date` header field holds it.

use vstd::prelude::*;
use vstd::utf8::is_ascii_chars;
use crate::encoder::{text_pieces, EncodableInHeader, EncodingWriter, Piece};
use crate::error::{EncodingError, EncodingFailure};
use crate::mail_type::MailType;

verus! {

/// The first second that RFC 2822 can write: the start of the year 0.
pub const FIRST_SECOND: i64 = -62_167_219_200;

/// The last second that RFC 2822 can write: the end of the year 9999.
pub const LAST_SECOND: i64 = 253_402_300_799;

/// The date and time, in UTC, that `chrono` writes for a second of Unix
/// time in the form of RFC 2822, such as `Tue, 1 Jul 2003 10:52:37 +0000`.
pub uninterp spec fn rfc2822_form(secs: int) -> Seq<char>;

/// `chrono::DateTime::to_rfc2822`, on the UTC date and time that
/// `chrono::DateTime::from_timestamp` makes of `secs`. There is such a
/// date and time for every second of the years 0 to 9999, and for these
/// years, and no others, it can be written in the form of RFC 2822. The
/// text depends on the second alone, so it has a name here.
#[verifier::external_body]
fn to_rfc2822(secs: i64) -> (r: String)
    requires
        FIRST_SECOND <= secs <= LAST_SECOND,
    ensures
        r@ == rfc2822_form(secs as int),
{
    chrono::DateTime::from_timestamp(secs, 0).unwrap().to_rfc2822()
}

/// The name of the date form, as errors give it.
pub open spec fn rfc2822_name() -> Seq<char> {
    "rfc2822"@
}

/// Writes the text of a date. Text that is not US-ASCII is an error, and
/// nothing is written.
pub fn write_date_text(handle: &mut EncodingWriter, text: &str) -> (r: Result<(), EncodingError>)
    ensures
        final(handle).spec_mail_type() == old(handle).spec_mail_type(),
        final(handle).committed() == old(handle).committed(),
        match r {
            Ok(_) => is_ascii_chars(text@) && final(handle)@ == old(handle)@ + text_pieces(text@),
            Err(e) => !is_ascii_chars(text@) && final(handle)@ == old(handle)@ && e@
                == EncodingFailure::NotEncodable(rfc2822_name()),
        },
{
    if text.is_ascii() {
        handle.write_str(text);
        Ok(())
    } else {
        Err(EncodingError::NotEncodable { encoding: "rfc2822" })
    }
}

/// A second of Unix time that falls into the years 0 to 9999.
#[derive(Debug, Clone, Copy, PartialEq, Eq, Hash)]
pub struct DateTime {
    secs: i64,
}

impl View for DateTime {
    type V = int;

    closed spec fn view(&self) -> int {
        self.secs as int
    }
}

impl DateTime {
    #[verifier::type_invariant]
    spec fn inv(&self) -> bool {
        FIRST_SECOND <= self.secs <= LAST_SECOND
    }

    /// The point in time `secs` seconds after the start of 1970 in UTC,
    /// or before it if `secs` is negative. There is none outside the
    /// years 0 to 9999.
    pub fn from_timestamp(secs: i64) -> (r: Option<DateTime>)
        ensures
            r.is_some() == (FIRST_SECOND <= secs <= LAST_SECOND),
            r matches Some(dt) ==> dt@ == secs,
    {
        if FIRST_SECOND <= secs && secs <= LAST_SECOND {
            Some(DateTime { secs })
        } else {
            None
        }
    }

    /// The seconds since the start of 1970 in UTC.
    pub fn timestamp(&self) -> (r: i64)
        ensures
            r == self@,
            FIRST_SECOND <= r <= LAST_SECOND,
    {
        proof {
            use_type_invariant(self);
        }
        self.secs
    }
}

impl EncodableInHeader for DateTime {
    /// The date and time in the form of RFC 2822.
    open spec fn pieces(&self, mt: MailType) -> Seq<Piece> {
        if is_ascii_chars(rfc2822_form(self@)) {
            text_pieces(rfc2822_form(self@))
        } else {
            Seq::empty()
        }
    }

    open spec fn failure(&self, mt: MailType) -> Option<EncodingFailure> {
        if is_ascii_chars(rfc2822_form(self@)) {
            None
        } else {
            Some(EncodingFailure::NotEncodable(rfc2822_name()))
        }
    }

    fn encode(&self, handle: &mut EncodingWriter) -> (r: Result<(), EncodingError>) {
        proof {
            use_type_invariant(self);
        }
        let text = to_rfc2822(self.secs);
        let res = write_date_text(handle, text.as_str());
        assert(handle@ =~= old(handle)@ + self.pieces(old(handle).spec_mail_type()));
        res
    }
}

} // verus!
