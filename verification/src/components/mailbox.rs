//! Mailboxes: an email address, and maybe the name to display for it.

use vstd::prelude::*;
use vstd::std_specs::convert::FromSpecImpl;
use crate::components::email::Email;
use crate::components::phrase::{word_texts, Phrase};
use crate::encoder::{encodes_alike, EncodableInHeader, EncodingWriter, Piece, Separator};
use crate::error::{ComponentError, EncodingError, EncodingFailure};
use crate::mail_type::MailType;

verus! {

/// Stands where a display name would, to say that there is none.
#[derive(Debug, Clone, Copy, PartialEq, Eq)]
pub struct NoDisplayName;

/// An email address with the name to display for it, if it has one.
#[derive(Debug, PartialEq)]
pub struct Mailbox {
    pub display_name: Option<Phrase>,
    pub email: Email,
}

/// Two mailboxes hold the same if they show the same name, word by word,
/// or both none, and hold the same address.
pub open spec fn same_mailbox(a: Mailbox, b: Mailbox) -> bool {
    &&& match (a.display_name, b.display_name) {
        (Some(x), Some(y)) => word_texts(x@) == word_texts(y@),
        (None, None) => true,
        _ => false,
    }
    &&& a.email.local_part@ == b.email.local_part@
    &&& a.email.domain@ == b.email.domain@
    &&& a.email.domain.tagged_ascii() == b.email.domain.tagged_ascii()
}

impl Clone for Mailbox {
    fn clone(&self) -> (r: Mailbox)
        ensures
            same_mailbox(r, *self),
            encodes_alike(r, *self),
    {
        let display_name = match &self.display_name {
            Some(name) => Some(name.clone()),
            None => None,
        };
        let email = self.email.clone();
        proof {
            assert(encodes_alike(email, self.email));
            if self.display_name.is_some() {
                assert(encodes_alike(display_name.unwrap(), self.display_name.unwrap()));
            }
        }
        let r = Mailbox { display_name, email };
        proof {
            assert forall|mt: MailType| #[trigger]
                r.pieces(mt) == self.pieces(mt) && r.failure(mt) == self.failure(mt) by {
                assert(email.pieces(mt) == self.email.pieces(mt));
                if self.display_name.is_some() {
                    assert(display_name.unwrap().pieces(mt) == self.display_name.unwrap().pieces(
                        mt,
                    ));
                }
            }
            assert(encodes_alike(r, *self));
        }
        r
    }
}

impl Mailbox {
    /// Gives the mailbox a display name if it has none: asks `default_fn`
    /// for one, with the email of the mailbox. A mailbox with a name is
    /// left as it is and `default_fn` is not called. Where `default_fn`
    /// gives no name, the mailbox stays without one; where it fails, its
    /// error is handed on and the mailbox is left as it is.
    pub fn auto_gen_name<E, F>(&mut self, default_fn: F) -> (r: Result<(), E>) where
        F: FnOnce(&Email) -> Result<Option<Phrase>, E>,

        requires
            old(self).display_name.is_none() ==> default_fn.requires((&old(self).email,)),
        ensures
            final(self).email == old(self).email,
            old(self).display_name.is_some() ==> r.is_ok() && final(self).display_name
                == old(self).display_name,
            old(self).display_name.is_none() ==> match r {
                Ok(_) => default_fn.ensures((&old(self).email,), Ok(final(self).display_name)),
                Err(e) => default_fn.ensures((&old(self).email,), Err(e))
                    && final(self).display_name.is_none(),
            },
    {
        if self.display_name.is_none() {
            let default_name = default_fn(&self.email)?;
            self.display_name = default_name;
        }
        Ok(())
    }

    /// The mailbox with a display name, as `auto_gen_name` gives it one.
    pub fn with_default_name<E, F>(self, default_fn: F) -> (r: Result<Mailbox, E>) where
        F: FnOnce(&Email) -> Result<Option<Phrase>, E>,

        requires
            self.display_name.is_none() ==> default_fn.requires((&self.email,)),
        ensures
            self.display_name.is_some() ==> r == Ok::<Mailbox, E>(self),
            self.display_name.is_none() ==> match r {
                Ok(m) => m.email == self.email && default_fn.ensures(
                    (&self.email,),
                    Ok(m.display_name),
                ),
                Err(e) => default_fn.ensures((&self.email,), Err(e)),
            },
    {
        let mut this = self;
        this.auto_gen_name(default_fn)?;
        Ok(this)
    }

    /// The mailbox of the email that `email` spells, without a display
    /// name.
    pub fn try_from(email: &str) -> (r: Result<Mailbox, ComponentError>)
        ensures
            r matches Ok(m) ==> m.display_name.is_none(),
            Email::try_from.ensures(
                (email,),
                match r {
                    Ok(m) => Ok(m.email),
                    Err(e) => Err(e),
                },
            ),
    {
        Ok(Mailbox::from(Email::try_from(email)?))
    }

    /// The mailbox of the email that the second text spells, without a
    /// display name.
    pub fn try_from_unnamed(pair: (NoDisplayName, &str)) -> (r: Result<Mailbox, ComponentError>)
        ensures
            r matches Ok(m) ==> m.display_name.is_none(),
            Email::try_from.ensures(
                (pair.1,),
                match r {
                    Ok(m) => Ok(m.email),
                    Err(e) => Err(e),
                },
            ),
    {
        Ok(Mailbox { display_name: None, email: Email::try_from(pair.1)? })
    }

    /// The mailbox with the display name that the first text spells and
    /// the email that the second spells. The name is looked at first.
    pub fn try_from_pair(pair: (&str, &str)) -> (r: Result<Mailbox, ComponentError>)
        ensures
            match r {
                Ok(m) => Phrase::try_from.ensures((pair.0,), Ok(m.display_name.unwrap()))
                    && m.display_name.is_some() && Email::try_from.ensures(
                    (pair.1,),
                    Ok(m.email),
                ),
                Err(e) => Phrase::try_from.ensures((pair.0,), Err(e)) || (exists|p: Phrase|
                    Phrase::try_from.ensures((pair.0,), Ok(p)) && Email::try_from.ensures(
                        (pair.1,),
                        Err(e),
                    )),
            },
    {
        let display_name = Phrase::try_from(pair.0)?;
        let email = Email::try_from(pair.1)?;
        Ok(Mailbox { display_name: Some(display_name), email })
    }
}

impl From<Email> for Mailbox {
    fn from(email: Email) -> (r: Mailbox) {
        Mailbox { email, display_name: None }
    }
}

impl FromSpecImpl<Email> for Mailbox {
    open spec fn obeys_from_spec() -> bool {
        true
    }

    open spec fn from_spec(email: Email) -> Mailbox {
        Mailbox { email, display_name: None }
    }
}

impl From<(Option<Phrase>, Email)> for Mailbox {
    fn from(pair: (Option<Phrase>, Email)) -> (r: Mailbox) {
        let (display_name, email) = pair;
        Mailbox { display_name, email }
    }
}

impl FromSpecImpl<(Option<Phrase>, Email)> for Mailbox {
    open spec fn obeys_from_spec() -> bool {
        true
    }

    open spec fn from_spec(pair: (Option<Phrase>, Email)) -> Mailbox {
        Mailbox { display_name: pair.0, email: pair.1 }
    }
}

impl EncodableInHeader for Mailbox {
    /// The display name and a folding blank, if there is a name; then the
    /// email between `<` and `>`, always. What fails ends what is written.
    open spec fn pieces(&self, mt: MailType) -> Seq<Piece> {
        let name = match self.display_name {
            Some(name) => if name.failure(mt).is_some() {
                name.pieces(mt)
            } else {
                name.pieces(mt) + Separator::Blank.pieces()
            },
            None => Seq::empty(),
        };
        if self.name_failure(mt).is_some() {
            name
        } else if self.email.failure(mt).is_some() {
            name + seq![Some('<')] + self.email.pieces(mt)
        } else {
            name + seq![Some('<')] + self.email.pieces(mt) + seq![Some('>')]
        }
    }

    open spec fn failure(&self, mt: MailType) -> Option<EncodingFailure> {
        if self.name_failure(mt).is_some() {
            self.name_failure(mt)
        } else {
            self.email.failure(mt)
        }
    }

    fn encode(&self, handle: &mut EncodingWriter) -> (r: Result<(), EncodingError>) {
        let ghost mt = handle.spec_mail_type();
        match &self.display_name {
            Some(display_name) => {
                display_name.encode(handle)?;
                handle.write_fws();
                assert(handle@ =~= old(handle)@ + (display_name.pieces(mt)
                    + Separator::Blank.pieces()));
            },
            None => {
                assert(handle@ =~= old(handle)@ + Seq::<Piece>::empty());
            },
        }
        let ghost name = handle@.subrange(old(handle)@.len() as int, handle@.len() as int);
        assert(handle@ =~= old(handle)@ + name);
        handle.write_char('<');
        let res = self.email.encode(handle);
        if res.is_err() {
            assert(handle@ =~= old(handle)@ + (name + seq![Some('<')] + self.email.pieces(mt)));
            return res;
        }
        handle.write_char('>');
        assert(handle@ =~= old(handle)@ + (name + seq![Some('<')] + self.email.pieces(mt)
            + seq![Some('>')]));
        Ok(())
    }
}

impl Mailbox {
    /// Why the display name cannot be written, if there is one and it
    /// cannot.
    pub open spec fn name_failure(&self, mt: MailType) -> Option<EncodingFailure> {
        match self.display_name {
            Some(name) => name.failure(mt),
            None => None,
        }
    }
}

} // verus!
