//! Lists of one or more mailboxes.

use vstd::prelude::*;
use vec1::{Size0Error, Vec1};
use crate::components::mailbox::{same_mailbox, Mailbox};
use crate::encoder::{
    encode_each, encodes_alike, lemma_seq_encodes_alike, seq_failure, seq_pieces,
    EncodableInHeader, EncodingWriter, Piece, Separator,
};
use crate::error::{ComponentError, EncodingError, EncodingFailure};
use crate::mail_type::MailType;

verus! {

/// The mailboxes that a `Vec1` of them holds, in order.
pub uninterp spec fn mailboxes(list: Vec1<Mailbox>) -> Seq<Mailbox>;

/// `Vec1::try_from_vec` takes the vector over as it is, unless it is
/// empty: then it fails.
#[verifier::external_body]
fn mailboxes_from_vec(boxes: Vec<Mailbox>) -> (r: Result<Vec1<Mailbox>, Size0Error>)
    ensures
        match r {
            Ok(list) => boxes@.len() > 0 && mailboxes(list) == boxes@,
            Err(_) => boxes@.len() == 0,
        },
{
    Vec1::try_from_vec(boxes)
}

/// `Vec1::as_vec` lends the vector inside, which is never empty.
#[verifier::external_body]
fn mailboxes_as_vec(list: &Vec1<Mailbox>) -> (r: &Vec<Mailbox>)
    ensures
        r@ == mailboxes(*list),
        r@.len() > 0,
{
    list.as_vec()
}

/// One or more mailboxes.
#[derive(Debug)]
pub struct MailboxList(pub Vec1<Mailbox>);

impl View for MailboxList {
    type V = Seq<Mailbox>;

    open spec fn view(&self) -> Seq<Mailbox> {
        mailboxes(self.0)
    }
}

impl Clone for MailboxList {
    fn clone(&self) -> (r: MailboxList)
        ensures
            r@.len() == self@.len(),
            forall|i: int|
                0 <= i < self@.len() ==> same_mailbox(#[trigger] r@[i], self@[i]) && encodes_alike(
                    r@[i],
                    self@[i],
                ),
            encodes_alike(r, *self),
    {
        let boxes = mailboxes_as_vec(&self.0);
        let mut copies: Vec<Mailbox> = Vec::new();
        let mut i: usize = 0;
        while i < boxes.len()
            invariant
                0 <= i <= boxes.len(),
                copies.len() == i,
                forall|j: int|
                    0 <= j < i ==> same_mailbox(#[trigger] copies@[j], boxes@[j]) && encodes_alike(
                        copies@[j],
                        boxes@[j],
                    ),
            decreases boxes.len() - i,
        {
            copies.push(boxes[i].clone());
            i = i + 1;
        }
        let r = match mailboxes_from_vec(copies) {
            Ok(list) => MailboxList(list),
            Err(_) => vstd::pervasive::unreached(),
        };
        proof {
            assert forall|mt: MailType| #[trigger]
                r.pieces(mt) == self.pieces(mt) && r.failure(mt) == self.failure(mt) by {
                lemma_seq_encodes_alike(r@, self@, Separator::Comma.pieces(), mt);
            }
            assert(encodes_alike(r, *self));
        }
        r
    }
}

impl MailboxList {
    /// A list of the given mailboxes, of which there must be one at
    /// least.
    pub fn try_from_vec(boxes: Vec<Mailbox>) -> (r: Result<MailboxList, ComponentError>)
        ensures
            match r {
                Ok(list) => boxes@.len() > 0 && list@ == boxes@,
                Err(e) => boxes@.len() == 0 && e == ComponentError::MailboxListSize0,
            },
    {
        match mailboxes_from_vec(boxes) {
            Ok(list) => Ok(MailboxList(list)),
            Err(_) => Err(ComponentError::MailboxListSize0),
        }
    }

    /// A list of the one mailbox.
    pub fn from_single(mailbox: Mailbox) -> (r: MailboxList)
        ensures
            r@ == seq![mailbox],
    {
        let mut boxes: Vec<Mailbox> = Vec::new();
        boxes.push(mailbox);
        assert(boxes@ =~= seq![mailbox]);
        match mailboxes_from_vec(boxes) {
            Ok(list) => MailboxList(list),
            Err(_) => vstd::pervasive::unreached(),
        }
    }

    /// How many mailboxes the list holds: one at least.
    pub fn len(&self) -> (r: usize)
        ensures
            r == self@.len(),
            r > 0,
    {
        mailboxes_as_vec(&self.0).len()
    }

    /// The mailboxes, in order.
    pub fn as_vec(&self) -> (r: &Vec<Mailbox>)
        ensures
            r@ == self@,
            r@.len() > 0,
    {
        mailboxes_as_vec(&self.0)
    }
}

impl EncodableInHeader for MailboxList {
    /// The mailboxes in order, with a comma and a folding blank between
    /// each two.
    open spec fn pieces(&self, mt: MailType) -> Seq<Piece> {
        seq_pieces(self@, Separator::Comma.pieces(), mt)
    }

    open spec fn failure(&self, mt: MailType) -> Option<EncodingFailure> {
        seq_failure(self@, mt)
    }

    fn encode(&self, handle: &mut EncodingWriter) -> (r: Result<(), EncodingError>) {
        encode_each(mailboxes_as_vec(&self.0), Separator::Comma, handle)
    }
}

} // verus!
