use vstd::prelude::*;
use crate::error::RuntimeError;
use crate::face::{CardFace, faces_view, normalize, normalized};
use crate::line::LineCard;
use crate::page::{group_every_9, pages_of};
use crate::render::{document_text, render_document};

verus! {

/// How the lookup of one card went.
pub enum Lookup {
    /// The service answered, and this is the text of its answer.
    Body(String),
    /// The request did not complete.
    TransportFailed,
    /// The answer came, but its body could not be read as text.
    BodyUnreadable,
}

/// The response text of a lookup, or the error that ends the run.
pub open spec fn lookup_body(l: Lookup) -> Result<Seq<char>, RuntimeError> {
    match l {
        Lookup::Body(b) => Ok(b@),
        Lookup::TransportFailed => Err(RuntimeError::WebRequestError),
        Lookup::BodyUnreadable => Err(RuntimeError::WebRequestBodyParseError),
    }
}

/// The faces gathered so far, in input order.
pub struct Deck {
    faces: Vec<CardFace>,
}

impl View for Deck {
    type V = Seq<Seq<char>>;

    closed spec fn view(&self) -> Seq<Seq<char>> {
        faces_view(self.faces@)
    }
}

impl Deck {
    pub fn new() -> (r: Deck)
        ensures
            r@ == Seq::<Seq<char>>::empty(),
    {
        let r = Deck { faces: Vec::new() };
        proof {
            assert(r@ =~= Seq::<Seq<char>>::empty());
        }
        r
    }

    pub fn len(&self) -> (r: usize)
        ensures
            r == self@.len(),
    {
        self.faces.len()
    }

    /// Adds the faces that a card's response gives for its count; on error
    /// nothing is added.
    pub fn add_card(&mut self, card: &LineCard, response: &String) -> (r: Result<(), RuntimeError>)
        ensures
            match normalized(response@, card.count) {
                Ok(fs) => r is Ok && final(self)@ == old(self)@ + fs,
                Err(e) => r == Err::<(), RuntimeError>(e) && final(self)@ == old(self)@,
            },
    {
        match normalize(response, card.count) {
            Ok(mut faces) => {
                let ghost before = self.faces@;
                let ghost added = faces@;
                self.faces.append(&mut faces);
                proof {
                    assert(faces_view(self.faces@) =~= faces_view(before) + faces_view(added));
                }
                Ok(())
            },
            Err(e) => Err(e),
        }
    }

    /// Takes the outcome of a card's lookup: a failed lookup ends the run
    /// with its error, an answer is read as by `add_card`.
    pub fn take_lookup(&mut self, card: &LineCard, lookup: Lookup) -> (r: Result<(), RuntimeError>)
        ensures
            match lookup_body(lookup) {
                Err(e) => r == Err::<(), RuntimeError>(e) && final(self)@ == old(self)@,
                Ok(body) => match normalized(body, card.count) {
                    Ok(fs) => r is Ok && final(self)@ == old(self)@ + fs,
                    Err(e) => r == Err::<(), RuntimeError>(e) && final(self)@ == old(self)@,
                },
            },
    {
        match lookup {
            Lookup::Body(b) => self.add_card(card, &b),
            Lookup::TransportFailed => Err(RuntimeError::WebRequestError),
            Lookup::BodyUnreadable => Err(RuntimeError::WebRequestBodyParseError),
        }
    }

    /// The printable document: the faces cut into pages of nine.
    pub fn into_document(self) -> (r: String)
        ensures
            r@ == document_text(pages_of(self@)),
    {
        let mut faces = self.faces;
        let pages = group_every_9(&mut faces);
        render_document(&pages)
    }
}

} // verus!
