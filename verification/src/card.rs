//! The editable entities: cards and labels.
//!
//! A card's `name` and `description` are the fields the edit session keeps
//! synchronized; identifier, closed flag and URL ride along unchanged.
//! Textual fields are held as bytes, so the codec and the session machine
//! can state their contracts over byte sequences.

use crate::bytes::{append_bytes, clone_bytes};
use crate::codec::{delimiter_of, render_spec, DELIMITER, NEWLINE};
use vstd::prelude::*;

verus! {

/// A remote record addressable by an identifier.
pub struct Card {
    pub id: Vec<u8>,
    pub name: Vec<u8>,
    pub desc: Vec<u8>,
    pub closed: bool,
    pub url: Vec<u8>,
}

/// The mathematical value of a [`Card`].
pub struct CardView {
    pub id: Seq<u8>,
    pub name: Seq<u8>,
    pub desc: Seq<u8>,
    pub closed: bool,
    pub url: Seq<u8>,
}

impl View for Card {
    type V = CardView;

    open spec fn view(&self) -> CardView {
        CardView {
            id: self.id@,
            name: self.name@,
            desc: self.desc@,
            closed: self.closed,
            url: self.url@,
        }
    }
}

impl Card {
    /// A fresh, open card.
    pub fn new(id: Vec<u8>, name: Vec<u8>, desc: Vec<u8>, url: Vec<u8>) -> (c: Card)
        ensures
            c@.id == id@,
            c@.name == name@,
            c@.desc == desc@,
            c@.closed == false,
            c@.url == url@,
    {
        Card { id, name, desc, closed: false, url }
    }

    /// An independent copy with the same fields.
    pub fn duplicate(&self) -> (c: Card)
        ensures
            c@ == self@,
    {
        Card {
            id: clone_bytes(&self.id),
            name: clone_bytes(&self.name),
            desc: clone_bytes(&self.desc),
            closed: self.closed,
            url: clone_bytes(&self.url),
        }
    }

    /// The same card, marked closed.
    pub fn into_closed(self) -> (c: Card)
        ensures
            c@ == (CardView { closed: true, ..self@ }),
    {
        Card { closed: true, ..self }
    }

    /// The textual form of the card as seeded into the scratch document:
    /// the name, a delimiter line, and the description.
    pub fn render(&self) -> (r: Vec<u8>)
        ensures
            r@ == render_spec(self.name@, self.desc@),
    {
        let mut out = clone_bytes(&self.name);
        out.push(NEWLINE);
        let ghost delim = delimiter_of(self.name@);
        let width: usize = if self.name.len() == 0 {
            1
        } else {
            self.name.len()
        };
        proof {
            assert(width == delim.len());
            assert(out@ =~= self.name@ + seq![NEWLINE] + delim.subrange(0, 0));
        }
        let mut k: usize = 0;
        while k < width
            invariant
                k <= width,
                width == delim.len(),
                delim == delimiter_of(self.name@),
                out@ == self.name@ + seq![NEWLINE] + delim.subrange(0, k as int),
            decreases width - k,
        {
            out.push(DELIMITER);
            proof {
                assert(delim.subrange(0, k + 1) =~= delim.subrange(0, k as int).push(DELIMITER));
                assert(out@ =~= self.name@ + seq![NEWLINE] + delim.subrange(0, k + 1));
            }
            k += 1;
        }
        proof {
            assert(delim.subrange(0, width as int) =~= delim);
        }
        out.push(NEWLINE);
        append_bytes(&mut out, &self.desc);
        proof {
            assert(out@ =~= render_spec(self.name@, self.desc@));
        }
        out
    }
}

/// A label that can be applied to a card.
pub struct Label {
    pub id: Vec<u8>,
    pub name: Vec<u8>,
    pub color: Vec<u8>,
}

/// Whether one of `labels` carries the identifier `id`.
pub fn has_label(labels: &Vec<Label>, id: &Vec<u8>) -> (r: bool)
    ensures
        r == (exists|i: int| 0 <= i < labels@.len() && labels@[i].id@ == id@),
{
    let n: usize = labels.len();
    let mut i: usize = 0;
    while i < n
        invariant
            n == labels@.len(),
            i <= n,
            forall|k: int| 0 <= k < i ==> labels@[k].id@ != id@,
        decreases n - i,
    {
        if crate::bytes::bytes_eq(&labels[i].id, id) {
            return true;
        }
        i += 1;
    }
    false
}

/// What a request to add or remove a label must do, given whether the card
/// already carries it.
pub enum LabelCommand {
    /// Remove the label from the card.
    Remove,
    /// Nothing to remove: the card does not carry the label.
    AlreadyAbsent,
    /// Nothing to apply: the card already carries the label.
    AlreadyPresent,
    /// Apply the label to the card.
    Apply,
}

pub open spec fn label_command_spec(delete: bool, card_has_label: bool) -> LabelCommand {
    if delete {
        if card_has_label {
            LabelCommand::Remove
        } else {
            LabelCommand::AlreadyAbsent
        }
    } else {
        if card_has_label {
            LabelCommand::AlreadyPresent
        } else {
            LabelCommand::Apply
        }
    }
}

/// The decision behind the label subcommand: delete removes the label only
/// where it is present, applying adds it only where it is absent, and
/// everything else is reported without a remote call.
pub fn label_command(delete: bool, card_has_label: bool) -> (c: LabelCommand)
    ensures
        c == label_command_spec(delete, card_has_label),
{
    if delete {
        if card_has_label {
            LabelCommand::Remove
        } else {
            LabelCommand::AlreadyAbsent
        }
    } else {
        if card_has_label {
            LabelCommand::AlreadyPresent
        } else {
            LabelCommand::Apply
        }
    }
}

} // verus!
