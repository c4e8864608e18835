use vstd::prelude::*;
use crate::ids::ShareId;

verus! {

/// The inventory payload: the ordered list of share identifiers the sender
/// currently claims to have.
#[derive(Debug)]
pub struct InventoryMessage {
    pub have_shares: Vec<ShareId>,
}

/// The mathematical value of a wire message: each variant carries the views
/// of its payload fields.
#[verifier::ext_equal]
pub enum MessageV {
    Inventory(Seq<Seq<u8>>),
}

/// A wire message: a closed, extensible tagged union of application payloads
/// exchanged over gossip or direct channels.
#[derive(Debug)]
pub enum Message {
    Inventory(InventoryMessage),
}

impl View for InventoryMessage {
    type V = Seq<Seq<u8>>;

    open spec fn view(&self) -> Seq<Seq<u8>> {
        self.have_shares.deep_view()
    }
}

impl DeepView for InventoryMessage {
    type V = Seq<Seq<u8>>;

    open spec fn deep_view(&self) -> Seq<Seq<u8>> {
        self.have_shares.deep_view()
    }
}

impl View for Message {
    type V = MessageV;

    open spec fn view(&self) -> MessageV {
        match self {
            Message::Inventory(inv) => MessageV::Inventory(inv.deep_view()),
        }
    }
}

impl DeepView for Message {
    type V = MessageV;

    open spec fn deep_view(&self) -> MessageV {
        self.view()
    }
}

} // verus!
