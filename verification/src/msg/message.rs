use crate::vec_check::copy_usizes;
use vstd::prelude::*;
use vstd::string::*;

verus! {

/// The closed set of message kinds that the protocol exchanges.
#[derive(Clone, Copy, Debug, PartialEq, Eq, Structural)]
pub enum MessageType {
    NonType,
    AkdgAvssFin,
    AdkgProp,
    AdkgSig,
    VabaStart,
    VabaAvssFin,
    VabaAttach,
    VabaSig,
    VabaIndice,
    VabaEval,
    VabaFin,
    GatherStart,
    Gather1,
    Gather2,
    Gather3,
    GatherFin,
    SumAndRec,
}

/// One protocol message. An empty `receiver_id` means broadcast to all
/// participants; `msg_content` carries identifier sets; `additional`
/// carries attributable signature text or a stringified field element.
pub struct Message {
    pub sender_id: usize,
    pub receiver_id: Vec<usize>,
    pub msg_type: MessageType,
    pub msg_content: Vec<usize>,
    pub additional: String,
}

/// Messages agree on every observable field.
pub open spec fn message_eq(a: Message, b: Message) -> bool {
    &&& a.sender_id == b.sender_id
    &&& a.receiver_id@ == b.receiver_id@
    &&& a.msg_type == b.msg_type
    &&& a.msg_content@ == b.msg_content@
    &&& a.additional@ == b.additional@
}

impl Clone for Message {
    fn clone(&self) -> (r: Self)
        ensures
            message_eq(r, *self),
    {
        Message {
            sender_id: self.sender_id,
            receiver_id: copy_usizes(&self.receiver_id),
            msg_type: self.msg_type,
            msg_content: copy_usizes(&self.msg_content),
            additional: self.additional.clone(),
        }
    }
}

/// Whether the signature list already holds an entry from `id`.
pub open spec fn signed_by(s: Seq<(usize, Message)>, id: usize) -> bool {
    exists|i: int| 0 <= i < s.len() && (#[trigger] s[i]).0 == id
}

/// Scans a signature list for an entry from `id`.
pub fn has_signature_from(s: &Vec<(usize, Message)>, id: usize) -> (r: bool)
    ensures
        r == signed_by(s@, id),
{
    let mut i: usize = 0;
    while i < s.len()
        invariant
            i <= s@.len(),
            forall|k: int| 0 <= k < i ==> (#[trigger] s@[k]).0 != id,
        decreases s@.len() - i,
    {
        if s[i].0 == id {
            return true;
        }
        i += 1;
    }
    false
}

impl Message {
    /// An empty message from the given sender.
    pub fn new(id: usize) -> (r: Message)
        ensures
            r.sender_id == id,
            r.receiver_id@.len() == 0,
            r.msg_type == MessageType::NonType,
            r.msg_content@.len() == 0,
            r.additional@.len() == 0,
    {
        Message {
            sender_id: id,
            receiver_id: Vec::new(),
            msg_type: MessageType::NonType,
            msg_content: Vec::new(),
            additional: String::new(),
        }
    }

    /// A message with an additional text payload.
    pub fn send_message_with_addi(
        id: usize,
        recv: Vec<usize>,
        msg_type: MessageType,
        msg_content: Vec<usize>,
        addi: String,
    ) -> (r: Message)
        ensures
            r.sender_id == id,
            r.receiver_id == recv,
            r.msg_type == msg_type,
            r.msg_content == msg_content,
            r.additional == addi,
    {
        Message { sender_id: id, receiver_id: recv, msg_type, msg_content, additional: addi }
    }

    /// A message with no additional text, ready to hand to the transport.
    pub fn send_message(
        id: usize,
        recv: Vec<usize>,
        msg_type: MessageType,
        msg_content: Vec<usize>,
    ) -> (r: Option<Message>)
        ensures
            r is Some,
            r->Some_0.sender_id == id,
            r->Some_0.receiver_id == recv,
            r->Some_0.msg_type == msg_type,
            r->Some_0.msg_content == msg_content,
            r->Some_0.additional@.len() == 0,
    {
        Some(
            Message {
                sender_id: id,
                receiver_id: recv,
                msg_type,
                msg_content,
                additional: String::new(),
            },
        )
    }

    /// A broadcast message: the empty receiver list addresses everyone.
    pub fn send_message2all(id: usize, msg_type: MessageType, msg_content: Vec<usize>) -> (r:
        Option<Message>)
        ensures
            r is Some,
            r->Some_0.sender_id == id,
            r->Some_0.receiver_id@.len() == 0,
            r->Some_0.msg_type == msg_type,
            r->Some_0.msg_content == msg_content,
            r->Some_0.additional@.len() == 0,
    {
        Some(
            Message {
                sender_id: id,
                receiver_id: Vec::new(),
                msg_type,
                msg_content,
                additional: String::new(),
            },
        )
    }
}

} // verus!
