//! A small message log for peer chat.  Delivery is network work done
//! elsewhere; the log records what was sent and hands it back for display.

use vstd::prelude::*;

verus! {

/// One chat message.
pub struct ChatMessage {
    pub id: String,
    pub from: String,
    pub to: Option<String>,
    pub content: String,
    pub timestamp: u64,
}

/// Field-for-field agreement of two messages, by value.
pub open spec fn message_like(a: ChatMessage, b: ChatMessage) -> bool {
    &&& a.id@ == b.id@
    &&& a.from@ == b.from@
    &&& (match (a.to, b.to) {
        (Some(x), Some(y)) => x@ == y@,
        (None, None) => true,
        _ => false,
    })
    &&& a.content@ == b.content@
    &&& a.timestamp == b.timestamp
}

impl ChatMessage {
    /// A fresh message with the same fields.
    pub fn duplicate(&self) -> (r: ChatMessage)
        ensures
            message_like(r, *self),
    {
        ChatMessage {
            id: self.id.clone(),
            from: self.from.clone(),
            to: match &self.to {
                Some(p) => Some(p.clone()),
                None => None,
            },
            content: self.content.clone(),
            timestamp: self.timestamp,
        }
    }
}

/// The ordered log of messages this peer has sent.
pub struct ChatService {
    local_peer: String,
    messages: Vec<ChatMessage>,
}

impl ChatService {
    pub closed spec fn log(self) -> Seq<ChatMessage> {
        self.messages@
    }

    pub closed spec fn local_peer_view(self) -> Seq<char> {
        self.local_peer@
    }

    pub fn new(local_peer: String) -> (r: ChatService)
        ensures
            r.log().len() == 0,
            r.local_peer_view() == local_peer@,
    {
        ChatService { local_peer, messages: Vec::new() }
    }

    /// Append one outgoing message to the log and return it: the sender is
    /// this peer, and the log grows by exactly that message.
    pub fn send_message(&mut self, id: String, content: String, to: Option<String>, timestamp: u64)
        -> (r: ChatMessage)
        ensures
            final(self).local_peer_view() == old(self).local_peer_view(),
            final(self).log().len() == old(self).log().len() + 1,
            forall|k: int| 0 <= k < old(self).log().len() ==> final(self).log()[k] == old(
                self,
            ).log()[k],
            ({
                let m = final(self).log().last();
                &&& m.id@ == id@
                &&& m.from@ == old(self).local_peer_view()
                &&& (match (m.to, to) {
                    (Some(x), Some(y)) => x@ == y@,
                    (None, None) => true,
                    _ => false,
                })
                &&& m.content@ == content@
                &&& m.timestamp == timestamp
            }),
            message_like(r, final(self).log().last()),
    {
        let message = ChatMessage {
            id,
            from: self.local_peer.clone(),
            to,
            content,
            timestamp,
        };
        let copy = message.duplicate();
        self.messages.push(message);
        copy
    }

    /// The whole log, oldest first.
    pub fn get_messages(&self) -> (r: Vec<ChatMessage>)
        ensures
            r@.len() == self.log().len(),
            forall|k: int| 0 <= k < r@.len() ==> message_like(#[trigger] r@[k], self.log()[k]),
    {
        let n = self.messages.len();
        let mut r: Vec<ChatMessage> = Vec::new();
        let mut k: usize = 0;
        while k < n
            invariant
                n == self.messages@.len(),
                0 <= k <= n,
                r@.len() == k,
                forall|t: int| 0 <= t < k ==> message_like(#[trigger] r@[t], self.messages@[t]),
            decreases n - k,
        {
            r.push(self.messages[k].duplicate());
            k += 1;
        }
        r
    }
}

} // verus!
