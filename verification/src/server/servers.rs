use crate::client::clients::Client;
use crate::msg::message::Message;
use vstd::prelude::*;

verus! {

/// The broadcast transport's routing core: it decides, for each submitted
/// message, which of the `n` participants receive it.
pub struct BroadcastServer {
    pub n: usize,
}

/// One hosted participant: its identifier and its state machine. The host
/// moves messages between these and the transport.
pub struct UserThread {
    pub thread_id: usize,
    pub client: Client,
}

impl BroadcastServer {
    /// The delivery list of a message: everyone when the receiver list is
    /// empty, otherwise the named receivers, deduplicated, out-of-range
    /// identifiers dropped, in increasing order.
    pub fn send_msg(&self, msg: &Message) -> (r: Vec<usize>)
        ensures
            forall|i: int, j: int| 0 <= i < j < r@.len() ==> r@[i] < r@[j],
            forall|x: usize|
                #![trigger r@.contains(x)]
                r@.contains(x) <==> ((x as int) < self.n && (msg.receiver_id@.len() == 0
                    || msg.receiver_id@.contains(x))),
    {
        if msg.receiver_id.len() == 0 {
            self.broadcast2all()
        } else {
            self.send2some(msg)
        }
    }

    /// Everyone: the identifiers below `n`, in order.
    fn broadcast2all(&self) -> (r: Vec<usize>)
        ensures
            forall|i: int, j: int| 0 <= i < j < r@.len() ==> r@[i] < r@[j],
            forall|x: usize| #![trigger r@.contains(x)] r@.contains(x) <==> (x as int) < self.n,
    {
        let mut r: Vec<usize> = Vec::new();
        let mut i: usize = 0;
        while i < self.n
            invariant
                i <= self.n,
                r@.len() == i,
                forall|k: int| 0 <= k < i ==> r@[k] == k,
            decreases self.n - i,
        {
            r.push(i);
            i += 1;
        }
        proof {
            assert forall|x: usize| #![trigger r@.contains(x)] r@.contains(x) <==> (x as int)
                < self.n by {
                if (x as int) < self.n {
                    assert(r@[x as int] == x);
                }
            }
        }
        r
    }

    /// The named receivers that exist, each once, in increasing order.
    fn send2some(&self, msg: &Message) -> (r: Vec<usize>)
        ensures
            forall|i: int, j: int| 0 <= i < j < r@.len() ==> r@[i] < r@[j],
            forall|x: usize|
                #![trigger r@.contains(x)]
                r@.contains(x) <==> ((x as int) < self.n && msg.receiver_id@.contains(x)),
    {
        let mut r: Vec<usize> = Vec::new();
        let mut i: usize = 0;
        while i < self.n
            invariant
                i <= self.n,
                forall|a: int, b: int| 0 <= a < b < r@.len() ==> r@[a] < r@[b],
                forall|a: int| 0 <= a < r@.len() ==> (#[trigger] r@[a]) < i,
                forall|x: usize|
                    #![trigger r@.contains(x)]
                    r@.contains(x) <==> ((x as int) < i && msg.receiver_id@.contains(x)),
            decreases self.n - i,
        {
            let ghost before = r@;
            if crate::vec_check::is_invector(i, &msg.receiver_id) {
                r.push(i);
                proof {
                    assert forall|x: usize| #![trigger r@.contains(x)] r@.contains(x) <==> ((
                    x as int) < i + 1 && msg.receiver_id@.contains(x)) by {
                        if r@.contains(x) {
                            let w = choose|w: int| 0 <= w < r@.len() && r@[w] == x;
                            if w < before.len() {
                                assert(before[w] == x);
                                assert(before.contains(x));
                            }
                        }
                        if (x as int) < i + 1 && msg.receiver_id@.contains(x) {
                            if (x as int) < i {
                                assert(before.contains(x));
                                let w = choose|w: int| 0 <= w < before.len() && before[w] == x;
                                assert(r@[w] == x);
                            } else {
                                assert(r@[r@.len() - 1] == x);
                            }
                        }
                    }
                }
            } else {
                proof {
                    assert forall|x: usize| #![trigger r@.contains(x)] r@.contains(x) <==> ((
                    x as int) < i + 1 && msg.receiver_id@.contains(x)) by {
                        if (x as int) == i {
                            assert(!msg.receiver_id@.contains(x));
                        }
                    }
                }
            }
            i += 1;
        }
        r
    }
}

} // verus!
