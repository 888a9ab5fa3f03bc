use crate::gather::users::{sim_node_wf, Message, Node};
use vstd::prelude::*;

verus! {

/// The deterministic host of the standalone common-core run: it keeps every
/// node, its own message queue, and pumps messages until the run goes
/// quiet.
pub struct BroadcastServer {
    pub nodes: Vec<Node>,
    pub n: usize,
    pub msg_queue: Vec<Message>,
}

pub open spec fn sim_server_wf(s: BroadcastServer) -> bool {
    &&& s.nodes@.len() == s.n
    &&& forall|i: int| 0 <= i < s.nodes@.len() ==> sim_node_wf(#[trigger] s.nodes@[i])
}

impl BroadcastServer {
    /// A host for `n` nodes, the first `n - f` honest, the rest silent.
    pub fn new(n: usize, f: usize) -> (r: BroadcastServer)
        requires
            f <= n,
        ensures
            sim_server_wf(r),
            r.n == n,
            r.msg_queue@.len() == 0,
    {
        let mut nodes: Vec<Node> = Vec::new();
        let mut i: usize = 0;
        while i < n - f
            invariant
                i <= n - f,
                f <= n,
                nodes@.len() == i,
                forall|t: int| 0 <= t < i ==> sim_node_wf(#[trigger] nodes@[t]),
            decreases n - f - i,
        {
            nodes.push(Node::new(i, n, f, 1));
            i += 1;
        }
        while i < n
            invariant
                i <= n,
                f <= n,
                nodes@.len() == i,
                forall|t: int| 0 <= t < i ==> sim_node_wf(#[trigger] nodes@[t]),
            decreases n - i,
        {
            nodes.push(Node::new(i, n, f, 0));
            i += 1;
        }
        BroadcastServer { nodes, n, msg_queue: Vec::new() }
    }

    /// Opens the run: every honest node's first-round message joins the
    /// host's queue.
    pub fn start(&mut self)
        requires
            sim_server_wf(*old(self)),
        ensures
            sim_server_wf(*final(self)),
            final(self).n == old(self).n,
    {
        let mut i: usize = 0;
        while i < self.n
            invariant
                i <= self.n,
                sim_server_wf(*self),
                self.n == old(self).n,
            decreases self.n - i,
        {
            let message = self.nodes[i].send_1_message();
            if let Some(m) = message {
                self.msg_queue.push(m);
            }
            i += 1;
        }
    }

    /// Pumps the run: each queued message is shown to every node, whose
    /// replies join the queue, until both the host's and every node's queue
    /// are empty. A step budget bounds the pumping; the runs this host is
    /// built for go quiet long before it is spent.
    pub fn broadcast2all(&mut self)
        requires
            sim_server_wf(*old(self)),
        ensures
            sim_server_wf(*final(self)),
            final(self).n == old(self).n,
    {
        let mut fuel: usize = 1000000;
        let mut flag = true;
        while flag && fuel > 0
            invariant
                sim_server_wf(*self),
                self.n == old(self).n,
            decreases fuel,
        {
            fuel -= 1;

            if self.msg_queue.len() > 0 {
                let message = match self.msg_queue.pop() {
                    Some(m) => m,
                    None => {
                        return ;
                    },
                };
                let mut i: usize = 0;
                while i < self.n
                    invariant
                        i <= self.n,
                        sim_server_wf(*self),
                        self.n == old(self).n,
                    decreases self.n - i,
                {
                    let mut node = self.nodes.remove(i);
                    let new_message = node.handle_msg_queue(Some(message.clone()));
                    self.nodes.insert(i, node);
                    if let Some(m) = new_message {
                        self.msg_queue.push(m);
                    }
                    i += 1;
                }
            }

            let mut i: usize = 0;
            while i < self.n
                invariant
                    i <= self.n,
                    sim_server_wf(*self),
                    self.n == old(self).n,
                decreases self.n - i,
            {
                let pending = self.nodes[i].msg_queue.len() > 0;
                if pending {
                    let mut node = self.nodes.remove(i);
                    let new_message = node.handle_msg_queue(None);
                    self.nodes.insert(i, node);
                    if let Some(m) = new_message {
                        self.msg_queue.push(m);
                    }
                }
                i += 1;
            }

            if self.msg_queue.len() == 0 {
                flag = false;
                let mut i: usize = 0;
                while i < self.n
                    invariant
                        i <= self.n,
                        sim_server_wf(*self),
                        self.n == old(self).n,
                    decreases self.n - i,
                {
                    if self.nodes[i].msg_queue.len() > 0 {
                        flag = true;
                    }
                    i += 1;
                }
            }
        }
    }
}

} // verus!
