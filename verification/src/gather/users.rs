use crate::client::gather::{no_dups, union_upto};
use crate::vec_check::{copy_usizes, is_invector, is_subset};
use std::collections::HashMap;
use vstd::prelude::*;
use vstd::string::*;

verus! {

broadcast use vstd::std_specs::hash::group_hash_axioms, vstd::seq_lib::group_seq_properties;

/// A message of the standalone common-core run: a numeric kind, an
/// identifier list, and a text payload.
pub struct Message {
    pub sender_id: usize,
    pub msg_type: usize,
    pub data: Vec<usize>,
    pub additional_data: String,
}

pub open spec fn sim_message_eq(a: Message, b: Message) -> bool {
    &&& a.sender_id == b.sender_id
    &&& a.msg_type == b.msg_type
    &&& a.data@ == b.data@
    &&& a.additional_data@ == b.additional_data@
}

impl Clone for Message {
    fn clone(&self) -> (r: Self)
        ensures
            sim_message_eq(r, *self),
    {
        Message {
            sender_id: self.sender_id,
            msg_type: self.msg_type,
            data: copy_usizes(&self.data),
            additional_data: self.additional_data.clone(),
        }
    }
}

/// One node of the standalone run, with its own inbound queue: the host
/// moves messages between these queues and its own.
pub struct Node {
    pub id: usize,
    pub msg: String,
    pub state: usize,
    pub set_r: Vec<(usize, String)>,
    pub set_s: Vec<usize>,
    pub set_t: Vec<usize>,
    pub set_u: Vec<usize>,
    pub n: usize,
    pub f: usize,
    pub others_s_set: HashMap<usize, Vec<usize>>,
    pub msg_queue: Vec<Message>,
}

pub open spec fn sim_node_wf(g: Node) -> bool {
    &&& g.f <= g.n
    &&& no_dups(g.set_s@)
    &&& no_dups(g.set_u@)
    &&& g.set_r@.len() == g.set_s@.len()
    &&& forall|i: int| 0 <= i < g.set_r@.len() ==> (#[trigger] g.set_r@[i]).0 == g.set_s@[i]
    &&& forall|i: int|
        0 <= i < g.set_t@.len() ==> g.others_s_set@.contains_key(#[trigger] g.set_t@[i])
}

/// What a first-round message does, as a relation over the node before and after.
pub open spec fn sim1_rel(pre: Node, post: Node, message: Message, r: Option<Message>) -> bool {
    &&& (sim_node_wf(post))
    &&& (post.id == pre.id && post.state == pre.state && post.n == pre.n && post.f == pre.f)
    &&& (post.set_t@ == pre.set_t@ && post.set_u@ == pre.set_u@
                && post.others_s_set@ == pre.others_s_set@)
    &&& (pre.set_s@.contains(message.sender_id) ==> post.set_s@ == pre.set_s@ && r is None)
    &&& (!pre.set_s@.contains(message.sender_id) ==> {
                &&& post.set_s@ == pre.set_s@.push(message.sender_id)
                &&& if post.set_s@.len() >= pre.n - pre.f {
                    (r matches Some(m) && m.sender_id == pre.id && m.msg_type == 2
                        && m.data@ == post.set_s@ && m.additional_data@.len() == 0)
                } else {
                    r is None
                }
            })
}

/// What a second-round message does, as a relation over the node before and after.
pub open spec fn sim2_rel(pre: Node, post: Node, message: Message, r: Option<Message>) -> bool {
    &&& (sim_node_wf(post))
    &&& (post.id == pre.id && post.state == pre.state && post.n == pre.n && post.f == pre.f)
    &&& (post.set_s@ == pre.set_s@ && post.set_r@ == pre.set_r@
                && post.set_u@ == pre.set_u@)
    &&& (post.others_s_set@ == pre.others_s_set@.insert(
                message.sender_id,
                message.data,
            ))
    &&& (({
                let joins = message.data@.to_set() <= pre.set_s@.to_set();
                &&& (joins ==> post.set_t@ == pre.set_t@.push(message.sender_id))
                &&& (!joins ==> post.set_t@ == pre.set_t@ && r is None)
                &&& if joins && post.set_t@.len() >= pre.n - pre.f {
                    (r matches Some(m) && m.sender_id == pre.id && m.msg_type == 3
                        && m.data@ == post.set_t@ && m.additional_data@.len() == 0)
                } else {
                    r is None
                }
            }))
}

/// What a third-round message does, as a relation over the node before and after.
pub open spec fn sim3_rel(pre: Node, post: Node, message: Message, r: Option<Message>) -> bool {
    &&& (sim_node_wf(post))
    &&& (post.id == pre.id && post.state == pre.state && post.n == pre.n && post.f == pre.f)
    &&& (post.set_s@ == pre.set_s@ && post.set_r@ == pre.set_r@
                && post.set_t@ == pre.set_t@ && post.others_s_set@ == pre.others_s_set@)
    &&& (post.set_u@.to_set() == pre.set_u@.to_set().insert(pre.id).union(
                if message.data@.to_set() <= pre.set_t@.to_set() {
                    union_upto(pre.others_s_set@, message.data@, message.data@.len() as int)
                } else {
                    Set::empty()
                },
            ))
    &&& (({
                let done = post.set_u@.len() >= pre.n - pre.f;
                if done {
                    (r matches Some(m) && m.sender_id == pre.id && m.msg_type == 4 && m.data@
                        == pre.set_s@ && m.additional_data@.len() == 0)
                } else {
                    r is None
                }
            }))
}

/// What one routed message does: the handler its numeric kind names runs,
/// a terminal report bounces back, anything else is dropped.
pub open spec fn sim_dispatch_rel(pre: Node, post: Node, message: Message, r: Option<Message>) -> bool {
    if message.msg_type == 1 {
        sim1_rel(pre, post, message, r)
    } else if message.msg_type == 2 {
        sim2_rel(pre, post, message, r)
    } else if message.msg_type == 3 {
        sim3_rel(pre, post, message, r)
    } else if message.msg_type == 4 {
        post == pre && r == Some(message)
    } else {
        post == pre && r is None
    }
}

impl Node {
    /// A fresh node for a run with `n` participants, `f` of them faulty;
    /// honest nodes carry `state` one.
    pub fn new(id: usize, n: usize, f: usize, state: usize) -> (r: Node)
        requires
            f <= n,
        ensures
            sim_node_wf(r),
            r.id == id,
            r.n == n,
            r.f == f,
            r.state == state,
            r.set_s@.len() == 0,
            r.set_t@.len() == 0,
            r.set_u@.len() == 0,
            r.msg_queue@.len() == 0,
    {
        Node {
            id,
            msg: String::new(),
            state,
            set_r: Vec::new(),
            set_s: Vec::new(),
            set_t: Vec::new(),
            set_u: Vec::new(),
            n,
            f,
            others_s_set: HashMap::new(),
            msg_queue: Vec::new(),
        }
    }

    /// An honest node opens the run with an empty first-round message.
    pub fn send_1_message(&self) -> (r: Option<Message>)
        ensures
            self.state == 0 ==> r is None,
            self.state != 0 ==> (r matches Some(m) && m.sender_id == self.id && m.msg_type == 1
                && m.data@.len() == 0 && m.additional_data@ == self.msg@),
    {
        if self.state == 0 {
            return None;
        }
        Some(
            Message {
                sender_id: self.id,
                msg_type: 1,
                data: Vec::new(),
                additional_data: self.msg.clone(),
            },
        )
    }

    /// Takes an inbound message, if any, then works the queue: the youngest
    /// queued message is handled; a terminal report is swallowed, anything
    /// else is handed back to the host.
    pub fn handle_msg_queue(&mut self, get_message: Option<Message>) -> (r: Option<Message>)
        requires
            sim_node_wf(*old(self)),
        ensures
            sim_node_wf(*final(self)),
            final(self).id == old(self).id && final(self).state == old(self).state && final(self).n == old(self).n && final(self).f == old(self).f,
            (r matches Some(m) ==> m.msg_type != 4),
    {
        match get_message {
            Some(message) => {
                self.msg_queue.push(message);
            },
            None => {},
        }

        while self.msg_queue.len() > 0
            invariant
                sim_node_wf(*self),
                self.id == old(self).id,
                self.state == old(self).state,
                self.n == old(self).n,
                self.f == old(self).f,
            decreases self.msg_queue@.len(),
        {
            let message = match self.msg_queue.pop() {
                Some(m) => m,
                None => {
                    break;
                },
            };
            let new_message = self.handle_message(message);
            match new_message {
                Some(m) => {
                    if m.msg_type == 4 {
                        return None;
                    } else {
                        return Some(m);
                    }
                },
                None => {
                    return None;
                },
            }
        }
        None
    }

    /// Routes one message by its numeric kind; unknown kinds are dropped,
    /// and a silent node handles nothing.
    pub fn handle_message(&mut self, message: Message) -> (r: Option<Message>)
        requires
            sim_node_wf(*old(self)),
        ensures
            sim_node_wf(*final(self)),
            final(self).id == old(self).id && final(self).state == old(self).state && final(self).n == old(self).n && final(self).f == old(self).f,
            old(self).state == 0 ==> r is None && *final(self) == *old(self),
            old(self).state != 0 ==> sim_dispatch_rel(*old(self), *final(self), message, r),
    {
        if self.state == 0 {
            return None;
        }

        if message.msg_type == 1 {
            self.handle_type_1_message(message)
        } else if message.msg_type == 2 {
            self.handle_type_2_message(message)
        } else if message.msg_type == 3 {
            self.handle_type_3_message(message)
        } else if message.msg_type == 4 {
            Some(message)
        } else {
            None
        }
    }

    /// First round: a sender not yet seen is recorded with its text; at
    /// `n - f` senders their list goes out as the second round.
    fn handle_type_1_message(&mut self, message: Message) -> (r: Option<Message>)
        requires
            sim_node_wf(*old(self)),
        ensures
            sim1_rel(*old(self), *final(self), message, r),
    {
        if !is_invector(message.sender_id, &self.set_s) {
            self.set_r.push((message.sender_id, message.additional_data));
            self.set_s.push(message.sender_id);
        } else {
            return None;
        }

        let n_f = self.n - self.f;
        if self.set_s.len() >= n_f {
            Some(
                Message {
                    sender_id: self.id,
                    msg_type: 2,
                    data: copy_usizes(&self.set_s),
                    additional_data: String::new(),
                },
            )
        } else {
            None
        }
    }

    /// Second round: the sender's reported set is recorded; a sender whose
    /// set is contained in ours joins the third-round set, and at `n - f`
    /// members that set goes out.
    fn handle_type_2_message(&mut self, message: Message) -> (r: Option<Message>)
        requires
            sim_node_wf(*old(self)),
        ensures
            sim2_rel(*old(self), *final(self), message, r),
    {
        let subset_ok = is_subset(&message.data, &self.set_s);
        self.others_s_set.insert(message.sender_id, message.data);

        if subset_ok {
            self.set_t.push(message.sender_id);
        } else {
            return None;
        }

        let n_f = self.n - self.f;
        if self.set_t.len() >= n_f {
            Some(
                Message {
                    sender_id: self.id,
                    msg_type: 3,
                    data: copy_usizes(&self.set_t),
                    additional_data: String::new(),
                },
            )
        } else {
            None
        }
    }

    /// Third round: our own identifier joins the union; a reported set
    /// contained in ours pulls in the recorded first-round sets of its
    /// members; at `n - f` the node reports its sender list.
    fn handle_type_3_message(&mut self, message: Message) -> (r: Option<Message>)
        requires
            sim_node_wf(*old(self)),
        ensures
            sim3_rel(*old(self), *final(self), message, r),
    {
        let ghost u0 = self.set_u@.to_set();
        if !is_invector(self.id, &self.set_u) {
            self.set_u.push(self.id);
            proof {
                old(self).set_u@.lemma_push_to_set_commute(old(self).id);
            }
        } else {
            proof {
                assert(self.set_u@.to_set() =~= u0.insert(self.id));
            }
        }
        let ghost base = self.set_u@.to_set();
        assert(base == u0.insert(self.id));

        let subset_ok = is_subset(&message.data, &self.set_t);
        if subset_ok {
            let users = &message.data;
            let mut uu: usize = 0;
            while uu < users.len()
                invariant
                    uu <= users@.len(),
                    sim_node_wf(*self),
                    users@.to_set() <= self.set_t@.to_set(),
                    self.id == old(self).id,
                    self.n == old(self).n,
                    self.f == old(self).f,
                    self.state == old(self).state,
                    self.set_s@ == old(self).set_s@,
                    self.set_r@ == old(self).set_r@,
                    self.set_t@ == old(self).set_t@,
                    self.others_s_set@ == old(self).others_s_set@,
                    self.msg_queue@ == old(self).msg_queue@,
                    self.set_u@.to_set() == base.union(
                        union_upto(self.others_s_set@, users@, uu as int),
                    ),
                decreases users@.len() - uu,
            {
                let user = users[uu];
                proof {
                    assert(users@.to_set().contains(user));
                    assert(self.set_t@.to_set().contains(user));
                    assert(self.set_t@.contains(user));
                    let wi = choose|wi: int| 0 <= wi < self.set_t@.len() && self.set_t@[wi] == user;
                    assert(self.others_s_set@.contains_key(self.set_t@[wi]));
                }
                let sk = match self.others_s_set.get(&user) {
                    Some(v) => v,
                    None => {
                        proof {
                            assert(false);
                        }
                        return None;
                    },
                };
                let sk_copy = copy_usizes(sk);
                let ghost mid = self.set_u@.to_set();
                let mut vv: usize = 0;
                while vv < sk_copy.len()
                    invariant
                        vv <= sk_copy@.len(),
                        no_dups(self.set_u@),
                        sk_copy@ == old(self).others_s_set@[users@[uu as int]]@,
                        uu < users@.len(),
                        self.set_u@.to_set() == mid.union(sk_copy@.take(vv as int).to_set()),
                        self.id == old(self).id,
                        self.n == old(self).n,
                        self.f == old(self).f,
                        self.state == old(self).state,
                        self.set_s@ == old(self).set_s@,
                        self.set_r@ == old(self).set_r@,
                        self.set_t@ == old(self).set_t@,
                        self.others_s_set@ == old(self).others_s_set@,
                        self.msg_queue@ == old(self).msg_queue@,
                        sim_node_wf(*self),
                    decreases sk_copy@.len() - vv,
                {
                    let cand = sk_copy[vv];
                    let ghost before = self.set_u@;
                    if !is_invector(cand, &self.set_u) {
                        self.set_u.push(cand);
                        proof {
                            before.lemma_push_to_set_commute(cand);
                        }
                    }
                    proof {
                        assert(sk_copy@.take(vv + 1).drop_last() =~= sk_copy@.take(vv as int));
                        sk_copy@.take(vv as int).lemma_push_to_set_commute(cand);
                        assert(sk_copy@.take(vv as int).push(cand) =~= sk_copy@.take(vv + 1));
                        assert(self.set_u@.to_set() =~= mid.union(sk_copy@.take(vv + 1).to_set()));
                    }
                    vv += 1;
                }
                proof {
                    assert(sk_copy@.take(sk_copy@.len() as int) =~= sk_copy@);
                    assert(union_upto(self.others_s_set@, users@, uu + 1) == union_upto(
                        self.others_s_set@,
                        users@,
                        uu as int,
                    ).union(self.others_s_set@[users@[uu as int]]@.to_set()));
                    assert(self.set_u@.to_set() =~= base.union(
                        union_upto(self.others_s_set@, users@, uu + 1),
                    ));
                }
                uu += 1;
            }
            proof {
                assert(self.set_u@.to_set() == base.union(
                    union_upto(self.others_s_set@, users@, users@.len() as int),
                ));
            }
        } else {
            proof {
                assert(self.set_u@.to_set() =~= base.union(Set::empty()));
            }
        }
        proof {
            assert(base.union(
                if message.data@.to_set() <= old(self).set_t@.to_set() {
                    union_upto(old(self).others_s_set@, message.data@, message.data@.len() as int)
                } else {
                    Set::empty()
                },
            ) =~= u0.insert(old(self).id).union(
                if message.data@.to_set() <= old(self).set_t@.to_set() {
                    union_upto(old(self).others_s_set@, message.data@, message.data@.len() as int)
                } else {
                    Set::empty()
                },
            ));
        }

        let n_f = self.n - self.f;
        if self.set_u.len() >= n_f {
            Some(
                Message {
                    sender_id: self.id,
                    msg_type: 4,
                    data: copy_usizes(&self.set_s),
                    additional_data: String::new(),
                },
            )
        } else {
            None
        }
    }
}

} // verus!
