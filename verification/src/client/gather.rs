use crate::msg::message::{Message, MessageType};
use crate::vec_check::{copy_usizes, is_invector, is_subset, is_equal};
use std::collections::HashMap;
use vstd::prelude::*;
use vstd::set_lib::lemma_len_subset;

verus! {

broadcast use vstd::std_specs::hash::group_hash_axioms, vstd::seq_lib::group_seq_properties;

pub open spec fn no_dups(s: Seq<usize>) -> bool {
    forall|i: int, j: int| 0 <= i < j < s.len() ==> s[i] != s[j]
}

/// What a handler's emitted broadcast looks like: from `id`, to everyone,
/// of the given kind, carrying `content`, with no text payload.
pub open spec fn emits(r: Option<Message>, id: usize, t: MessageType, content: Seq<usize>) -> bool {
    match r {
        Some(m) => m.sender_id == id && m.receiver_id@.len() == 0 && m.msg_type == t
            && m.msg_content@ == content && m.additional@.len() == 0,
        None => false,
    }
}

/// The three-round common-core state machine of one participant.
/// `set_r` records the first-round payloads, `set_s` their senders,
/// `set_t` the senders whose reported set was contained in ours, and
/// `set_u` the accumulated union that triggers completion.
pub struct GatherNode {
    pub id: usize,
    pub n_f: usize,
    pub state: usize,
    pub set_r: Vec<(usize, Vec<usize>)>,
    pub set_s: Vec<usize>,
    pub set_t: Vec<usize>,
    pub set_u: Vec<usize>,
    pub others_s_set: HashMap<usize, Vec<usize>>,
    pub fin: bool,
}

pub open spec fn gather_wf(g: GatherNode) -> bool {
    &&& no_dups(g.set_s@)
    &&& no_dups(g.set_t@)
    &&& no_dups(g.set_u@)
    &&& g.set_r@.len() == g.set_s@.len()
    &&& forall|i: int| 0 <= i < g.set_r@.len() ==> (#[trigger] g.set_r@[i]).0 == g.set_s@[i]
    &&& forall|i: int|
        0 <= i < g.set_t@.len() ==> g.others_s_set@.contains_key(#[trigger] g.set_t@[i])
}

/// The union of the recorded first-round sets of the first `k` listed ids.
pub open spec fn union_upto(m: Map<usize, Vec<usize>>, ids: Seq<usize>, k: int) -> Set<usize>
    decreases k,
{
    if k <= 0 {
        Set::empty()
    } else {
        union_upto(m, ids, k - 1).union(
            if m.contains_key(ids[k - 1]) {
                m[ids[k - 1]]@.to_set()
            } else {
                Set::empty()
            },
        )
    }
}

/// The state of a node that has processed nothing yet.
pub open spec fn gather_fresh(g: GatherNode, id: usize, state: usize, n: usize, f: usize) -> bool {
    &&& g.id == id
    &&& g.state == state
    &&& g.n_f == n - f
    &&& g.set_r@.len() == 0
    &&& g.set_s@.len() == 0
    &&& g.set_t@.len() == 0
    &&& g.set_u@.len() == 0
    &&& g.others_s_set@ == Map::<usize, Vec<usize>>::empty()
    &&& !g.fin
}

/// What `start` leaves and emits, as a relation usable by the dispatcher.
pub open spec fn gather_start_rel(pre: GatherNode, r: Option<Message>) -> bool {
    &&& (pre.state == 0 ==> r is None)
    &&& (pre.state != 0 ==> emits(r, pre.id, MessageType::Gather1, Seq::empty()))
}

/// What handling a first-round message does, as a relation over the state
/// before and after: an unseen sender is recorded with its payload, and at
/// `n - f` senders their list goes out.
pub open spec fn gather1_rel(pre: GatherNode, post: GatherNode, message: Message, r: Option<
    Message,
>) -> bool {
    &&& gather_wf(post)
    &&& post.id == pre.id && post.n_f == pre.n_f && post.state == pre.state && post.fin == pre.fin
    &&& post.set_t@ == pre.set_t@ && post.set_u@ == pre.set_u@ && post.others_s_set@
        == pre.others_s_set@
    &&& (pre.set_s@.contains(message.sender_id) ==> post.set_s@ == pre.set_s@ && post.set_r@
        == pre.set_r@ && r is None)
    &&& (!pre.set_s@.contains(message.sender_id) ==> {
        &&& post.set_s@ == pre.set_s@.push(message.sender_id)
        &&& post.set_r@.len() == pre.set_r@.len() + 1
        &&& (forall|i: int| 0 <= i < pre.set_r@.len() ==> post.set_r@[i] == pre.set_r@[i])
        &&& post.set_r@.last().0 == message.sender_id
        &&& post.set_r@.last().1@ == message.msg_content@
        &&& if post.set_s@.len() >= pre.n_f && pre.state != 0 {
            emits(r, pre.id, MessageType::Gather2, post.set_s@)
        } else {
            r is None
        }
    })
}

/// What handling a second-round message does: the sender's set is recorded;
/// a new sender whose set is contained in ours joins `set_t`, and at
/// `n - f` members the list goes out.
pub open spec fn gather2_rel(pre: GatherNode, post: GatherNode, message: Message, r: Option<
    Message,
>) -> bool {
    &&& gather_wf(post)
    &&& post.id == pre.id && post.n_f == pre.n_f && post.state == pre.state && post.fin == pre.fin
    &&& post.set_s@ == pre.set_s@ && post.set_r@ == pre.set_r@ && post.set_u@ == pre.set_u@
    &&& post.others_s_set@ == pre.others_s_set@.insert(message.sender_id, message.msg_content)
    &&& ({
        let joins = message.msg_content@.to_set() <= pre.set_s@.to_set()
            && !pre.set_t@.contains(message.sender_id);
        &&& (joins ==> post.set_t@ == pre.set_t@.push(message.sender_id))
        &&& (!joins ==> post.set_t@ == pre.set_t@ && r is None)
        &&& if joins && post.set_t@.len() >= pre.n_f && pre.state != 0 {
            emits(r, pre.id, MessageType::Gather3, post.set_t@)
        } else {
            r is None
        }
    })
}

/// What handling a third-round message does: the union grows by our own
/// identifier and, for a set contained in `set_t`, by its members' recorded
/// first-round sets; the first time the union reaches `n - f` the node
/// completes and reports `set_s`.
pub open spec fn gather3_rel(pre: GatherNode, post: GatherNode, message: Message, r: Option<
    Message,
>) -> bool {
    &&& gather_wf(post)
    &&& post.id == pre.id && post.n_f == pre.n_f && post.state == pre.state
    &&& post.set_s@ == pre.set_s@ && post.set_r@ == pre.set_r@ && post.set_t@ == pre.set_t@
        && post.others_s_set@ == pre.others_s_set@
    &&& post.set_u@.to_set() == pre.set_u@.to_set().insert(pre.id).union(
        if message.msg_content@.to_set() <= pre.set_t@.to_set() {
            union_upto(pre.others_s_set@, message.msg_content@, message.msg_content@.len() as int)
        } else {
            Set::empty()
        },
    )
    &&& ({
        let done = post.set_u@.len() >= pre.n_f;
        &&& post.fin == (pre.fin || done)
        &&& if done && !pre.fin && pre.state != 0 {
            emits(r, pre.id, MessageType::GatherFin, pre.set_s@)
        } else {
            r is None
        }
    })
}

impl GatherNode {
    /// A fresh node for a run with `n` participants, `f` of them faulty.
    pub fn new(id: usize, state: usize, n: usize, f: usize) -> (r: GatherNode)
        requires
            f <= n,
        ensures
            gather_wf(r),
            gather_fresh(r, id, state, n, f),
    {
        GatherNode {
            id,
            n_f: n - f,
            state,
            set_r: Vec::new(),
            set_s: Vec::new(),
            set_t: Vec::new(),
            set_u: Vec::new(),
            others_s_set: HashMap::new(),
            fin: false,
        }
    }

    /// Starting the protocol broadcasts an empty first-round message;
    /// a silent participant emits nothing.
    pub fn start(&self) -> (r: Option<Message>)
        ensures
            gather_start_rel(*self, r),
    {
        if self.state == 0 {
            return None;
        }
        self.send_message(MessageType::Gather1, Vec::new())
    }

    /// Wraps a payload as a broadcast from this node; silent when the node
    /// is not honest.
    pub fn send_message(&self, msg_type: MessageType, msg_content: Vec<usize>) -> (r: Option<
        Message,
    >)
        ensures
            self.state == 0 ==> r is None,
            self.state != 0 ==> emits(r, self.id, msg_type, msg_content@),
    {
        if self.state == 0 {
            return None;
        }
        Some(
            Message {
                sender_id: self.id,
                receiver_id: Vec::new(),
                msg_type,
                msg_content,
                additional: String::new(),
            },
        )
    }

    /// First round: a sender not yet seen is recorded with its payload;
    /// once `n - f` senders have been seen, their list is broadcast.
    pub fn handle_gather_1(&mut self, message: Message) -> (r: Option<Message>)
        requires
            gather_wf(*old(self)),
        ensures
            gather1_rel(*old(self), *final(self), message, r),
    {
        if !is_invector(message.sender_id, &self.set_s) {
            let content = copy_usizes(&message.msg_content);
            self.set_r.push((message.sender_id, content));
            self.set_s.push(message.sender_id);
        } else {
            return None;
        }

        if self.set_s.len() >= self.n_f {
            self.send_message(MessageType::Gather2, copy_usizes(&self.set_s))
        } else {
            None
        }
    }

    /// Second round: the sender's reported set is always recorded; the
    /// sender joins `set_t` when its set is contained in ours and it is
    /// new; at `n - f` members the list is broadcast.
    pub fn handle_gather_2(&mut self, message: Message) -> (r: Option<Message>)
        requires
            gather_wf(*old(self)),
        ensures
            gather2_rel(*old(self), *final(self), message, r),
    {
        let subset_ok = is_subset(&message.msg_content, &self.set_s);
        let seen = is_invector(message.sender_id, &self.set_t);
        self.others_s_set.insert(message.sender_id, message.msg_content);

        if subset_ok && !seen {
            self.set_t.push(message.sender_id);
        } else {
            return None;
        }

        if self.set_t.len() >= self.n_f {
            self.send_message(MessageType::Gather3, copy_usizes(&self.set_t))
        } else {
            None
        }
    }

    /// Third round: our own id joins `set_u`; if the reported third-round
    /// set is contained in `set_t`, the recorded first-round sets of its
    /// members are united into `set_u`. The first time `set_u` reaches
    /// `n - f`, the node completes and reports `set_s`.
    pub fn handle_gather_3(&mut self, message: Message) -> (r: Option<Message>)
        requires
            gather_wf(*old(self)),
        ensures
            gather3_rel(*old(self), *final(self), message, r),
    {
        let ghost u0 = self.set_u@.to_set();
        if !is_invector(self.id, &self.set_u) {
            self.set_u.push(self.id);
            proof {
                old(self).set_u@.lemma_push_to_set_commute(old(self).id);
            }
        } else {
            proof {
                assert(self.set_u@.to_set() =~= u0.insert(self.id));
            }
        }
        let ghost base = self.set_u@.to_set();
        assert(base == u0.insert(self.id));

        let subset_ok = is_subset(&message.msg_content, &self.set_t);
        if subset_ok {
            let users = &message.msg_content;
            let mut uu: usize = 0;
            while uu < users.len()
                invariant
                    uu <= users@.len(),
                    gather_wf(*self),
                    users@.to_set() <= self.set_t@.to_set(),
                    self.id == old(self).id,
                    self.n_f == old(self).n_f,
                    self.state == old(self).state,
                    self.fin == old(self).fin,
                    self.set_s@ == old(self).set_s@,
                    self.set_r@ == old(self).set_r@,
                    self.set_t@ == old(self).set_t@,
                    self.others_s_set@ == old(self).others_s_set@,
                    self.set_u@.to_set() == base.union(
                        union_upto(self.others_s_set@, users@, uu as int),
                    ),
                decreases users@.len() - uu,
            {
                let user = users[uu];
                proof {
                    assert(users@.to_set().contains(user));
                    assert(self.set_t@.to_set().contains(user));
                    assert(self.set_t@.contains(user));
                    let wi = choose|wi: int|
                        0 <= wi < self.set_t@.len() && self.set_t@[wi] == user;
                    assert(self.others_s_set@.contains_key(self.set_t@[wi]));
                }
                let sk = match self.others_s_set.get(&user) {
                    Some(v) => v,
                    None => {
                        proof {
                            assert(false);
                        }
                        return None;
                    },
                };
                let sk_copy = copy_usizes(sk);
                let ghost mid = self.set_u@.to_set();
                let mut vv: usize = 0;
                while vv < sk_copy.len()
                    invariant
                        vv <= sk_copy@.len(),
                        no_dups(self.set_u@),
                        sk_copy@ == old(self).others_s_set@[users@[uu as int]]@,
                        uu < users@.len(),
                        self.set_u@.to_set() == mid.union(sk_copy@.take(vv as int).to_set()),
                        self.id == old(self).id,
                        self.n_f == old(self).n_f,
                        self.state == old(self).state,
                        self.fin == old(self).fin,
                        self.set_s@ == old(self).set_s@,
                        self.set_r@ == old(self).set_r@,
                        self.set_t@ == old(self).set_t@,
                        self.others_s_set@ == old(self).others_s_set@,
                        gather_wf(*self),
                    decreases sk_copy@.len() - vv,
                {
                    let cand = sk_copy[vv];
                    let ghost before = self.set_u@;
                    if !is_invector(cand, &self.set_u) {
                        self.set_u.push(cand);
                        proof {
                            before.lemma_push_to_set_commute(cand);
                        }
                    }
                    proof {
                        assert(sk_copy@.take(vv + 1).drop_last() =~= sk_copy@.take(vv as int));
                        sk_copy@.take(vv as int).lemma_push_to_set_commute(cand);
                        assert(sk_copy@.take(vv as int).push(cand) =~= sk_copy@.take(vv + 1));
                        assert(self.set_u@.to_set() =~= mid.union(
                            sk_copy@.take(vv + 1).to_set(),
                        ));
                    }
                    vv += 1;
                }
                proof {
                    assert(sk_copy@.take(sk_copy@.len() as int) =~= sk_copy@);
                    assert(union_upto(self.others_s_set@, users@, uu + 1) == union_upto(
                        self.others_s_set@,
                        users@,
                        uu as int,
                    ).union(self.others_s_set@[users@[uu as int]]@.to_set()));
                    assert(self.set_u@.to_set() =~= base.union(
                        union_upto(self.others_s_set@, users@, uu + 1),
                    ));
                }
                uu += 1;
            }
            proof {
                assert(self.set_u@.to_set() == base.union(
                    union_upto(self.others_s_set@, users@, users@.len() as int),
                ));
            }
        } else {
            proof {
                assert(self.set_u@.to_set() =~= base.union(Set::empty()));
            }
        }
        proof {
            assert(base.union(
                if message.msg_content@.to_set() <= old(self).set_t@.to_set() {
                    union_upto(
                        old(self).others_s_set@,
                        message.msg_content@,
                        message.msg_content@.len() as int,
                    )
                } else {
                    Set::empty()
                },
            ) =~= u0.insert(old(self).id).union(
                if message.msg_content@.to_set() <= old(self).set_t@.to_set() {
                    union_upto(
                        old(self).others_s_set@,
                        message.msg_content@,
                        message.msg_content@.len() as int,
                    )
                } else {
                    Set::empty()
                },
            ));
        }

        if self.set_u.len() >= self.n_f {
            if self.fin {
                return None;
            }
            self.fin = true;
            self.send_message(MessageType::GatherFin, copy_usizes(&self.set_s))
        } else {
            None
        }
    }

    /// A reported index set is accepted exactly when it names the same set
    /// of identifiers as our own `set_s`.
    pub fn verify(&self, set_x: Vec<usize>) -> (r: bool)
        ensures
            r == (set_x@.to_set() == self.set_s@.to_set()),
    {
        is_equal(&set_x, &self.set_s)
    }
}

/// The quorum-overlap core of the Gather argument: two sets of at least `q`
/// identifiers drawn from a universe of `univ.len()` identifiers share at
/// least `2q - univ.len()` members. With `univ` the `n` participants and
/// `q == n - f`, any two honest output sets overlap in at least `n - 2f`
/// identifiers.
pub proof fn lemma_quorum_overlap<A>(a: Set<A>, b: Set<A>, univ: Set<A>, q: int)
    requires
        univ.finite(),
        a.subset_of(univ),
        b.subset_of(univ),
        a.len() >= q,
        b.len() >= q,
    ensures
        a.intersect(b).finite(),
        a.intersect(b).len() >= q + q - univ.len(),
{
    lemma_len_subset(a, univ);
    lemma_len_subset(b, univ);
    assert(a.union(b).subset_of(univ));
    lemma_len_subset(a.union(b), univ);
    lemma_len_union_exact(a, b);
    lemma_len_subset(a.intersect(b), a);
    assert(a.intersect(b).subset_of(a));
}

/// Inclusion-exclusion for finite sets: the sizes of the union and the
/// intersection sum to the sizes of the two sets.
pub proof fn lemma_len_union_exact<A>(s1: Set<A>, s2: Set<A>)
    requires
        s1.finite(),
        s2.finite(),
    ensures
        s1.union(s2).len() + s1.intersect(s2).len() == s1.len() + s2.len(),
    decreases s1.len(),
{
    if s1.is_empty() {
        assert(s1.union(s2) =~= s2);
        assert(s1.intersect(s2) =~= Set::empty());
    } else {
        let x = s1.choose();
        let s1r = s1.remove(x);
        lemma_len_union_exact(s1r, s2);
        if s2.contains(x) {
            assert(s1.union(s2) =~= s1r.union(s2));
            assert(s1.intersect(s2) =~= s1r.intersect(s2).insert(x));
            assert(!s1r.intersect(s2).contains(x));
        } else {
            assert(s1.union(s2) =~= s1r.union(s2).insert(x));
            assert(!s1r.union(s2).contains(x));
            assert(s1.intersect(s2) =~= s1r.intersect(s2));
        }
    }
}

/// The set of participant identifiers below `n`.
pub open spec fn ids_below(n: nat) -> Set<usize> {
    Set::new(|x: usize| (x as nat) < n)
}

/// That universe is finite, with exactly `n` members.
pub proof fn lemma_ids_below_len(n: nat)
    requires
        n <= usize::MAX,
    ensures
        ids_below(n).finite(),
        ids_below(n).len() == n,
    decreases n,
{
    if n == 0 {
        assert(ids_below(0) =~= Set::empty());
    } else {
        lemma_ids_below_len((n - 1) as nat);
        assert(ids_below(n) =~= ids_below((n - 1) as nat).insert(((n - 1) as nat) as usize));
        assert(!ids_below((n - 1) as nat).contains(((n - 1) as nat) as usize));
    }
}

} // verus!
