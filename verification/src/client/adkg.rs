use crate::client::avss::{avss_wf, sum_of_shares, AvssNode};
use crate::client::gather::{emits, no_dups};
use crate::decimal::{
    all_dec_digits, dec_rep, dec_val, parse_all_digits, parse_trailing_number, sig_text,
    signature_note, trailing_digits,
};
use crate::field::f_zero;
use crate::msg::message::{Message, MessageType};
use crate::msg::result::AdkgResult;
use crate::polynomial::{pow2, uni_eval};
use crate::vec_check::{copy_usizes, is_invector, is_subset};
use std::collections::HashMap;
use vstd::prelude::*;

verus! {

broadcast use vstd::std_specs::hash::group_hash_axioms;

/// The key-generation driver of one participant: its sharing instance, the
/// dealers whose sharing completed, the proposal snapshot and the
/// signatures over it, the decided dealer set, and the reconstructed
/// contributions to aggregate into the public key.
pub struct AdkgNode {
    pub id: usize,
    pub state: usize,
    pub n: usize,
    pub f: usize,
    pub set_dealer: Vec<usize>,
    pub set_prop: Vec<usize>,
    pub hash_prop: HashMap<usize, Vec<usize>>,
    pub set_sig: Vec<(usize, Message)>,
    pub fin: bool,
    pub set_fin: Vec<usize>,
    pub hash_fin: Vec<(usize, u64)>,
    pub avss: AvssNode,
    pub res: Option<AdkgResult>,
}

pub open spec fn adkg_wf(a: AdkgNode) -> bool {
    &&& no_dups(a.set_dealer@)
    &&& avss_wf(a.avss)
    &&& a.avss.id == a.id
    &&& a.f < a.n
    &&& a.n < 0x4000
    &&& assoc_keys_unique(a.hash_fin@)
}

pub open spec fn assoc_keys_unique(s: Seq<(usize, u64)>) -> bool {
    forall|i: int, j: int| 0 <= i < j < s.len() ==> (#[trigger] s[i]).0 != (#[trigger] s[j]).0
}

pub open spec fn assoc_contains(s: Seq<(usize, u64)>, key: usize) -> bool {
    exists|i: int| 0 <= i < s.len() && (#[trigger] s[i]).0 == key
}

/// The table with `key` bound to `val`: the one entry of `key` replaced,
/// or a new entry appended when none exists.
pub open spec fn assoc_set(s: Seq<(usize, u64)>, key: usize, val: u64) -> Seq<(usize, u64)> {
    if assoc_contains(s, key) {
        s.update(choose|i: int| 0 <= i < s.len() && (#[trigger] s[i]).0 == key, (key, val))
    } else {
        s.push((key, val))
    }
}

/// The truncating aggregation of the recorded contributions: each value is
/// divided by the quorum size before summing.
pub open spec fn sum_div(entries: Seq<(usize, u64)>, nf: u64, k: int) -> int
    decreases k,
{
    if k <= 0 || nf == 0 {
        0
    } else {
        sum_div(entries, nf, k - 1) + (entries[k - 1].1 as int) / (nf as int)
    }
}

/// The state of a driver that has processed nothing yet: empty sets, no
/// record, and its own undealt sharing instance sized the ceiling base-two
/// logarithm of `n`, at least three.
pub open spec fn adkg_fresh(a: AdkgNode, id: usize, state: usize, n: usize, f: usize) -> bool {
    &&& a.id == id
    &&& a.state == state
    &&& a.n == n
    &&& a.f == f
    &&& a.set_dealer@.len() == 0
    &&& a.set_prop@.len() == 0
    &&& a.hash_prop@ == Map::<usize, Vec<usize>>::empty()
    &&& a.set_sig@.len() == 0
    &&& !a.fin
    &&& a.set_fin@.len() == 0
    &&& a.hash_fin@.len() == 0
    &&& a.res is None
    &&& !a.avss.dealt
    &&& a.avss.id == id
    &&& a.avss.terminate_round == 1
    &&& a.avss.log_n >= 3
    &&& pow2(a.avss.log_n as nat) >= n
    &&& (a.avss.log_n > 3 ==> pow2((a.avss.log_n - 1) as nat) < n)
    &&& a.avss.parties@.len() == pow2(2 * a.avss.log_n as nat)
}

/// What starting the run does: an honest driver deals its own sharing once and announces completion if the self-check passes.
pub open spec fn adkg_start_rel(pre: AdkgNode, post: AdkgNode, r: Option<Message>) -> bool {
    &&& (adkg_wf(post))
    &&& (post.id == pre.id && post.state == pre.state && post.n == pre.n && post.f == pre.f)
    &&& (post.set_dealer@ == pre.set_dealer@ && post.set_prop@ == pre.set_prop@ && post.fin == pre.fin)
    &&& (pre.state == 0 ==> r is None && post == pre)
    &&& (pre.state != 0 ==> post.avss.dealt && crate::client::avss::avss_bound(
                post.avss,
            ))
    &&& (pre.state != 0 && pre.avss.dealt ==> r is None && post == pre)
    &&& (match r {
                Some(m) => !pre.avss.dealt && m.sender_id == pre.id
                    && m.receiver_id@.len() == 0 && m.msg_type == MessageType::AkdgAvssFin
                    && m.msg_content@.len() == 0,
                None => true,
            })
}

/// What recording a completed dealer does: at exactly `f + 1` dealers the snapshot becomes the proposal and goes out.
pub open spec fn adkg_share_fin_rel(pre: AdkgNode, post: AdkgNode, id: usize, r: Option<Message>) -> bool {
    &&& (adkg_wf(post))
    &&& (post.id == pre.id && post.state == pre.state && post.n == pre.n && post.f == pre.f)
    &&& (post.hash_prop@ == pre.hash_prop@ && post.set_sig@ == pre.set_sig@ && post.fin == pre.fin && post.set_fin@ == pre.set_fin@ && post.hash_fin@ == pre.hash_fin@ && post.avss == pre.avss)
    &&& (pre.set_dealer@.contains(id) ==> post.set_dealer@ == pre.set_dealer@ && post.set_prop@ == pre.set_prop@ && r is None)
    &&& (!pre.set_dealer@.contains(id) ==> {
                &&& post.set_dealer@ == pre.set_dealer@.push(id)
                &&& if post.set_dealer@.len() == pre.f + 1 {
                    post.set_prop@ == post.set_dealer@ && emits(
                        r,
                        pre.id,
                        MessageType::AdkgProp,
                        post.set_prop@,
                    )
                } else {
                    post.set_prop@ == pre.set_prop@ && r is None
                }
            })
}

/// What handling a proposal does: it is cached once per proposer, and one contained in our dealer set earns a unicast signature.
pub open spec fn adkg_prop_rel(pre: AdkgNode, post: AdkgNode, msg: Message, r: Option<Message>) -> bool {
    &&& (adkg_wf(post))
    &&& (post.id == pre.id && post.state == pre.state && post.n == pre.n && post.f == pre.f)
    &&& (post.set_dealer@ == pre.set_dealer@ && post.set_prop@ == pre.set_prop@ && post.set_sig@ == pre.set_sig@ && post.fin == pre.fin && post.set_fin@ == pre.set_fin@ && post.hash_fin@ == pre.hash_fin@ && post.avss == pre.avss)
    &&& (pre.hash_prop@.contains_key(msg.sender_id) ==> post.hash_prop@ == pre.hash_prop@)
    &&& (!pre.hash_prop@.contains_key(msg.sender_id) ==> post.hash_prop@.dom()
                == pre.hash_prop@.dom().insert(msg.sender_id) && post.hash_prop@[msg.sender_id]@ == msg.msg_content@)
    &&& (({
                let ok = msg.msg_content@.to_set() <= pre.set_dealer@.to_set();
                match r {
                    Some(m) => ok && m.sender_id == pre.id && m.receiver_id@ == seq![
                        msg.sender_id,
                    ] && m.msg_type == MessageType::AdkgSig && m.msg_content@ == msg.msg_content@
                        && m.additional@ == sig_text(msg.msg_content@, pre.id as nat),
                    None => !ok,
                }
            }))
}

/// What collecting one signature does: one entry per sender; at exactly `f + 1` the agreement phase starts on this node's proposal.
pub open spec fn adkg_sig_rel(pre: AdkgNode, post: AdkgNode, msg: Message, r: Option<Message>) -> bool {
    &&& (adkg_wf(post))
    &&& (post.id == pre.id && post.state == pre.state && post.n == pre.n && post.f == pre.f)
    &&& (post.set_dealer@ == pre.set_dealer@ && post.set_prop@ == pre.set_prop@ && post.hash_prop@ == pre.hash_prop@ && post.fin
                == pre.fin && post.set_fin@ == pre.set_fin@ && post.hash_fin@ == pre.hash_fin@ && post.avss == pre.avss)
    &&& (({
                let accepted = msg.msg_content@.len() > 0 && pre.set_prop@.len() > 0
                    && trailing_digits(msg.additional@).len() > 0 && dec_val(
                    trailing_digits(msg.additional@),
                ) == msg.sender_id as nat && !crate::msg::message::signed_by(
                    pre.set_sig@,
                    msg.sender_id,
                );
                &&& (accepted ==> post.set_sig@ == pre.set_sig@.push(
                    (msg.sender_id, msg),
                ))
                &&& (!accepted ==> post.set_sig@ == pre.set_sig@ && r is None)
                &&& if accepted && post.set_sig@.len() == pre.f + 1 {
                    (r matches Some(m) && m.sender_id == pre.id && m.receiver_id@ == seq![
                        pre.id,
                    ] && m.msg_type == MessageType::VabaStart && m.msg_content@ == pre.set_prop@ && m.additional@.len() == 0)
                } else {
                    r is None
                }
            }))
}

/// What the agreement's decision does: the winner's cached proposal becomes the decided set and the node broadcasts its share sum over it.
pub open spec fn adkg_vaba_fin_rel(pre: AdkgNode, post: AdkgNode, msg: Message, r: Option<Message>) -> bool {
    &&& (adkg_wf(post))
    &&& (post.id == pre.id && post.state == pre.state && post.n == pre.n && post.f == pre.f)
    &&& (post.set_dealer@ == pre.set_dealer@ && post.set_prop@ == pre.set_prop@ && post.hash_prop@ == pre.hash_prop@ && post.set_sig@
                == pre.set_sig@ && post.hash_fin@ == pre.hash_fin@ && post.avss == pre.avss)
    &&& (({
                let usable = msg.msg_content@.len() > 0 && pre.hash_prop@.contains_key(
                    msg.msg_content@[0],
                ) && pre.avss.dealt && (forall|t: int|
                    0 <= t < pre.hash_prop@[msg.msg_content@[0]]@.len()
                        ==> (#[trigger] pre.hash_prop@[msg.msg_content@[0]]@[t])
                        < pre.avss.parties@.len());
                if usable {
                    &&& post.set_fin@ == pre.hash_prop@[msg.msg_content@[0]]@
                    &&& post.fin
                    &&& (r matches Some(m) && m.sender_id == pre.id && m.receiver_id@.len()
                        == 0 && m.msg_type == MessageType::SumAndRec && m.msg_content@.len() == 0
                        && m.additional@ == dec_rep(
                        sum_of_shares(
                            pre.avss,
                            post.set_fin@,
                            post.set_fin@.len() as int,
                        ).real as nat,
                    ))
                } else {
                    post.set_fin@ == pre.set_fin@ && post.fin == pre.fin
                        && r is None
                }
            }))
}

/// What recording one reconstruction report does: the table gains the sender's value, and the `n - f`-th report yields the terminal record.
pub open spec fn adkg_sum_rel(pre: AdkgNode, post: AdkgNode, msg: Message, r: Option<AdkgResult>) -> bool {
    &&& (adkg_wf(post))
    &&& (post.id == pre.id && post.state == pre.state && post.n == pre.n && post.f == pre.f)
    &&& (post.set_dealer@ == pre.set_dealer@ && post.set_prop@ == pre.set_prop@ && post.hash_prop@ == pre.hash_prop@ && post.set_sig@
                == pre.set_sig@ && post.fin == pre.fin && post.set_fin@
                == pre.set_fin@ && post.avss == pre.avss)
    &&& (({
                let parsed = msg.additional@.len() > 0 && all_dec_digits(msg.additional@)
                    && dec_val(msg.additional@) <= u64::MAX;
                if parsed {
                    let done = post.hash_fin@.len() == pre.n - pre.f;
                    &&& post.hash_fin@ == assoc_set(
                        pre.hash_fin@,
                        msg.sender_id,
                        dec_val(msg.additional@) as u64,
                    )
                    &&& if done {
                        (r matches Some(out) && out.id == pre.id && out.users@ == pre.set_fin@ && out.sk@ == dec_rep(
                            (if pre.avss.parties@[0].final_poly is Some {
                                uni_eval(
                                    crate::avss::party::party_share_coeffs(
                                        pre.avss.parties@[0],
                                    ),
                                    f_zero(),
                                )
                            } else {
                                f_zero()
                            }).real as nat,
                        ) && out.pk@ == dec_rep(
                            sum_div(
                                post.hash_fin@,
                                (pre.n - pre.f) as u64,
                                post.hash_fin@.len() as int,
                            ) as nat,
                        ))
                    } else {
                        r is None
                    }
                } else {
                    post.hash_fin@ == pre.hash_fin@ && r is None
                }
            }))
}

impl AdkgNode {
    /// A fresh driver for a run with `n` participants, `f` of them faulty.
    pub fn new(id: usize, state: usize, n: usize, f: usize) -> (r: AdkgNode)
        requires
            4 <= n < 0x4000,
            f < n,
        ensures
            adkg_wf(r),
            adkg_fresh(r, id, state, n, f),
    {
        let ln = log_2_n(n);
        let ln = if ln < 3 {
            3
        } else {
            ln
        };
        proof {
            vstd::arithmetic::power2::lemma2_to64();
            if ln >= 15 {
                if ln - 1 > 14 {
                    vstd::arithmetic::power2::lemma_pow2_strictly_increases(14, (ln - 1) as nat);
                }
                assert(pow2((ln - 1) as nat) >= 0x4000);
            }
        }
        AdkgNode {
            id,
            state,
            n,
            f,
            set_dealer: Vec::new(),
            set_prop: Vec::new(),
            hash_prop: HashMap::new(),
            set_sig: Vec::new(),
            fin: false,
            set_fin: Vec::new(),
            hash_fin: Vec::new(),
            avss: AvssNode::new(id, ln, 1),
            res: None,
        }
    }

    /// Wraps a payload as a message from this node.
    pub fn send_message(&self, recv: Vec<usize>, msg_type: MessageType, msg_content: Vec<usize>)
        -> (r: Option<Message>)
        ensures
            r matches Some(m) && m.sender_id == self.id && m.receiver_id@ == recv@ && m.msg_type
                == msg_type && m.msg_content@ == msg_content@ && m.additional@.len() == 0,
    {
        Message::send_message(self.id, recv, msg_type, msg_content)
    }

    /// Starting the run drives this node's own sharing; completion is
    /// announced to everyone.
    pub fn start(&mut self) -> (r: Option<Message>)
        requires
            adkg_wf(*old(self)),
        ensures
            adkg_start_rel(*old(self), *final(self), r),
    {
        if self.state == 0 {
            return None;
        }
        self.avss.send_and_verify(MessageType::AkdgAvssFin)
    }

    /// A dealer whose sharing completed joins `set_dealer`; at exactly
    /// `f + 1` dealers the snapshot becomes the proposal and is broadcast.
    pub fn handle_share_fin(&mut self, id: usize) -> (r: Option<Message>)
        requires
            adkg_wf(*old(self)),
        ensures
            adkg_share_fin_rel(*old(self), *final(self), id, r),
    {
        if is_invector(id, &self.set_dealer) {
            return None;
        }
        self.set_dealer.push(id);

        if self.set_dealer.len() == self.f + 1 {
            self.set_prop = copy_usizes(&self.set_dealer);
            return self.send_message(
                Vec::new(),
                MessageType::AdkgProp,
                copy_usizes(&self.set_prop),
            );
        }
        None
    }

    /// A proposal is cached under its proposer; one contained in our dealer
    /// set earns a signature, sent back to the proposer alone.
    pub fn handle_prop(&mut self, msg: Message) -> (r: Option<Message>)
        requires
            adkg_wf(*old(self)),
        ensures
            adkg_prop_rel(*old(self), *final(self), msg, r),
    {
        if !self.hash_prop.contains_key(&msg.sender_id) {
            self.hash_prop.insert(msg.sender_id, copy_usizes(&msg.msg_content));
        }

        if !is_subset(&msg.msg_content, &self.set_dealer) {
            return None;
        }

        let mut recv: Vec<usize> = Vec::new();
        recv.push(msg.sender_id);
        let note = signature_note(&msg.msg_content, self.id);
        let out = Message::send_message_with_addi(
            self.id,
            recv,
            MessageType::AdkgSig,
            copy_usizes(&msg.msg_content),
            note,
        );
        proof {
            assert(out.receiver_id@ =~= seq![msg.sender_id]);
        }
        Some(out)
    }

    /// A signature whose trailing number names its sender is collected,
    /// once per sender; at exactly `f + 1` signatures the agreement phase
    /// is triggered on this node's own proposal.
    pub fn handle_sig(&mut self, msg: Message) -> (r: Option<Message>)
        requires
            adkg_wf(*old(self)),
        ensures
            adkg_sig_rel(*old(self), *final(self), msg, r),
    {
        if msg.msg_content.len() == 0 || self.set_prop.len() == 0 {
            return None;
        }
        let number = match parse_trailing_number(&msg.additional) {
            Some(v) => v,
            None => {
                return None;
            },
        };
        if number != msg.sender_id {
            return None;
        }
        // one signature per sender: a redelivery changes nothing
        if crate::msg::message::has_signature_from(&self.set_sig, msg.sender_id) {
            return None;
        }
        let sender = msg.sender_id;
        self.set_sig.push((sender, msg));

        if self.set_sig.len() == self.f + 1 {
            let mut recv: Vec<usize> = Vec::new();
            recv.push(self.id);
            let out = self.send_message(
                recv,
                MessageType::VabaStart,
                copy_usizes(&self.set_prop),
            );
            proof {
                assert(out->Some_0.receiver_id@ =~= seq![old(self).id]);
            }
            return out;
        }
        None
    }

    /// The agreement's winner fixes the decided dealer set: the winner's
    /// cached proposal. The node then broadcasts the sum of its shares over
    /// that set. A winner without a cached proposal, a proposal naming an
    /// unknown party, or a node that never dealt drops the message.
    pub fn handle_vaba_fin(&mut self, msg: Message) -> (r: Option<Message>)
        requires
            adkg_wf(*old(self)),
        ensures
            adkg_vaba_fin_rel(*old(self), *final(self), msg, r),
    {
        if msg.msg_content.len() == 0 {
            return None;
        }
        let winner = msg.msg_content[0];
        let prop = match self.hash_prop.get(&winner) {
            Some(p) => copy_usizes(p),
            None => {
                return None;
            },
        };
        if !self.avss.dealt {
            return None;
        }
        // every decided dealer must name one of our parties
        let bound = self.avss.parties.len();
        if !ids_all_below(&prop, bound) {
            return None;
        }
        let sum = self.avss.sum_and_rec(&prop);
        self.set_fin = prop;
        self.fin = true;
        let text = crate::decimal::u64_to_string(sum.get_real());
        Some(
            Message::send_message_with_addi(
                self.id,
                Vec::new(),
                MessageType::SumAndRec,
                Vec::new(),
                text,
            ),
        )
    }

    /// A reconstruction report is recorded under its sender; once `n - f`
    /// participants have reported, the node emits its terminal record: the
    /// decided set, its own secret share, and the aggregated public key.
    pub fn sum_and_rec(&mut self, msg: Message) -> (r: Option<AdkgResult>)
        requires
            adkg_wf(*old(self)),
        ensures
            adkg_sum_rel(*old(self), *final(self), msg, r),
    {
        let v = match parse_all_digits(&msg.additional) {
            Some(v) => v,
            None => {
                return None;
            },
        };
        assoc_insert(&mut self.hash_fin, msg.sender_id, v);
        let n_f = self.n - self.f;
        if self.hash_fin.len() == n_f {
            let nf64 = n_f as u64;
            let mut sum: u64 = 0;
            let mut i: usize = 0;
            proof {
                vstd::arithmetic::div_mod::lemma_fundamental_div_mod(
                    u64::MAX as int,
                    nf64 as int,
                );
            }
            while i < self.hash_fin.len()
                invariant
                    i <= self.hash_fin@.len(),
                    self.hash_fin@.len() == n_f,
                    nf64 == n_f,
                    1 <= n_f < 0x4000,
                    sum as int == sum_div(self.hash_fin@, nf64, i as int),
                    sum as int <= (i as int) * ((u64::MAX as int) / (nf64 as int)),
                decreases self.hash_fin@.len() - i,
            {
                let term = self.hash_fin[i].1 / nf64;
                proof {
                    lemma_sum_div_bounds(
                        self.hash_fin@[i as int].1 as int,
                        sum as int,
                        i as int,
                        nf64 as int,
                        n_f as int,
                    );
                }
                sum = sum + term;
                i += 1;
            }
            let sk_val = self.avss.reconstruct().get_real();
            return Some(
                AdkgResult {
                    id: self.id,
                    users: copy_usizes(&self.set_fin),
                    sk: crate::decimal::u64_to_string(sk_val),
                    pk: crate::decimal::u64_to_string(sum),
                },
            );
        }
        None
    }
}

/// Reports whether every listed identifier is below the bound.
fn ids_all_below(v: &Vec<usize>, bound: usize) -> (r: bool)
    ensures
        r == (forall|t: int| 0 <= t < v@.len() ==> (#[trigger] v@[t]) < bound),
{
    let mut t: usize = 0;
    while t < v.len()
        invariant
            t <= v@.len(),
            forall|k: int| 0 <= k < t ==> (#[trigger] v@[k]) < bound,
        decreases v@.len() - t,
    {
        if v[t] >= bound {
            return false;
        }
        t += 1;
    }
    true
}

/// Records a value under a key, replacing any earlier record of that key.
fn assoc_insert(v: &mut Vec<(usize, u64)>, key: usize, val: u64)
    requires
        assoc_keys_unique(old(v)@),
    ensures
        assoc_keys_unique(final(v)@),
        final(v)@ == assoc_set(old(v)@, key, val),
        assoc_contains(final(v)@, key),
{
    let mut i: usize = 0;
    while i < v.len()
        invariant
            i <= v@.len(),
            v@ == old(v)@,
            assoc_keys_unique(v@),
            forall|k: int| 0 <= k < i ==> (#[trigger] v@[k]).0 != key,
        decreases v@.len() - i,
    {
        if v[i].0 == key {
            let ghost before = v@;
            v.remove(i);
            v.insert(i, (key, val));
            proof {
                assert(assoc_contains(before, key));
                let w = choose|w: int| 0 <= w < before.len() && (#[trigger] before[w]).0 == key;
                assert(w == i as int) by {
                    if w != i as int {
                        assert(before[w].0 != before[i as int].0);
                    }
                }
                assert(v@ =~= before.update(i as int, (key, val)));
                assert(v@.len() == before.len());
                assert forall|a: int, b: int|
                    0 <= a < b < v@.len() implies (#[trigger] v@[a]).0 != (#[trigger] v@[b]).0 by {
                    if a != i && b != i {
                        assert(v@[a] == before[a] && v@[b] == before[b]);
                    } else if a == i as int {
                        assert(v@[b] == before[b]);
                        assert(before[b].0 != before[i as int].0);
                    } else {
                        assert(v@[a] == before[a]);
                        assert(before[a].0 != before[i as int].0);
                    }
                }
                assert(v@[i as int].0 == key);
            }
            return ;
        }
        i += 1;
    }
    proof {
        assert(!assoc_contains(v@, key));
    }
    v.push((key, val));
    proof {
        assert(v@[v@.len() - 1].0 == key);
    }
}

/// One aggregation step stays within the machine range: the new term is at
/// most the per-term quota, and at most `n - f` terms are ever added.
proof fn lemma_sum_div_bounds(value: int, sum: int, i: int, nf: int, count: int)
    requires
        1 <= nf,
        nf == count,
        count < 0x4000,
        0 <= value <= u64::MAX,
        0 <= i < count,
        sum <= i * ((u64::MAX as int) / nf),
    ensures
        value / nf <= (u64::MAX as int) / nf,
        sum + value / nf <= (i + 1) * ((u64::MAX as int) / nf),
        (i + 1) * ((u64::MAX as int) / nf) <= count * ((u64::MAX as int) / nf),
        count * ((u64::MAX as int) / nf) <= u64::MAX,
    decreases 0int,
{
    let q = (u64::MAX as int) / nf;
    vstd::arithmetic::div_mod::lemma_div_is_ordered(value, u64::MAX as int, nf);
    assert(sum + value / nf <= i * q + q);
    assert(i * q + q == (i + 1) * q) by (nonlinear_arith);
    vstd::arithmetic::div_mod::lemma_fundamental_div_mod(u64::MAX as int, nf);
    assert((u64::MAX as int) % nf >= 0);
    assert(nf * q <= u64::MAX);
    assert((i + 1) * q <= count * q) by (nonlinear_arith)
        requires
            i + 1 <= count,
            q >= 0,
    ;
    assert(count * q == nf * q);
}

/// The ceiling base-two logarithm: the exact logarithm for powers of two.
pub fn log_2_n(n: usize) -> (r: usize)
    requires
        1 <= n <= 0x20000000,
    ensures
        pow2(r as nat) >= n,
        r > 0 ==> pow2((r - 1) as nat) < n,
{
    let mut i: usize = 0;
    let mut tmp: usize = n;
    proof {
        vstd::arithmetic::power2::lemma2_to64();
    }
    while tmp > 1
        invariant
            tmp >= 1,
            i <= 29,
            n <= 0x20000000,
            tmp * pow2(i as nat) <= n,
            n < (tmp + 1) * pow2(i as nat),
        decreases tmp,
    {
        proof {
            vstd::arithmetic::power2::lemma_pow2_unfold((i + 1) as nat);
            vstd::arithmetic::power2::lemma_pow2_pos(i as nat);
            crate::client::vaba::lemma_log_step(tmp as int, pow2(i as nat) as int, n as int);
            if i + 1 > 29 {
                assert((tmp / 2) * pow2((i + 1) as nat) <= n);
                vstd::arithmetic::mul::lemma_mul_increases(
                    tmp as int / 2,
                    pow2((i + 1) as nat) as int,
                );
                if i + 1 > 30 {
                    vstd::arithmetic::power2::lemma_pow2_strictly_increases(30, (i + 1) as nat);
                }
                vstd::arithmetic::power2::lemma2_to64();
                assert(pow2(30) == 0x40000000);
                assert(false);
            }
        }
        tmp = tmp / 2;
        i += 1;
    }
    proof {
        assert(tmp == 1);
        assert(pow2(i as nat) <= n);
        assert(n < 2 * pow2(i as nat));
    }
    let shifted = pow2_matches(i, n);
    if shifted {
        i
    } else {
        proof {
            vstd::arithmetic::power2::lemma_pow2_unfold((i + 1) as nat);
        }
        i + 1
    }
}

/// Whether `pow2(i)` equals `n` exactly.
fn pow2_matches(i: usize, n: usize) -> (r: bool)
    requires
        i < 30,
    ensures
        r == (pow2(i as nat) == n),
{
    let p = crate::polynomial::pow2_usize(i);
    p == n
}

} // verus!
