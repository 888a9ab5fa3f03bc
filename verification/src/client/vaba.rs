use crate::client::avss::{avss_wf, AvssNode};
use crate::client::gather::{emits, no_dups};
use crate::decimal::{
    dec_rep, dec_val, sig_text, signature_note, trailing_digits, parse_all_digits,
    parse_trailing_number, all_dec_digits,
};
use crate::field::f_zero;
use crate::msg::message::{Message, MessageType};
use crate::polynomial::{pow2, uni_eval};
use crate::vec_check::{copy_usizes, is_invector, is_subset, is_equal};
use std::collections::HashMap;
use vstd::prelude::*;

verus! {

broadcast use vstd::std_specs::hash::group_hash_axioms;

/// The validated-agreement state machine of one participant: its own
/// sharing instance, the dealers whose sharing completed, the snapshot
/// proposed at `f + 1` dealers, the signatures gathered over it, the index
/// set returned by Gather, and the reconstructed values to choose the
/// maximum from.
pub struct VabaNode {
    pub id: usize,
    pub state: usize,
    pub f: usize,
    pub set_dealer: Vec<usize>,
    pub set_attached: Vec<usize>,
    pub set_sig: Vec<(usize, Message)>,
    pub set_indice: Vec<usize>,
    pub set_fin: HashMap<usize, u64>,
    pub avss: AvssNode,
    pub res: (usize, u64),
    pub fin: bool,
}

pub open spec fn vaba_wf(v: VabaNode) -> bool {
    &&& no_dups(v.set_dealer@)
    &&& avss_wf(v.avss)
    &&& v.avss.id == v.id
    &&& v.f < usize::MAX
}

/// The state of a node that has processed nothing yet: empty sets, no
/// winner, and its own undealt sharing instance sized one above the floor
/// base-two logarithm of `n`.
pub open spec fn vaba_fresh(v: VabaNode, id: usize, state: usize, n: usize, f: usize) -> bool {
    &&& v.id == id
    &&& v.state == state
    &&& v.f == f
    &&& v.set_dealer@.len() == 0
    &&& v.set_attached@.len() == 0
    &&& v.set_sig@.len() == 0
    &&& v.set_indice@.len() == 0
    &&& v.set_fin@ == Map::<usize, u64>::empty()
    &&& !v.fin
    &&& v.res == (0usize, 0u64)
    &&& !v.avss.dealt
    &&& v.avss.id == id
    &&& v.avss.terminate_round == 1
    &&& pow2((v.avss.log_n - 1) as nat) <= n < pow2(v.avss.log_n as nat)
    &&& v.avss.parties@.len() == pow2(2 * v.avss.log_n as nat)
}

/// What recording a completed dealer does, as a relation over the state before and after.
pub open spec fn vaba_share_fin_rel(pre: VabaNode, post: VabaNode, id: usize, r: Option<Message>) -> bool {
    &&& (vaba_wf(post))
    &&& (post.id == pre.id && post.state == pre.state && post.f == pre.f)
    &&& (post.set_sig@ == pre.set_sig@ && post.set_indice@ == pre.set_indice@ && post.set_fin@ == pre.set_fin@ && post.fin == pre.fin && post.avss == pre.avss)
    &&& (pre.set_dealer@.contains(id) ==> post.set_dealer@ == pre.set_dealer@ && post.set_attached@ == pre.set_attached@ && r is None)
    &&& (!pre.set_dealer@.contains(id) ==> {
                &&& post.set_dealer@ == pre.set_dealer@.push(id)
                &&& if post.set_dealer@.len() == pre.f + 1 {
                    &&& post.set_attached@ == post.set_dealer@
                    &&& if pre.state != 0 {
                        emits(
                            r,
                            pre.id,
                            MessageType::VabaAttach,
                            post.set_attached@,
                        )
                    } else {
                        r is None
                    }
                } else {
                    post.set_attached@ == pre.set_attached@ && r is None
                }
            })
}

/// What handling an attached proposal does: a proposal contained in our dealer set earns a unicast signature.
pub open spec fn vaba_attach_rel(pre: VabaNode, post: VabaNode, msg: Message, r: Option<Message>) -> bool {
    &&& (vaba_wf(post))
    &&& (post == pre)
    &&& (({
                let ok = msg.msg_content@.to_set() <= pre.set_dealer@.to_set() && pre.state != 0;
                match r {
                    Some(m) => ok && m.sender_id == pre.id && m.receiver_id@ == seq![
                        msg.sender_id,
                    ] && m.msg_type == MessageType::VabaSig && m.msg_content@ == msg.msg_content@
                        && m.additional@ == sig_text(msg.msg_content@, pre.id as nat),
                    None => !ok,
                }
            }))
}

/// What collecting one signature does: one entry per sender; at exactly `f + 1` the local Gather run starts on the attached proposal.
pub open spec fn vaba_sig_rel(pre: VabaNode, post: VabaNode, msg: Message, r: Option<Message>) -> bool {
    &&& (vaba_wf(post))
    &&& (post.id == pre.id && post.state == pre.state && post.f == pre.f)
    &&& (post.set_dealer@ == pre.set_dealer@ && post.set_attached@ == pre.set_attached@ && post.set_indice@ == pre.set_indice@ && post.set_fin@ == pre.set_fin@ && post.fin == pre.fin && post.avss == pre.avss)
    &&& (({
                let accepted = msg.msg_content@.len() > 0 && pre.set_attached@.len() > 0
                    && trailing_digits(msg.additional@).len() > 0 && dec_val(
                    trailing_digits(msg.additional@),
                ) == msg.sender_id as nat && !crate::msg::message::signed_by(
                    pre.set_sig@,
                    msg.sender_id,
                );
                &&& (accepted ==> post.set_sig@ == pre.set_sig@.push(
                    (msg.sender_id, msg),
                ))
                &&& (!accepted ==> post.set_sig@ == pre.set_sig@ && r is None)
                &&& if accepted && post.set_sig@.len() == pre.f + 1 && pre.state
                    != 0 {
                    (r matches Some(m) && m.sender_id == pre.id && m.receiver_id@ == seq![
                        pre.id,
                    ] && m.msg_type == MessageType::GatherStart && m.msg_content@ == pre.set_attached@ && m.additional@.len() == 0)
                } else {
                    r is None
                }
            }))
}

/// What taking the Gather output does: it becomes the index set and is broadcast for cross-checking.
pub open spec fn vaba_gather_fin_rel(pre: VabaNode, post: VabaNode, msg: Message, r: Option<Message>) -> bool {
    &&& (vaba_wf(post))
    &&& (post.set_indice@ == msg.msg_content@)
    &&& (post.id == pre.id && post.state == pre.state && post.f == pre.f)
    &&& (post.set_dealer@ == pre.set_dealer@ && post.set_attached@ == pre.set_attached@ && post.set_sig@ == pre.set_sig@ && post.set_fin@
                == pre.set_fin@ && post.fin == pre.fin && post.avss
                == pre.avss)
    &&& (pre.state == 0 ==> r is None)
    &&& (pre.state != 0 ==> emits(r, pre.id, MessageType::VabaIndice, msg.msg_content@))
}

/// What a cross-check does: an index set equal to ours that names this node triggers the reconstruction broadcast.
pub open spec fn vaba_indice_rel(pre: VabaNode, post: VabaNode, msg: Message, r: Option<Message>) -> bool {
    &&& (vaba_wf(post))
    &&& (post == pre)
    &&& (({
                let ok = msg.msg_content@.to_set() == pre.set_indice@.to_set()
                    && msg.msg_content@.contains(pre.id);
                match r {
                    Some(m) => ok && m.sender_id == pre.id && m.receiver_id@.len() == 0
                        && m.msg_type == MessageType::VabaEval && m.msg_content@.len() == 0
                        && m.additional@ == dec_rep(
                        (if pre.avss.parties@[0].final_poly is Some {
                            uni_eval(
                                crate::avss::party::party_share_coeffs(
                                    pre.avss.parties@[0],
                                ),
                                f_zero(),
                            )
                        } else {
                            f_zero()
                        }).real as nat,
                    ),
                    None => !ok,
                }
            }))
}

/// What recording one reconstruction does: the value joins the table, the running maximum advances, and the last report announces the winner and its value.
pub open spec fn vaba_eval_rel(pre: VabaNode, post: VabaNode, msg: Message, r: Option<Message>) -> bool {
    &&& (vaba_wf(post))
    &&& (post.id == pre.id && post.state == pre.state && post.f == pre.f)
    &&& (post.set_dealer@ == pre.set_dealer@ && post.set_attached@ == pre.set_attached@ && post.set_sig@ == pre.set_sig@ && post.set_indice@ == pre.set_indice@ && post.avss == pre.avss)
    &&& (pre.fin ==> post == pre && r is None)
    &&& (!pre.fin ==> ({
                let parsed = msg.additional@.len() > 0 && all_dec_digits(msg.additional@)
                    && dec_val(msg.additional@) <= u64::MAX;
                let counted = pre.set_indice@.contains(msg.sender_id);
                &&& (counted && !parsed ==> post == pre && r is None)
                &&& (counted && parsed ==> post.set_fin@ == pre.set_fin@.insert(
                    msg.sender_id,
                    dec_val(msg.additional@) as u64,
                ))
                &&& (!counted ==> post.set_fin@ == pre.set_fin@)
                &&& post.res == (if counted && parsed && dec_val(msg.additional@) as u64
                    > pre.res.1 {
                    (msg.sender_id, dec_val(msg.additional@) as u64)
                } else {
                    pre.res
                })
                &&& ({
                    let done = post.set_fin@.len() == post.set_indice@.len()
                        && (!counted || parsed);
                    &&& post.fin == done
                    &&& if done {
                        (r matches Some(m) && m.sender_id == pre.id && m.receiver_id@.len()
                            == 0 && m.msg_type == MessageType::VabaFin && m.msg_content@ == seq![
                            post.res.0,
                        ] && m.additional@ == dec_rep(post.res.1 as nat))
                    } else {
                        r is None
                    }
                })
            }))
}

/// What starting the agreement does: an honest node deals its own
/// sharing once and announces completion if the self-check passes.
pub open spec fn vaba_start_rel(pre: VabaNode, post: VabaNode, r: Option<Message>) -> bool {
    &&& vaba_wf(post)
    &&& post.id == pre.id && post.state == pre.state && post.f == pre.f
    &&& post.set_dealer@ == pre.set_dealer@
    &&& post.set_attached@ == pre.set_attached@
    &&& post.set_indice@ == pre.set_indice@
    &&& post.fin == pre.fin
    &&& (pre.state == 0 ==> r is None && post == pre)
    &&& (pre.state != 0 ==> post.avss.dealt && crate::client::avss::avss_bound(post.avss))
    &&& (pre.state != 0 && pre.avss.dealt ==> r is None && post == pre)
    &&& match r {
        Some(m) => !pre.avss.dealt && m.sender_id == pre.id && m.receiver_id@.len() == 0
            && m.msg_type == MessageType::VabaAvssFin && m.msg_content@.len() == 0,
        None => true,
    }
}

impl VabaNode {
    /// A fresh node for a run with `n` participants, `f` of them faulty.
    pub fn new(id: usize, state: usize, n: usize, f: usize) -> (r: VabaNode)
        requires
            4 <= n < 0x4000,
            f <= n,
        ensures
            vaba_wf(r),
            vaba_fresh(r, id, state, n, f),
    {
        let ln = log_2_n(n);
        proof {
            vstd::arithmetic::power2::lemma2_to64();
            if ln >= 16 {
                vstd::arithmetic::power2::lemma_pow2_strictly_increases(14, (ln - 1) as nat);
            }
            if ln == 15 {
                assert(pow2((ln - 1) as nat) == 0x4000);
            }
            if ln < 3 {
                if ln < 2 {
                    vstd::arithmetic::power2::lemma_pow2_strictly_increases(ln as nat, 2);
                }
                assert(pow2(ln as nat) <= 4);
            }
        }
        VabaNode {
            id,
            state,
            f,
            set_dealer: Vec::new(),
            set_attached: Vec::new(),
            set_sig: Vec::new(),
            set_indice: Vec::new(),
            set_fin: HashMap::new(),
            avss: AvssNode::new(id, ln, 1),
            res: (0, 0),
            fin: false,
        }
    }

    /// Wraps a payload as a message from this node; silent when the node is
    /// not honest.
    pub fn send_message(&self, recv: Vec<usize>, msg_type: MessageType, msg_content: Vec<usize>)
        -> (r: Option<Message>)
        ensures
            self.state == 0 ==> r is None,
            self.state != 0 ==> (r matches Some(m) && m.sender_id == self.id && m.receiver_id@
                == recv@ && m.msg_type == msg_type && m.msg_content@ == msg_content@
                && m.additional@.len() == 0),
    {
        if self.state == 0 {
            return None;
        }
        Message::send_message(self.id, recv, msg_type, msg_content)
    }

    /// Starting the agreement drives this node's own sharing; completion is
    /// announced to everyone.
    pub fn start(&mut self) -> (r: Option<Message>)
        requires
            vaba_wf(*old(self)),
        ensures
            vaba_start_rel(*old(self), *final(self), r),
    {
        if self.state == 0 {
            return None;
        }
        self.avss.send_and_verify(MessageType::VabaAvssFin)
    }

    /// Records a completed dealer through the agreement's start entry
    /// point; it advances the state exactly as `handle_share_fin` does.
    pub fn handle_start(&mut self, id: usize) -> (r: Option<Message>)
        requires
            vaba_wf(*old(self)),
        ensures
            vaba_share_fin_rel(*old(self), *final(self), id, r),
    {
        self.handle_share_fin(id)
    }

    /// A dealer whose sharing completed joins `set_dealer`; at exactly
    /// `f + 1` dealers the snapshot is attached and broadcast.
    pub fn handle_share_fin(&mut self, id: usize) -> (r: Option<Message>)
        requires
            vaba_wf(*old(self)),
        ensures
            vaba_share_fin_rel(*old(self), *final(self), id, r),
    {
        if is_invector(id, &self.set_dealer) {
            return None;
        }
        self.set_dealer.push(id);

        if self.set_dealer.len() == self.f + 1 {
            self.set_attached = copy_usizes(&self.set_dealer);
            return self.send_message(
                Vec::new(),
                MessageType::VabaAttach,
                copy_usizes(&self.set_attached),
            );
        }
        None
    }

    /// A proposal contained in our dealer set earns a signature, sent back
    /// to the proposer alone; the signature text ends in our identifier.
    pub fn handle_attach(&mut self, msg: Message) -> (r: Option<Message>)
        requires
            vaba_wf(*old(self)),
        ensures
            vaba_attach_rel(*old(self), *final(self), msg, r),
    {
        if !is_subset(&msg.msg_content, &self.set_dealer) {
            return None;
        }
        let mut recv: Vec<usize> = Vec::new();
        recv.push(msg.sender_id);
        let content = copy_usizes(&msg.msg_content);
        let note = signature_note(&msg.msg_content, self.id);
        match self.send_message(recv, MessageType::VabaSig, content) {
            Some(m) => {
                proof {
                    assert(m.receiver_id@ =~= seq![msg.sender_id]);
                }
                Some(
                    Message {
                        sender_id: m.sender_id,
                        receiver_id: m.receiver_id,
                        msg_type: m.msg_type,
                        msg_content: m.msg_content,
                        additional: note,
                    },
                )
            },
            None => None,
        }
    }

    /// A signature whose trailing number names its sender is collected,
    /// once per sender; at exactly `f + 1` signatures the local Gather run
    /// is triggered on this node's own attached proposal.
    pub fn handle_sig(&mut self, msg: Message) -> (r: Option<Message>)
        requires
            vaba_wf(*old(self)),
        ensures
            vaba_sig_rel(*old(self), *final(self), msg, r),
    {
        if msg.msg_content.len() == 0 || self.set_attached.len() == 0 {
            return None;
        }
        let number = match parse_trailing_number(&msg.additional) {
            Some(v) => v,
            None => {
                return None;
            },
        };
        if number != msg.sender_id {
            return None;
        }
        // one signature per sender: a redelivery changes nothing
        if crate::msg::message::has_signature_from(&self.set_sig, msg.sender_id) {
            return None;
        }
        let sender = msg.sender_id;
        self.set_sig.push((sender, msg));

        if self.set_sig.len() == self.f + 1 {
            let mut recv: Vec<usize> = Vec::new();
            recv.push(self.id);
            let out = self.send_message(
                recv,
                MessageType::GatherStart,
                copy_usizes(&self.set_attached),
            );
            proof {
                if self.state != 0 {
                    assert(out matches Some(m) && m.receiver_id@ =~= seq![old(self).id]);
                }
            }
            return out;
        }
        None
    }

    /// The Gather output becomes this node's index set and is broadcast
    /// for the others to cross-check.
    pub fn handle_gather_fin(&mut self, msg: Message) -> (r: Option<Message>)
        requires
            vaba_wf(*old(self)),
        ensures
            vaba_gather_fin_rel(*old(self), *final(self), msg, r),
    {
        self.set_indice = copy_usizes(&msg.msg_content);
        self.send_message(Vec::new(), MessageType::VabaIndice, copy_usizes(&self.set_indice))
    }

    /// A cross-checked index set that names this node triggers the
    /// reconstruction broadcast: the constant coefficient of our first
    /// party's share, in decimal.
    pub fn handle_indice(&mut self, msg: Message) -> (r: Option<Message>)
        requires
            vaba_wf(*old(self)),
        ensures
            vaba_indice_rel(*old(self), *final(self), msg, r),
    {
        let indice = copy_usizes(&msg.msg_content);
        if self.verify_indice(indice) {
            if is_invector(self.id, &msg.msg_content) {
                let secret = self.avss.reconstruct().get_real();
                let text = crate::decimal::u64_to_string(secret);
                return Some(
                    Message::send_message_with_addi(
                        self.id,
                        Vec::new(),
                        MessageType::VabaEval,
                        Vec::new(),
                        text,
                    ),
                );
            }
        }
        None
    }

    /// A reconstruction from a member of the index set is recorded, keeping
    /// the running maximum; once every member has reported, the winner and
    /// its value are announced.
    pub fn handle_eval(&mut self, msg: Message) -> (r: Option<Message>)
        requires
            vaba_wf(*old(self)),
        ensures
            vaba_eval_rel(*old(self), *final(self), msg, r),
    {
        if self.fin {
            return None;
        }
        if is_invector(msg.sender_id, &self.set_indice) {
            let s = match parse_all_digits(&msg.additional) {
                Some(v) => v,
                None => {
                    return None;
                },
            };
            self.set_fin.insert(msg.sender_id, s);
            if s > self.res.1 {
                self.res = (msg.sender_id, s);
            }
        }
        if self.set_fin.len() == self.set_indice.len() {
            self.fin = true;
            let mut content: Vec<usize> = Vec::new();
            content.push(self.res.0);
            proof {
                assert(content@ =~= seq![self.res.0]);
            }
            let winner_value = crate::decimal::u64_to_string(self.res.1);
            return Some(
                Message::send_message_with_addi(
                    self.id,
                    Vec::new(),
                    MessageType::VabaFin,
                    content,
                    winner_value,
                ),
            );
        }
        None
    }

    /// A reported index set is accepted exactly when it names the same set
    /// of identifiers as ours.
    pub fn verify_indice(&self, indice: Vec<usize>) -> (r: bool)
        ensures
            r == (indice@.to_set() == self.set_indice@.to_set()),
    {
        is_equal(&indice, &self.set_indice)
    }
}

/// One more than the floor base-two logarithm: the sharing dimension used
/// for a run with `n` participants.
pub fn log_2_n(n: usize) -> (r: usize)
    requires
        n >= 1,
    ensures
        r >= 1,
        pow2((r - 1) as nat) <= n < pow2(r as nat),
{
    let mut i: usize = 0;
    let mut tmp: usize = n;
    proof {
        vstd::arithmetic::power2::lemma2_to64();
    }
    while tmp > 1
        invariant
            tmp >= 1,
            i <= 63,
            tmp * pow2(i as nat) <= n,
            n < (tmp + 1) * pow2(i as nat),
        decreases tmp,
    {
        proof {
            vstd::arithmetic::power2::lemma_pow2_unfold((i + 1) as nat);
            vstd::arithmetic::power2::lemma_pow2_pos(i as nat);
            lemma_log_step(tmp as int, pow2(i as nat) as int, n as int);
            if i + 1 > 63 {
                vstd::arithmetic::power2::lemma2_to64_rest();
                vstd::arithmetic::power2::lemma_pow2_pos(i as nat);
                assert((tmp / 2) * pow2((i + 1) as nat) <= n);
                assert(tmp / 2 >= 1);
                vstd::arithmetic::mul::lemma_mul_increases(
                    tmp as int / 2,
                    pow2((i + 1) as nat) as int,
                );
                assert(pow2(64) == 0x10000000000000000);
                assert(false);
            }
        }
        tmp = tmp / 2;
        i += 1;
    }
    proof {
        vstd::arithmetic::power2::lemma_pow2_unfold((i + 1) as nat);
        assert(tmp == 1);
        assert(pow2(i as nat) <= n);
        assert(n < 2 * pow2(i as nat));
    }
    i + 1
}

/// One halving step of the logarithm loop keeps its bracketing bounds.
pub proof fn lemma_log_step(tmp: int, p: int, n: int)
    requires
        tmp >= 2,
        p >= 1,
        tmp * p <= n,
        n < (tmp + 1) * p,
    ensures
        (tmp / 2) * (2 * p) <= n,
        n < (tmp / 2 + 1) * (2 * p),
        tmp / 2 >= 1,
{
    assert((tmp / 2) * (2 * p) <= tmp * p) by (nonlinear_arith)
        requires
            tmp >= 2,
            p >= 1,
    ;
    assert((tmp + 1) * p <= (tmp / 2 + 1) * (2 * p)) by (nonlinear_arith)
        requires
            tmp >= 2,
            p >= 1,
    ;
}

} // verus!
