use crate::client::adkg::{
    adkg_prop_rel, adkg_share_fin_rel, adkg_sig_rel, adkg_sum_rel, adkg_vaba_fin_rel, adkg_wf,
    AdkgNode,
};
use crate::client::gather::{
    gather1_rel, gather2_rel, gather3_rel, gather_start_rel, gather_wf, GatherNode,
};
use crate::client::vaba::{
    vaba_attach_rel, vaba_eval_rel, vaba_gather_fin_rel, vaba_indice_rel, vaba_share_fin_rel,
    vaba_sig_rel, vaba_start_rel, vaba_wf, VabaNode,
};
use crate::msg::message::{Message, MessageType};
use crate::msg::result::AdkgResult;
use vstd::prelude::*;
use vstd::string::*;

verus! {

/// One participant: the three sub-state-machines and the reactive
/// dispatcher that threads each inbound message into the right one.
pub struct Client {
    pub id: usize,
    pub state: usize,
    pub n: usize,
    pub f: usize,
    pub additional_data: String,
    pub gather: GatherNode,
    pub vaba: VabaNode,
    pub adkg: AdkgNode,
}

pub open spec fn client_wf(c: Client) -> bool {
    &&& gather_wf(c.gather)
    &&& vaba_wf(c.vaba)
    &&& adkg_wf(c.adkg)
}

/// What one dispatched message does to a running participant: the
/// sub-machine its kind addresses advances exactly as that handler's
/// relation prescribes, the other two stand still, and internally routed
/// steps (agreement start, gather start, the gather result, the decision)
/// are consumed on the spot.
pub open spec fn dispatch_rel(pre: Client, post: Client, msg: Message, r: Option<Message>) -> bool {
    match msg.msg_type {
        MessageType::AkdgAvssFin => adkg_share_fin_rel(pre.adkg, post.adkg, msg.sender_id, r)
            && post.vaba == pre.vaba && post.gather == pre.gather,
        MessageType::AdkgProp => adkg_prop_rel(pre.adkg, post.adkg, msg, r) && post.vaba
            == pre.vaba && post.gather == pre.gather,
        MessageType::AdkgSig => exists|m: Option<Message>|
            {
                &&& #[trigger] adkg_sig_rel(pre.adkg, post.adkg, msg, m)
                &&& match m {
                    Some(_) => vaba_start_rel(pre.vaba, post.vaba, r) && post.gather == pre.gather,
                    None => r is None && post.vaba == pre.vaba && post.gather == pre.gather,
                }
            },
        MessageType::VabaAvssFin => vaba_share_fin_rel(pre.vaba, post.vaba, msg.sender_id, r)
            && post.adkg == pre.adkg && post.gather == pre.gather,
        MessageType::VabaAttach => vaba_attach_rel(pre.vaba, post.vaba, msg, r) && post.adkg
            == pre.adkg && post.gather == pre.gather,
        MessageType::VabaSig => exists|m: Option<Message>|
            {
                &&& #[trigger] vaba_sig_rel(pre.vaba, post.vaba, msg, m)
                &&& post.adkg == pre.adkg && post.gather == pre.gather
                &&& match m {
                    Some(_) => gather_start_rel(pre.gather, r),
                    None => r is None,
                }
            },
        MessageType::VabaIndice => vaba_indice_rel(pre.vaba, post.vaba, msg, r) && post.adkg
            == pre.adkg && post.gather == pre.gather,
        MessageType::VabaEval => exists|m: Option<Message>|
            {
                &&& #[trigger] vaba_eval_rel(pre.vaba, post.vaba, msg, m)
                &&& post.gather == pre.gather
                &&& match m {
                    Some(mm) => adkg_vaba_fin_rel(pre.adkg, post.adkg, mm, r),
                    None => r is None && post.adkg == pre.adkg,
                }
            },
        MessageType::Gather1 => gather1_rel(pre.gather, post.gather, msg, r) && post.adkg
            == pre.adkg && post.vaba == pre.vaba,
        MessageType::Gather2 => gather2_rel(pre.gather, post.gather, msg, r) && post.adkg
            == pre.adkg && post.vaba == pre.vaba,
        MessageType::Gather3 => exists|m: Option<Message>|
            {
                &&& #[trigger] gather3_rel(pre.gather, post.gather, msg, m)
                &&& post.adkg == pre.adkg
                &&& match m {
                    Some(mm) => vaba_gather_fin_rel(pre.vaba, post.vaba, mm, r),
                    None => r is None && post.vaba == pre.vaba,
                }
            },
        MessageType::SumAndRec => r is None && post.vaba == pre.vaba && post.gather == pre.gather
            && (exists|record: Option<crate::msg::result::AdkgResult>, mid: AdkgNode|
            {
                &&& #[trigger] adkg_sum_rel(pre.adkg, mid, msg, record)
                &&& match record {
                    Some(rr) => post.adkg == (AdkgNode { res: Some(rr), ..mid }),
                    None => post.adkg == mid,
                }
            }),
        _ => r is None && post == pre,
    }
}

impl Client {
    /// A participant of a run with `n` participants, `f` of them faulty;
    /// `state` is one for an honest participant and zero for a silent one.
    pub fn new(id: usize, state: usize, n: usize, f: usize) -> (r: Client)
        requires
            4 <= n < 0x4000,
            f < n,
        ensures
            client_wf(r),
            r.id == id,
            r.state == state,
            r.n == n,
            r.f == f,
            crate::client::gather::gather_fresh(r.gather, id, state, n, f),
            crate::client::vaba::vaba_fresh(r.vaba, id, state, n, f),
            crate::client::adkg::adkg_fresh(r.adkg, id, state, n, f),
    {
        Client {
            id,
            state,
            n,
            f,
            additional_data: String::new(),
            gather: GatherNode::new(id, state, n, f),
            vaba: VabaNode::new(id, state, n, f),
            adkg: AdkgNode::new(id, state, n, f),
        }
    }

    /// An honest participant opens the run by dealing its own sharing; a
    /// silent one does nothing.
    pub fn start(&mut self) -> (r: Option<Message>)
        requires
            client_wf(*old(self)),
        ensures
            client_wf(*final(self)),
            final(self).id == old(self).id && final(self).state == old(self).state && final(self).n == old(self).n && final(self).f == old(self).f,
            old(self).state == 0 ==> r is None && *final(self) == *old(self),
            old(self).state != 0 && old(self).adkg.state != 0 ==> final(self).adkg.avss.dealt
                && crate::client::avss::avss_bound(final(self).adkg.avss),
            match r {
                Some(m) => !old(self).adkg.avss.dealt && m.sender_id == old(self).adkg.id
                    && m.receiver_id@.len() == 0 && m.msg_type == MessageType::AkdgAvssFin
                    && m.msg_content@.len() == 0,
                None => true,
            },
    {
        if self.state == 0 {
            return None;
        }
        self.adkg.start()
    }

    /// Dispatches one inbound message to the sub-machine its kind names,
    /// then routes internally triggered steps: agreement start, gather
    /// start, the gather result, and the agreement's decision. The returned
    /// message, if any, is handed to the transport. A terminal record is
    /// kept on the driver.
    pub fn handle_message(&mut self, msg: Message) -> (r: Option<Message>)
        requires
            client_wf(*old(self)),
        ensures
            client_wf(*final(self)),
            final(self).id == old(self).id && final(self).state == old(self).state && final(self).n == old(self).n && final(self).f == old(self).f,
            old(self).state == 0 ==> r is None && *final(self) == *old(self),
            old(self).state != 0 ==> dispatch_rel(*old(self), *final(self), msg, r),
    {
        if self.state == 0 {
            return None;
        }

        let message = match msg.msg_type {
            MessageType::AkdgAvssFin => self.adkg.handle_share_fin(msg.sender_id),
            MessageType::AdkgProp => self.adkg.handle_prop(msg),
            MessageType::AdkgSig => self.adkg.handle_sig(msg),
            MessageType::VabaAvssFin => self.vaba.handle_share_fin(msg.sender_id),
            MessageType::VabaAttach => self.vaba.handle_attach(msg),
            MessageType::VabaSig => self.vaba.handle_sig(msg),
            MessageType::VabaIndice => self.vaba.handle_indice(msg),
            MessageType::VabaEval => self.vaba.handle_eval(msg),
            MessageType::Gather1 => self.gather.handle_gather_1(msg),
            MessageType::Gather2 => self.gather.handle_gather_2(msg),
            MessageType::Gather3 => self.gather.handle_gather_3(msg),
            MessageType::SumAndRec => {
                let res = self.adkg.sum_and_rec(msg);
                match res {
                    Some(record) => {
                        self.end(record);
                        None
                    },
                    None => None,
                }
            },
            _ => None,
        };

        match message {
            Some(m) => {
                match m.msg_type {
                    MessageType::VabaStart => self.vaba.start(),
                    MessageType::GatherStart => self.gather.start(),
                    MessageType::GatherFin => self.vaba.handle_gather_fin(m),
                    MessageType::VabaFin => self.adkg.handle_vaba_fin(m),
                    _ => Some(m),
                }
            },
            None => None,
        }
    }

    /// Opens the local common-core run directly: the first-round broadcast
    /// of this participant's gather machine.
    pub fn gather_start(&self) -> (r: Option<Message>)
        ensures
            self.state == 0 ==> r is None,
            self.state != 0 ==> gather_start_rel(self.gather, r),
    {
        if self.state == 0 {
            return None;
        }
        self.gather.start()
    }

    /// Opens the agreement phase directly: deals this participant's
    /// agreement-level sharing.
    pub fn vaba_start(&mut self) -> (r: Option<Message>)
        requires
            client_wf(*old(self)),
        ensures
            client_wf(*final(self)),
            final(self).id == old(self).id && final(self).state == old(self).state && final(self).n == old(self).n && final(self).f == old(self).f,
            final(self).gather == old(self).gather && final(self).adkg == old(self).adkg,
            old(self).state == 0 ==> r is None && *final(self) == *old(self),
            old(self).state != 0 ==> vaba_start_rel(old(self).vaba, final(self).vaba, r),
    {
        if self.state == 0 {
            return None;
        }
        self.vaba.start()
    }

    /// Keeps the given terminal record on the driver, touching nothing
    /// else.
    pub fn end(&mut self, res: AdkgResult)
        requires
            client_wf(*old(self)),
        ensures
            client_wf(*final(self)),
            final(self).id == old(self).id && final(self).state == old(self).state && final(self).n == old(self).n && final(self).f == old(self).f,
            final(self).gather == old(self).gather && final(self).vaba == old(self).vaba,
            final(self).adkg == (AdkgNode { res: Some(res), ..old(self).adkg }),
    {
        self.adkg.res = Some(res);
    }
}

} // verus!
