use adkg::client::clients::Client;
use adkg::client::gather::GatherNode;
use adkg::msg::message::Message;
use adkg::msg::message::MessageType;
use adkg::server::servers::BroadcastServer;
use std::collections::VecDeque;

// Drives a full run with `n` participants, the first `n - f` honest, over a
// deterministic global-order transport, and returns the clients.
fn run_protocol(n: usize, f: usize) -> Vec<Client> {
    let mut clients: Vec<Client> = Vec::new();
    for i in 0..n {
        let state = if i < n - f { 1 } else { 0 };
        clients.push(Client::new(i, state, n, f));
    }
    let server = BroadcastServer { n };
    let mut queue: VecDeque<Message> = VecDeque::new();
    for i in 0..n {
        if let Some(m) = clients[i].start() {
            queue.push_back(m);
        }
    }
    let mut steps: usize = 0;
    while let Some(m) = queue.pop_front() {
        steps += 1;
        if steps > 200000 {
            break;
        }
        for id in server.send_msg(&m) {
            if let Some(out) = clients[id].handle_message(m.clone()) {
                queue.push_back(out);
            }
        }
    }
    clients
}

fn sorted(mut v: Vec<usize>) -> Vec<usize> {
    v.sort();
    v
}

#[test]
fn agreement_four_participants() {
    let n = 4;
    let f = 1;
    let clients = run_protocol(n, f);
    let mut first_users: Option<Vec<usize>> = None;
    let mut first_pk: Option<String> = None;
    for i in 0..(n - f) {
        let res = clients[i].adkg.res.as_ref().expect("honest participant must finish");
        assert_eq!(res.id, i);
        assert!(res.users.len() >= 2);
        let users = sorted(res.users.clone());
        assert!(res.sk.chars().all(|c| c.is_ascii_digit()));
        assert!(res.pk.chars().all(|c| c.is_ascii_digit()));
        match &first_users {
            None => {
                first_users = Some(users);
                first_pk = Some(res.pk.clone());
            },
            Some(u) => {
                assert_eq!(u, &users);
                assert_eq!(first_pk.as_ref().unwrap(), &res.pk);
            },
        }
    }
}

#[test]
fn dealer_set_converges_seven_participants() {
    let n = 7;
    let f = 2;
    let clients = run_protocol(n, f);
    for i in 0..(n - f) {
        let res = clients[i].adkg.res.as_ref().expect("honest participant must finish");
        assert!(res.users.len() >= 3);
        assert!(clients[i].adkg.set_prop.len() >= 3);
    }
}

#[test]
fn silent_minority_ten_participants() {
    let n = 10;
    let f = 3;
    let clients = run_protocol(n, f);
    for i in 0..(n - f) {
        let res = clients[i].adkg.res.as_ref().expect("honest participant must finish");
        assert!(res.users.len() >= 4);
        for &u in res.users.iter() {
            assert!(u < 10);
        }
    }
    for i in (n - f)..n {
        assert!(clients[i].adkg.res.is_none());
    }
}

#[test]
fn gather_three_honest_of_four() {
    let n = 4;
    let f = 1;
    let mut nodes: Vec<GatherNode> = Vec::new();
    for i in 0..n {
        let state = if i < n - f { 1 } else { 0 };
        nodes.push(GatherNode::new(i, state, n, f));
    }
    let server = BroadcastServer { n };
    let mut queue: VecDeque<Message> = VecDeque::new();
    let mut finished: Vec<Option<Message>> = vec![None, None, None, None];
    for i in 0..n {
        if let Some(m) = nodes[i].start() {
            queue.push_back(m);
        }
    }
    let mut steps: usize = 0;
    while let Some(m) = queue.pop_front() {
        steps += 1;
        assert!(steps <= 16 * 16, "the run must stay within a few rounds of messages");
        for id in server.send_msg(&m) {
            if nodes[id].state == 0 {
                continue;
            }
            let out = match m.msg_type {
                MessageType::Gather1 => nodes[id].handle_gather_1(m.clone()),
                MessageType::Gather2 => nodes[id].handle_gather_2(m.clone()),
                MessageType::Gather3 => nodes[id].handle_gather_3(m.clone()),
                _ => None,
            };
            if let Some(out_msg) = out {
                if matches!(out_msg.msg_type, MessageType::GatherFin) {
                    finished[id] = Some(out_msg);
                } else {
                    queue.push_back(out_msg);
                }
            }
        }
    }
    for i in 0..(n - f) {
        let fin = finished[i].as_ref().expect("honest node must finish the gather run");
        assert!(fin.msg_content.len() >= 3);
        assert!(nodes[i].set_s.len() >= 3);
    }
}

#[test]
fn adkg_t() {
    for i in 3..70 {
        println!("{}: {}", i, adkg::client::adkg::log_2_n(i));
    }
}
