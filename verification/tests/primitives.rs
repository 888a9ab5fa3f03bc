use adkg::client::avss::AvssNode;
use adkg::coset::Coset;
use adkg::field::Mersenne61Ext;
use adkg::msg::message::MessageType;
use adkg::polynomial::MultilinearPolynomial;
use adkg::split_n;
use adkg::vec_check::{is_equal, is_invector, is_subset};

#[test]
fn avss_log_print() {
    let mut s = AvssNode::new(0, 3, 1);
    let m = s.send_and_verify(MessageType::AkdgAvssFin);
    let m = m.unwrap();
    println!("sender: {}, receivers: {:?}", m.sender_id, m.receiver_id);

    let shares = s.shares();
    println!("{:?}", shares);
    println!("{}", shares.len());
    let res = s.reconstruct();
    println!("{:?}", res);
}

#[test]
fn str_cat() {
    let s = String::from("The set of dealer is [1412430, 2311], which is SIGNATURED by 07888");
    let last_num = s
        .chars()
        .rev()
        .take_while(|c| c.is_digit(10))
        .collect::<String>()
        .chars()
        .rev()
        .collect::<String>()
        .parse::<i32>()
        .unwrap();
    println!("{}", last_num);
    assert_eq!(last_num, 7888);
}

#[test]
fn split_n_values() {
    assert_eq!(split_n(7), vec![4, 2, 1]);
    assert_eq!(split_n(11), vec![8, 2, 1]);
    assert_eq!(split_n(3), vec![2, 1]);
    assert_eq!(split_n(1), vec![1]);
    let fifteen = split_n(15);
    assert_eq!(fifteen, vec![8, 4, 2, 1]);
    assert_eq!(fifteen.iter().sum::<usize>(), 15);
}

#[test]
fn multilinear_evaluate_small() {
    let coeffs = vec![
        Mersenne61Ext::from_int(1),
        Mersenne61Ext::from_int(2),
        Mersenne61Ext::from_int(3),
        Mersenne61Ext::from_int(4),
    ];
    let poly = MultilinearPolynomial::new(coeffs);
    let point = vec![Mersenne61Ext::from_int(5), Mersenne61Ext::from_int(6)];
    let v = poly.evaluate(&point);
    assert_eq!(v.get_real(), 149);
    assert_eq!(v, Mersenne61Ext::from_int(149));
}

#[test]
fn folding_matches_evaluation() {
    let poly = MultilinearPolynomial::random_polynomial(4);
    let mut point: Vec<Mersenne61Ext> = Vec::new();
    for _ in 0..4 {
        point.push(Mersenne61Ext::random_element());
    }
    let direct = poly.evaluate(&point);
    let folded_once = poly.folding(point[0]);
    let rest = vec![point[1], point[2], point[3]];
    assert_eq!(folded_once.evaluate(&rest), direct);
    let mut all = poly;
    for p in point.iter() {
        all = all.folding(*p);
    }
    assert_eq!(all.coefficients().len(), 1);
    assert_eq!(all.coefficients()[0], direct);
}

#[test]
fn field_arithmetic_basics() {
    let two = Mersenne61Ext::from_int(2);
    let half = Mersenne61Ext::inverse_2();
    assert_eq!(two.mul(half), Mersenne61Ext::from_int(1));
    let a = Mersenne61Ext::random_element();
    let b = Mersenne61Ext::random_element();
    assert_eq!(a.add(b), b.add(a));
    assert_eq!(a.mul(b), b.mul(a));
    assert_eq!(a.sub(a), Mersenne61Ext::from_int(0));
    let inv = a.inverse();
    if !a.is_zero() {
        assert_eq!(a.mul(inv), Mersenne61Ext::from_int(1));
    }
    assert_eq!(a.pow(3), a.mul(a).mul(a));
}

#[test]
fn coset_evaluations_match() {
    let shift = Mersenne61Ext::random_element();
    let coset = Coset::new(16, shift);
    assert_eq!(coset.size(), 16);
    let all = coset.all_elements();
    assert_eq!(all.len(), 16);
    let mut coeffs: Vec<Mersenne61Ext> = Vec::new();
    for _ in 0..8 {
        coeffs.push(Mersenne61Ext::random_element());
    }
    let evals = coset.fft(&coeffs);
    let poly = MultilinearPolynomial::new(coeffs);
    for i in 0..16 {
        assert_eq!(evals[i], poly.evaluate_as_polynomial(coset.element_at(i)));
    }
    // element inverses really invert
    for i in 0..16 {
        assert_eq!(
            coset.element_at(i).mul(coset.element_inv_at(i)),
            Mersenne61Ext::from_int(1)
        );
    }
    // the inverse transform recovers the coefficients
    let back = coset.ifft(&evals);
    let trimmed: Vec<Mersenne61Ext> = back.into_iter().take(8).collect();
    assert_eq!(trimmed, poly.coefficients().clone());
}

#[test]
fn vector_checks() {
    let a = vec![1usize, 2, 3];
    let b = vec![3usize, 2, 1, 5];
    assert!(is_subset(&a, &b));
    assert!(!is_subset(&b, &a));
    assert!(is_invector(5, &b));
    assert!(!is_invector(4, &b));
    assert!(is_equal(&vec![1, 2, 2, 3], &vec![3, 2, 1]));
    assert!(!is_equal(&vec![1, 2], &vec![1, 2, 4]));
}

#[test]
fn gather_sim_quiesces() {
    let mut server = adkg::gather::servers::BroadcastServer::new(4, 1);
    server.start();
    server.broadcast2all();
    for i in 0..3 {
        assert!(server.nodes[i].set_s.len() >= 3);
        assert!(server.nodes[i].set_u.len() >= 3);
    }
    assert_eq!(server.nodes[3].set_s.len(), 0);
}

#[test]
fn deal_runs_end_to_end() {
    let node = adkg::avss_deal(3, 1);
    assert!(node.dealt);
    assert_eq!(node.parties.len(), 64);
    assert!(node.parties[0].has_share());
}

#[test]
fn vanishing_polynomial_vanishes() {
    let coset = Coset::new(8, Mersenne61Ext::random_element());
    let vp = adkg::polynomial::VanishingPolynomial::new(&coset);
    for i in 0..8 {
        assert!(vp.evaluation_at(coset.element_at(i)).is_zero());
    }
    let off = coset.element_at(0).add(Mersenne61Ext::from_int(1));
    let _ = vp.evaluation_at(off);
}

#[test]
fn evaluation() {
    let coset = Coset::new(32, Mersenne61Ext::random_element());
    let all_elements = coset.all_elements();
    let poly = adkg::polynomial::Polynomial::random_polynomial(32);
    let eval = poly.evaluation_over_coset(&coset);
    for i in 0..coset.size() {
        assert_eq!(eval[i], poly.evaluation_at(all_elements[i]));
    }
    let poly = adkg::polynomial::VanishingPolynomial::new(&coset);
    for i in coset.all_elements() {
        assert_eq!(Mersenne61Ext::from_int(0), poly.evaluation_at(i));
    }
}

#[test]
fn multilinear() {
    let poly = MultilinearPolynomial::random_polynomial(8);
    let point: Vec<Mersenne61Ext> = (0..8).map(|_| Mersenne61Ext::random_element()).collect();
    let v = poly.evaluate(&point);

    println!("{:?} \n {:?} \n {:?}", poly, point, v);

    let mut folding_poly = MultilinearPolynomial::new(poly.coefficients().clone());
    for parameter in point {
        folding_poly = folding_poly.folding(parameter);
    }
    assert_eq!(folding_poly.coefficients().len(), 1);
    assert_eq!(folding_poly.coefficients()[0], v);

    let z = Mersenne61Ext::random_element();
    let beta = Mersenne61Ext::random_element();
    let folding_poly = poly.folding(z);
    let a = poly.evaluate_as_polynomial(beta);
    let b = poly.evaluate_as_polynomial(beta.neg());
    let c = folding_poly.evaluate_as_polynomial(beta.mul(beta));
    let v = a.add(b).add(z.mul(a.sub(b)).mul(beta.inverse()));
    assert_eq!(v.mul(Mersenne61Ext::from_int(2).inverse()), c);
}
