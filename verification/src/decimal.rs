use vstd::prelude::*;
use vstd::string::*;

verus! {

/// The decimal digit character for `d` (meaningful for `d < 10`).
pub open spec fn digit_char(d: nat) -> char {
    if d == 0 {
        '0'
    } else if d == 1 {
        '1'
    } else if d == 2 {
        '2'
    } else if d == 3 {
        '3'
    } else if d == 4 {
        '4'
    } else if d == 5 {
        '5'
    } else if d == 6 {
        '6'
    } else if d == 7 {
        '7'
    } else if d == 8 {
        '8'
    } else {
        '9'
    }
}

pub open spec fn is_dec_digit(c: char) -> bool {
    '0' <= c && c <= '9'
}

pub open spec fn digit_val(c: char) -> nat {
    ((c as int) - ('0' as int)) as nat
}

/// The decimal representation of `n`, most significant digit first.
pub open spec fn dec_rep(n: nat) -> Seq<char>
    decreases n,
{
    if n < 10 {
        seq![digit_char(n)]
    } else {
        dec_rep(n / 10).push(digit_char(n % 10))
    }
}

/// The numeric value of a sequence of decimal digit characters.
pub open spec fn dec_val(s: Seq<char>) -> nat
    decreases s.len(),
{
    if s.len() == 0 {
        0
    } else {
        dec_val(s.drop_last()) * 10 + digit_val(s.last())
    }
}

pub open spec fn all_dec_digits(s: Seq<char>) -> bool {
    forall|i: int| 0 <= i < s.len() ==> is_dec_digit(#[trigger] s[i])
}

/// The longest suffix of `s` made of decimal digit characters only.
pub open spec fn trailing_digits(s: Seq<char>) -> Seq<char>
    decreases s.len(),
{
    if s.len() == 0 || !is_dec_digit(s.last()) {
        Seq::empty()
    } else {
        trailing_digits(s.drop_last()).push(s.last())
    }
}

/// The decimal representation of a number consists of digit characters only.
pub proof fn lemma_dec_rep_digits(n: nat)
    ensures
        all_dec_digits(dec_rep(n)),
        dec_rep(n).len() >= 1,
    decreases n,
{
    if n < 10 {
        lemma_digit_char_val(n);
    } else {
        lemma_digit_char_val(n % 10);
        lemma_dec_rep_digits(n / 10);
        assert forall|i: int| 0 <= i < dec_rep(n).len() implies is_dec_digit(
            #[trigger] dec_rep(n)[i],
        ) by {
            if i < dec_rep(n / 10).len() {
                assert(dec_rep(n)[i] == dec_rep(n / 10)[i]);
            }
        }
    }
}

/// The digit characters carry the digit values they spell.
pub proof fn lemma_digit_char_val(d: nat)
    requires
        d < 10,
    ensures
        digit_val(digit_char(d)) == d,
        is_dec_digit(digit_char(d)),
{
    assert('0' as int == 48);
    assert('1' as int == 49);
    assert('2' as int == 50);
    assert('3' as int == 51);
    assert('4' as int == 52);
    assert('5' as int == 53);
    assert('6' as int == 54);
    assert('7' as int == 55);
    assert('8' as int == 56);
    assert('9' as int == 57);
}

/// Reading back the decimal representation of `n` yields `n`.
pub proof fn lemma_dec_val_of_rep(n: nat)
    ensures
        dec_val(dec_rep(n)) == n,
    decreases n,
{
    if n < 10 {
        lemma_digit_char_val(n);
        assert(dec_rep(n) =~= Seq::empty().push(digit_char(n)));
        assert(dec_rep(n).drop_last() =~= Seq::<char>::empty());
        assert(dec_val(dec_rep(n)) == dec_val(Seq::<char>::empty()) * 10 + digit_val(
            digit_char(n),
        ));
    } else {
        lemma_dec_val_of_rep(n / 10);
        lemma_digit_char_val(n % 10);
        assert(dec_rep(n).drop_last() =~= dec_rep(n / 10));
    }
}

/// The trailing digit run of `a + d` is exactly `d`, provided `d` is all
/// digits and `a` ends in a non-digit character.
pub proof fn lemma_trailing_digits_concat(a: Seq<char>, d: Seq<char>)
    requires
        all_dec_digits(d),
        a.len() > 0,
        !is_dec_digit(a.last()),
    ensures
        trailing_digits(a + d) == d,
    decreases d.len(),
{
    if d.len() == 0 {
        assert(a + d =~= a);
        assert(trailing_digits(a) =~= Seq::<char>::empty());
        assert(trailing_digits(a + d) =~= d);
    } else {
        assert((a + d).last() == d.last());
        assert(is_dec_digit(d.last()));
        assert((a + d).drop_last() =~= a + d.drop_last());
        lemma_trailing_digits_concat(a, d.drop_last());
        assert(trailing_digits(a + d) =~= trailing_digits(a + d.drop_last()).push(d.last()));
        assert(trailing_digits(a + d.drop_last()).push(d.last()) =~= d.drop_last().push(d.last()));
        assert(d.drop_last().push(d.last()) =~= d);
    }
}

/// Converts one digit value to the one-character string that spells it.
fn digit_str(d: u64) -> (s: &'static str)
    requires
        d < 10,
    ensures
        s@ =~= seq![digit_char(d as nat)],
{
    proof {
        reveal_strlit("0");
        reveal_strlit("1");
        reveal_strlit("2");
        reveal_strlit("3");
        reveal_strlit("4");
        reveal_strlit("5");
        reveal_strlit("6");
        reveal_strlit("7");
        reveal_strlit("8");
        reveal_strlit("9");
    }
    if d == 0 {
        "0"
    } else if d == 1 {
        "1"
    } else if d == 2 {
        "2"
    } else if d == 3 {
        "3"
    } else if d == 4 {
        "4"
    } else if d == 5 {
        "5"
    } else if d == 6 {
        "6"
    } else if d == 7 {
        "7"
    } else if d == 8 {
        "8"
    } else {
        "9"
    }
}

/// Renders `x` in decimal, most significant digit first.
pub fn u64_to_string(x: u64) -> (s: String)
    ensures
        s@ == dec_rep(x as nat),
{
    let mut rest: u64 = x;
    let mut s = String::new();
    loop
        invariant_except_break
            dec_rep(x as nat) == dec_rep(rest as nat) + s@,
        ensures
            dec_rep(x as nat) == s@,
        decreases rest,
    {
        let d = rest % 10;
        let ghost s_old = s@;
        let mut piece = String::from_str(digit_str(d));
        piece.append(s.as_str());
        s = piece;
        proof {
            assert(s@ =~= seq![digit_char(d as nat)] + s_old);
            if rest >= 10 {
                assert(dec_rep(rest as nat) == dec_rep((rest / 10) as nat).push(
                    digit_char((rest % 10) as nat),
                ));
                assert(dec_rep((rest / 10) as nat) + s@ =~= dec_rep(rest as nat) + s_old);
            } else {
                assert(dec_rep(rest as nat) =~= seq![digit_char(d as nat)]);
                assert(dec_rep(rest as nat) + s_old =~= s@);
                assert(dec_rep(x as nat) =~= s@);
            }
        }
        if rest < 10 {
            break;
        }
        rest = rest / 10;
    }
    s
}

/// Extracts the trailing decimal run of `s` and parses it, as the protocol's
/// signature check does. Returns the parsed value, or `None` when `s` does
/// not end in a digit or the run's value does not fit in `usize`.
pub fn parse_trailing_number(s: &String) -> (r: Option<usize>)
    ensures
        match r {
            Some(v) => trailing_digits(s@).len() > 0 && dec_val(trailing_digits(s@)) == v as nat,
            None => trailing_digits(s@).len() == 0 || dec_val(trailing_digits(s@)) > usize::MAX,
        },
{
    let len = s.as_str().unicode_len();
    proof {
        assert(s@.take(len as int) =~= s@);
        assert(trailing_digits(s@.take(len as int)) + s@.skip(len as int) =~= trailing_digits(s@));
    }
    // find the start of the trailing digit run
    let mut start: usize = len;
    loop
        invariant
            start <= len,
            len == s@.len(),
            all_dec_digits(s@.skip(start as int)),
            trailing_digits(s@) == trailing_digits(s@.take(start as int)) + s@.skip(start as int),
        ensures
            start <= len,
            len == s@.len(),
            all_dec_digits(s@.skip(start as int)),
            trailing_digits(s@) == s@.skip(start as int),
        decreases start,
    {
        if start == 0 {
            proof {
                assert(s@.take(0).len() == 0);
                assert(trailing_digits(s@.take(0)) =~= Seq::<char>::empty());
                assert(trailing_digits(s@.take(0)) + s@.skip(0) =~= s@.skip(0));
            }
            break;
        }
        let c = s.as_str().get_char(start - 1);
        let cu = c as u32;
        proof {
            assert('0' as u32 == 48);
            assert('9' as u32 == 57);
        }
        if cu >= 48 && cu <= 57 {
            assert(is_dec_digit(s@[start - 1]));
            proof {
                assert(s@.take(start as int).last() == s@[start - 1]);
                assert(s@.take(start as int).drop_last() =~= s@.take(start - 1));
                assert(trailing_digits(s@.take(start as int)) == trailing_digits(
                    s@.take(start - 1),
                ).push(s@[start - 1]));
                assert(trailing_digits(s@.take(start - 1)).push(s@[start - 1]) + s@.skip(
                    start as int,
                ) =~= trailing_digits(s@.take(start - 1)) + s@.skip(start - 1));
            }
            start -= 1;
            proof {
                assert forall|i: int| 0 <= i < s@.skip(start as int).len() implies is_dec_digit(
                    #[trigger] s@.skip(start as int)[i],
                ) by {
                    assert(s@.skip(start as int)[i] == s@[start + i]);
                    if i > 0 {
                        assert(s@.skip(start + 1)[i - 1] == s@[start + i]);
                        assert(is_dec_digit(s@.skip(start + 1)[i - 1]));
                    }
                }
            }
        } else {
            assert(!is_dec_digit(s@[start - 1]));
            proof {
                assert(s@.take(start as int).last() == s@[start - 1]);
                assert(trailing_digits(s@.take(start as int)) =~= Seq::<char>::empty());
                assert(trailing_digits(s@.take(start as int)) + s@.skip(start as int) =~= s@.skip(
                    start as int,
                ));
            }
            break;
        }
    }
    let ghost run = trailing_digits(s@);
    assert(run =~= s@.skip(start as int));
    if start == len {
        return None;
    }
    // parse s[start..len]
    let mut v: usize = 0;
    let mut i: usize = start;
    while i < len
        invariant
            start <= i <= len,
            len == s@.len(),
            start < len,
            all_dec_digits(s@.skip(start as int)),
            run == s@.skip(start as int),
            run == trailing_digits(s@),
            v as nat == dec_val(s@.subrange(start as int, i as int)),
        decreases len - i,
    {
        let c = s.as_str().get_char(i);
        assert(s@.skip(start as int)[i - start] == s@[i as int]);
        assert(is_dec_digit(s@[i as int]));
        proof {
            assert('0' as u32 == 48);
        }
        let d: u32 = (c as u32) - 48;
        assert(d as nat == digit_val(s@[i as int]));
        proof {
            assert(s@.subrange(start as int, i + 1).drop_last() =~= s@.subrange(
                start as int,
                i as int,
            ));
            assert(s@.subrange(start as int, i + 1).last() == s@[i as int]);
        }
        let next: u128 = (v as u128) * 10 + (d as u128);
        assert(next == dec_val(s@.subrange(start as int, i + 1)));
        if next > usize::MAX as u128 {
            proof {
                lemma_dec_val_prefix_monotone(s@.skip(start as int), i + 1 - start);
                assert(s@.skip(start as int).take(i + 1 - start) =~= s@.subrange(
                    start as int,
                    i + 1,
                ));
                assert(dec_val(s@.subrange(start as int, i + 1)) <= dec_val(
                    s@.skip(start as int),
                ));
                assert(dec_val(run) >= next as nat);
                assert(dec_val(trailing_digits(s@)) > usize::MAX);
            }
            return None;
        }
        v = next as usize;
        i += 1;
    }
    assert(s@.subrange(start as int, len as int) =~= s@.skip(start as int));
    Some(v)
}

/// Parses a string made of decimal digits only. Anything else, an empty
/// string, or a value beyond `u64` yields nothing.
pub fn parse_all_digits(s: &String) -> (r: Option<u64>)
    ensures
        match r {
            Some(v) => s@.len() > 0 && all_dec_digits(s@) && dec_val(s@) == v as nat,
            None => s@.len() == 0 || !all_dec_digits(s@) || dec_val(s@) > u64::MAX,
        },
{
    let len = s.as_str().unicode_len();
    if len == 0 {
        return None;
    }
    let mut v: u64 = 0;
    let mut i: usize = 0;
    while i < len
        invariant
            i <= len,
            len == s@.len(),
            all_dec_digits(s@.take(i as int)),
            v as nat == dec_val(s@.take(i as int)),
        decreases len - i,
    {
        let c = s.as_str().get_char(i);
        let cu = c as u32;
        proof {
            assert('0' as u32 == 48);
            assert('9' as u32 == 57);
        }
        if cu < 48 || cu > 57 {
            assert(!is_dec_digit(s@[i as int]));
            return None;
        }
        assert(is_dec_digit(s@[i as int]));
        let d: u32 = cu - 48;
        assert(d as nat == digit_val(s@[i as int]));
        proof {
            assert(s@.take(i + 1).drop_last() =~= s@.take(i as int));
            assert(s@.take(i + 1).last() == s@[i as int]);
            assert forall|t: int| 0 <= t < i + 1 implies is_dec_digit(#[trigger] s@.take(i + 1)[t]) by {
                if t < i {
                    assert(s@.take(i as int)[t] == s@.take(i + 1)[t]);
                }
            }
        }
        let next: u128 = (v as u128) * 10 + (d as u128);
        assert(next == dec_val(s@.take(i + 1)));
        if next > u64::MAX as u128 {
            proof {
                lemma_dec_val_prefix_monotone(s@, i + 1);
                assert(all_dec_digits(s@) ==> dec_val(s@) > u64::MAX);
            }
            return None;
        }
        v = next as u64;
        i += 1;
    }
    proof {
        assert(s@.take(len as int) =~= s@);
    }
    Some(v)
}

/// The rendering of an identifier list: decimal values, comma separated.
pub open spec fn list_rep(s: Seq<usize>) -> Seq<char>
    decreases s.len(),
{
    if s.len() == 0 {
        Seq::empty()
    } else if s.len() == 1 {
        dec_rep(s[0] as nat)
    } else {
        list_rep(s.drop_last()) + ", "@ + dec_rep(s.last() as nat)
    }
}

/// The attributable signature text over a proposed dealer set: the rendered
/// set, then the signer's identifier as the trailing decimal run.
pub open spec fn sig_text(content: Seq<usize>, id: nat) -> Seq<char> {
    "The set of dealer is ["@ + list_rep(content) + "], which is SIGNATURED by "@ + dec_rep(id)
}

/// Builds the signature text for a set and a signer.
pub fn signature_note(content: &Vec<usize>, id: usize) -> (s: String)
    ensures
        s@ == sig_text(content@, id as nat),
{
    let mut s = String::from_str("The set of dealer is [");
    let mut i: usize = 0;
    while i < content.len()
        invariant
            i <= content@.len(),
            s@ == "The set of dealer is ["@ + list_rep(content@.take(i as int)),
        decreases content@.len() - i,
    {
        let ghost before = s@;
        if i > 0 {
            s.append(", ");
        }
        let piece = u64_to_string(content[i] as u64);
        s.append(piece.as_str());
        proof {
            assert(content@.take(i + 1).drop_last() =~= content@.take(i as int));
            assert(content@.take(i + 1).last() == content@[i as int]);
            if i == 0 {
                assert(content@.take(1).len() == 1);
                assert(list_rep(content@.take(1)) == dec_rep(content@[0] as nat));
                assert(before =~= "The set of dealer is ["@);
                assert(s@ =~= "The set of dealer is ["@ + list_rep(content@.take(1)));
            } else {
                assert(list_rep(content@.take(i + 1)) == list_rep(content@.take(i as int)) + ", "@
                    + dec_rep(content@[i as int] as nat));
                assert(s@ =~= "The set of dealer is ["@ + list_rep(content@.take(i + 1)));
            }
        }
        i += 1;
    }
    proof {
        assert(content@.take(content@.len() as int) =~= content@);
    }
    s.append("], which is SIGNATURED by ");
    let idp = u64_to_string(id as u64);
    s.append(idp.as_str());
    proof {
        assert(s@ =~= sig_text(content@, id as nat));
    }
    s
}

/// The signature text's trailing digit run spells exactly the signer.
pub proof fn lemma_sig_text_trailing(content: Seq<usize>, id: nat)
    ensures
        trailing_digits(sig_text(content, id)) == dec_rep(id),
        dec_val(trailing_digits(sig_text(content, id))) == id,
{
    let head = "The set of dealer is ["@ + list_rep(content) + "], which is SIGNATURED by "@;
    reveal_strlit("], which is SIGNATURED by ");
    assert(("], which is SIGNATURED by "@).len() == 26);
    assert(("], which is SIGNATURED by "@).last() == ' ');
    assert(head.len() > 0);
    assert(head.last() == ' ');
    assert(' ' as u32 == 32 && '0' as u32 == 48);
    assert(!is_dec_digit(' '));
    lemma_dec_rep_digits(id);
    lemma_trailing_digits_concat(head, dec_rep(id));
    assert(head + dec_rep(id) =~= sig_text(content, id));
    lemma_dec_val_of_rep(id);
}

/// A digit run's value is at least the value of any of its prefixes.
proof fn lemma_dec_val_prefix_monotone(s: Seq<char>, k: int)
    requires
        0 <= k <= s.len(),
    ensures
        dec_val(s.take(k)) <= dec_val(s),
    decreases s.len() - k,
{
    if k < s.len() {
        lemma_dec_val_prefix_monotone(s, k + 1);
        assert(s.take(k + 1).drop_last() =~= s.take(k));
        assert(dec_val(s.take(k + 1)) == dec_val(s.take(k)) * 10 + digit_val(s.take(k + 1).last()));
        assert(dec_val(s.take(k)) <= dec_val(s.take(k)) * 10) by (nonlinear_arith);
    } else {
        assert(s.take(k) =~= s);
    }
}

} // verus!
