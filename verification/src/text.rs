//! Verified text building: decimal numbers, dotted-quad addresses, flow
//! labels, and the lexicographic order the report tie-breakers use.

use vstd::prelude::*;
use vstd::string::StrSliceExecFns;
use vstd::string::StringExecFns;

use crate::flow::Flow;

verus! {

/// The character for one decimal digit.
pub open spec fn spec_digit_char(d: int) -> char {
    if d == 0 {
        '0'
    } else if d == 1 {
        '1'
    } else if d == 2 {
        '2'
    } else if d == 3 {
        '3'
    } else if d == 4 {
        '4'
    } else if d == 5 {
        '5'
    } else if d == 6 {
        '6'
    } else if d == 7 {
        '7'
    } else if d == 8 {
        '8'
    } else {
        '9'
    }
}

/// The usual decimal writing of a number, most significant digit first,
/// with no leading zeroes (a single zero for 0).
pub open spec fn spec_dec(n: nat) -> Seq<char>
    decreases n,
{
    if n < 10 {
        seq![spec_digit_char(n as int)]
    } else {
        spec_dec(n / 10) + seq![spec_digit_char((n % 10) as int)]
    }
}

/// Dotted-quad writing of an IPv4 address held as a big-endian 32-bit
/// integer.
pub open spec fn spec_ipv4_label(ip: u32) -> Seq<char> {
    spec_dec((ip / 0x1000000) as nat) + seq!['.'] + spec_dec(((ip / 0x10000) % 256) as nat)
        + seq!['.'] + spec_dec(((ip / 256) % 256) as nat) + seq!['.'] + spec_dec((ip % 256) as nat)
}

/// The flow label of the report: `"src:sport <-> dst:dport/TCP"`.
pub open spec fn spec_flow_label(f: Flow) -> Seq<char> {
    spec_ipv4_label(f.source_ip) + seq![':'] + spec_dec(f.source_port as nat)
        + seq![' ', '<', '-', '>', ' '] + spec_ipv4_label(f.destination_ip) + seq![':']
        + spec_dec(f.destination_port as nat) + seq!['/', 'T', 'C', 'P']
}

/// Strict lexicographic order on character sequences, by code point.
pub open spec fn lex_lt(a: Seq<char>, b: Seq<char>) -> bool
    decreases a.len(),
{
    if b.len() == 0 {
        false
    } else if a.len() == 0 {
        true
    } else if a[0] != b[0] {
        (a[0] as u32) < (b[0] as u32)
    } else {
        lex_lt(a.drop_first(), b.drop_first())
    }
}

/// The order is asymmetric: two strings never precede each other.
pub proof fn lemma_lex_lt_asymmetric(a: Seq<char>, b: Seq<char>)
    requires
        lex_lt(a, b),
    ensures
        !lex_lt(b, a),
    decreases a.len(),
{
    if a.len() == 0 {
    } else if a[0] != b[0] {
    } else {
        lemma_lex_lt_asymmetric(a.drop_first(), b.drop_first());
    }
}

/// Any two strings compare: one precedes the other, or they are equal.
pub proof fn lemma_lex_lt_connected(a: Seq<char>, b: Seq<char>)
    ensures
        lex_lt(a, b) || lex_lt(b, a) || a == b,
    decreases a.len(),
{
    if b.len() == 0 {
        if a.len() == 0 {
            assert(a =~= b);
        } else {
            assert(lex_lt(b, a));
        }
    } else if a.len() == 0 {
        assert(lex_lt(a, b));
    } else if a[0] != b[0] {
        vstd::utf8::char_u32_cast(a[0], a[0] as u32);
        vstd::utf8::char_u32_cast(b[0], b[0] as u32);
        assert((a[0] as u32) != (b[0] as u32));
    } else {
        lemma_lex_lt_connected(a.drop_first(), b.drop_first());
        if a.drop_first() == b.drop_first() {
            assert(a.drop_first().len() == a.len() - 1);
            assert(b.drop_first().len() == b.len() - 1);
            assert(a.len() == b.len());
            assert forall|i: int| 0 <= i < a.len() implies a[i] == b[i] by {
                if i >= 1 {
                    assert(a[i] == a.drop_first()[i - 1]);
                    assert(b[i] == b.drop_first()[i - 1]);
                }
            }
            assert(a =~= b);
        }
    }
}

/// The order is transitive.
pub proof fn lemma_lex_lt_trans(a: Seq<char>, b: Seq<char>, c: Seq<char>)
    requires
        lex_lt(a, b),
        lex_lt(b, c),
    ensures
        lex_lt(a, c),
    decreases b.len(),
{
    if a.len() == 0 {
    } else {
        if a[0] == b[0] && b[0] == c[0] {
            lemma_lex_lt_trans(a.drop_first(), b.drop_first(), c.drop_first());
        }
    }
}

/// Append one decimal digit to a string.
fn push_digit(s: &mut String, d: u64)
    requires
        d < 10,
    ensures
        final(s)@ == old(s)@ + seq![spec_digit_char(d as int)],
{
    if d == 0 {
        s.append("0");
        proof {
            reveal_strlit("0");
        }
    } else if d == 1 {
        s.append("1");
        proof {
            reveal_strlit("1");
        }
    } else if d == 2 {
        s.append("2");
        proof {
            reveal_strlit("2");
        }
    } else if d == 3 {
        s.append("3");
        proof {
            reveal_strlit("3");
        }
    } else if d == 4 {
        s.append("4");
        proof {
            reveal_strlit("4");
        }
    } else if d == 5 {
        s.append("5");
        proof {
            reveal_strlit("5");
        }
    } else if d == 6 {
        s.append("6");
        proof {
            reveal_strlit("6");
        }
    } else if d == 7 {
        s.append("7");
        proof {
            reveal_strlit("7");
        }
    } else if d == 8 {
        s.append("8");
        proof {
            reveal_strlit("8");
        }
    } else {
        s.append("9");
        proof {
            reveal_strlit("9");
        }
    }
    proof {
        assert(s@ =~= old(s)@ + seq![spec_digit_char(d as int)]);
    }
}

/// The decimal writing of `n`.
pub fn dec_u64(n: u64) -> (s: String)
    ensures
        s@ == spec_dec(n as nat),
    decreases n,
{
    if n < 10 {
        let mut s = String::new();
        push_digit(&mut s, n);
        proof {
            assert(s@ =~= spec_dec(n as nat));
        }
        s
    } else {
        let mut s = dec_u64(n / 10);
        push_digit(&mut s, n % 10);
        proof {
            assert(s@ =~= spec_dec(n as nat));
        }
        s
    }
}

/// The dotted-quad writing of an IPv4 address.
pub fn ipv4_label(ip: u32) -> (s: String)
    ensures
        s@ == spec_ipv4_label(ip),
{
    let mut s = dec_u64((ip / 0x1000000) as u64);
    s.append(".");
    let b1 = dec_u64(((ip / 0x10000) % 256) as u64);
    s.append(b1.as_str());
    s.append(".");
    let b2 = dec_u64(((ip / 256) % 256) as u64);
    s.append(b2.as_str());
    s.append(".");
    let b3 = dec_u64((ip % 256) as u64);
    s.append(b3.as_str());
    proof {
        reveal_strlit(".");
        assert("."@ =~= seq!['.']);
        assert(s@ =~= spec_ipv4_label(ip));
    }
    s
}

/// The flow label of the report: `"src:sport <-> dst:dport/TCP"`.
pub fn flow_label(f: &Flow) -> (s: String)
    ensures
        s@ == spec_flow_label(*f),
{
    let mut s = ipv4_label(f.source_ip);
    s.append(":");
    let sp = dec_u64(f.source_port as u64);
    s.append(sp.as_str());
    s.append(" <-> ");
    let d = ipv4_label(f.destination_ip);
    s.append(d.as_str());
    s.append(":");
    let dp = dec_u64(f.destination_port as u64);
    s.append(dp.as_str());
    s.append("/TCP");
    proof {
        reveal_strlit(":");
        reveal_strlit(" <-> ");
        reveal_strlit("/TCP");
        assert(":"@ =~= seq![':']);
        assert(" <-> "@ =~= seq![' ', '<', '-', '>', ' ']);
        assert("/TCP"@ =~= seq!['/', 'T', 'C', 'P']);
        assert(s@ =~= spec_flow_label(*f));
    }
    s
}

/// Strict lexicographic comparison of two strings, by code point.
pub fn str_lex_lt(a: &str, b: &str) -> (r: bool)
    ensures
        r == lex_lt(a@, b@),
{
    let la = a.unicode_len();
    let lb = b.unicode_len();
    let mut i: usize = 0;
    assert(a@.skip(0) =~= a@);
    assert(b@.skip(0) =~= b@);
    while i < la && i < lb
        invariant
            i <= la,
            i <= lb,
            la == a@.len(),
            lb == b@.len(),
            lex_lt(a@, b@) == lex_lt(a@.skip(i as int), b@.skip(i as int)),
        decreases la - i,
    {
        let ca = a.get_char(i);
        let cb = b.get_char(i);
        if ca as u32 != cb as u32 {
            proof {
                assert(a@.skip(i as int)[0] == a@[i as int]);
                assert(b@.skip(i as int)[0] == b@[i as int]);
            }
            return (ca as u32) < (cb as u32);
        }
        proof {
            assert(a@.skip(i as int)[0] == a@[i as int]);
            assert(b@.skip(i as int)[0] == b@[i as int]);
            assert(a@.skip(i as int).drop_first() =~= a@.skip(i as int + 1));
            assert(b@.skip(i as int).drop_first() =~= b@.skip(i as int + 1));
        }
        i += 1;
    }
    proof {
        if i >= la {
            assert(a@.skip(i as int).len() == 0);
        } else {
            assert(b@.skip(i as int).len() == 0);
        }
    }
    i < lb
}

} // verus!
