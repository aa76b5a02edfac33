//! Connection URLs: `scheme://a.b.c.d:port/` as ASCII bytes, with the
//! scheme picked by whether the operator asked for plaintext.
use crate::address::{CandidateAddress, HostIp};
use vstd::prelude::*;

verus! {

/// The shortest decimal spelling of `n`, as ASCII digit bytes.
pub open spec fn dec_digits(n: int) -> Seq<u8>
    decreases n,
{
    if n < 0 {
        Seq::<u8>::empty()
    } else if n < 10 {
        seq![(48 + n) as u8]
    } else {
        dec_digits(n / 10) + seq![(48 + n % 10) as u8]
    }
}

/// `http://` or `https://`.
pub open spec fn scheme_prefix(insecure: bool) -> Seq<u8> {
    if insecure {
        seq![104u8, 116u8, 116u8, 112u8, 58u8, 47u8, 47u8]
    } else {
        seq![104u8, 116u8, 116u8, 112u8, 115u8, 58u8, 47u8, 47u8]
    }
}

/// The full connection URL for one IPv4 address and port.
pub open spec fn url_bytes(insecure: bool, a: u8, b: u8, c: u8, d: u8, port: u16) -> Seq<u8> {
    scheme_prefix(insecure) + dec_digits(a as int) + seq![46u8] + dec_digits(b as int)
        + seq![46u8] + dec_digits(c as int) + seq![46u8] + dec_digits(d as int) + seq![58u8]
        + dec_digits(port as int) + seq![47u8]
}

/// Writes the decimal digits of `n` onto `out`.
fn push_dec(out: &mut Vec<u8>, n: u16)
    ensures
        final(out)@ == old(out)@ + dec_digits(n as int),
{
    if n == 0 {
        out.push(48);
        assert(dec_digits(0int) =~= seq![48u8]);
        assert(final(out)@ =~= old(out)@ + dec_digits(0int));
        return ;
    }
    let mut digits: Vec<u8> = Vec::new();
    let mut m = n;
    while m > 0
        invariant
            m > 0 ==> dec_digits(n as int) == dec_digits(m as int) + digits@.reverse(),
            m == 0 ==> dec_digits(n as int) == digits@.reverse(),
        decreases m,
    {
        let d: u8 = (m % 10) as u8 + 48;
        let ghost prev = digits@;
        let ghost mold = m as int;
        digits.push(d);
        m = m / 10;
        proof {
            assert(digits@.reverse() =~= seq![d] + prev.reverse());
            if mold >= 10 {
                assert(dec_digits(mold) == dec_digits(mold / 10) + seq![d]);
                assert(dec_digits(mold / 10) + (seq![d] + prev.reverse()) =~= (dec_digits(
                    mold / 10,
                ) + seq![d]) + prev.reverse());
            } else {
                assert(dec_digits(mold) =~= seq![d]);
                assert(seq![d] + prev.reverse() =~= dec_digits(mold) + prev.reverse());
            }
        }
    }
    let mut j: usize = digits.len();
    while j > 0
        invariant
            j <= digits@.len(),
            out@ == old(out)@ + digits@.reverse().take(digits@.len() - j),
        decreases j,
    {
        j = j - 1;
        out.push(digits[j]);
        proof {
            assert(digits@.reverse()[digits@.len() - 1 - j] == digits@[j as int]);
            assert(digits@.reverse().take(digits@.len() - j) =~= digits@.reverse().take(
                digits@.len() - j - 1,
            ).push(digits@[j as int]));
        }
    }
    proof {
        assert(digits@.reverse().take(digits@.len() as int) =~= digits@.reverse());
    }
}

/// Renders the connection URL for one usable address, in ASCII bytes.
/// The scheme is fixed by the operator's choice: `https` unless plaintext
/// was asked for.
pub fn connection_url(addr: &CandidateAddress, insecure: bool, port: u16) -> (r: Vec<u8>)
    requires
        addr.ip is V4,
    ensures
        (match addr.ip {
            HostIp::V4(a, b, c, d) => r@ == url_bytes(insecure, a, b, c, d, port),
            HostIp::V6 => false,
        }),
{
    let mut r: Vec<u8> = Vec::new();
    if insecure {
        r.push(104);
        r.push(116);
        r.push(116);
        r.push(112);
        r.push(58);
        r.push(47);
        r.push(47);
        assert(r@ =~= scheme_prefix(true));
    } else {
        r.push(104);
        r.push(116);
        r.push(116);
        r.push(112);
        r.push(115);
        r.push(58);
        r.push(47);
        r.push(47);
        assert(r@ =~= scheme_prefix(false));
    }
    match addr.ip {
        HostIp::V4(a, b, c, d) => {
            push_dec(&mut r, a as u16);
            r.push(46);
            push_dec(&mut r, b as u16);
            r.push(46);
            push_dec(&mut r, c as u16);
            r.push(46);
            push_dec(&mut r, d as u16);
            r.push(58);
            push_dec(&mut r, port);
            r.push(47);
            proof {
                assert(r@ =~= url_bytes(insecure, a, b, c, d, port));
            }
            r
        },
        HostIp::V6 => {
            // unreachable under the precondition; yield the scheme alone
            r
        },
    }
}

} // verus!
