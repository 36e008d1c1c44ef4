//! Peer addresses: the `host:port` values that identify nodes, their total
//! order (the basis of the connection tie-break), and their textual form as
//! carried by discovery announcements.

use vstd::prelude::*;
use vstd::arithmetic::div_mod::lemma_fundamental_div_mod;

verus! {

/// One peer address: an IPv4 host, octet by octet, and a port. Equality is by
/// exact value; this is the key for registry membership and the tie-break
/// comparison value.
#[derive(Clone, Copy, Debug, PartialEq, Eq, Structural)]
pub struct PeerAddress {
    pub oct0: u8,
    pub oct1: u8,
    pub oct2: u8,
    pub oct3: u8,
    pub port: u16,
}

/// The total, deterministic order over addresses that both sides of a pair
/// compute identically: lexicographic over the four host octets, then the
/// port. Matches the natural order of the `host:port` text form.
pub open spec fn spec_precedes(x: PeerAddress, y: PeerAddress) -> bool {
    if x.oct0 != y.oct0 {
        x.oct0 < y.oct0
    } else if x.oct1 != y.oct1 {
        x.oct1 < y.oct1
    } else if x.oct2 != y.oct2 {
        x.oct2 < y.oct2
    } else if x.oct3 != y.oct3 {
        x.oct3 < y.oct3
    } else {
        x.port < y.port
    }
}

impl PeerAddress {
    /// Build an address from its host octets and port.
    pub fn new(oct0: u8, oct1: u8, oct2: u8, oct3: u8, port: u16) -> (r: PeerAddress)
        ensures
            r == (PeerAddress { oct0, oct1, oct2, oct3, port }),
    {
        PeerAddress { oct0, oct1, oct2, oct3, port }
    }

    /// Whether this address comes strictly before `other` in the tie-break
    /// order.
    pub fn precedes(&self, other: &PeerAddress) -> (r: bool)
        ensures
            r == spec_precedes(*self, *other),
    {
        if self.oct0 != other.oct0 {
            self.oct0 < other.oct0
        } else if self.oct1 != other.oct1 {
            self.oct1 < other.oct1
        } else if self.oct2 != other.oct2 {
            self.oct2 < other.oct2
        } else if self.oct3 != other.oct3 {
            self.oct3 < other.oct3
        } else {
            self.port < other.port
        }
    }
}

/// The order is strict and total: of two distinct addresses, exactly one
/// precedes the other, and no address precedes itself.
pub proof fn lemma_precedes_strict_total(a: PeerAddress, b: PeerAddress)
    ensures
        a != b ==> (spec_precedes(a, b) <==> !spec_precedes(b, a)),
        !spec_precedes(a, a),
{
}

/// The order is transitive.
pub proof fn lemma_precedes_transitive(a: PeerAddress, b: PeerAddress, c: PeerAddress)
    requires
        spec_precedes(a, b),
        spec_precedes(b, c),
    ensures
        spec_precedes(a, c),
{
}

/// The shortest decimal digit string (ASCII) for `n`: no leading zero except
/// for `n == 0` itself.
pub open spec fn spec_dec(n: nat) -> Seq<u8>
    decreases n,
{
    if n < 10 {
        seq![(48 + n) as u8]
    } else {
        spec_dec(n / 10).push((48 + n % 10) as u8)
    }
}

/// The textual form of an address, as discovery announcements carry it:
/// `oct0.oct1.oct2.oct3:port`, every number in shortest decimal form.
pub open spec fn spec_format(a: PeerAddress) -> Seq<u8> {
    spec_dec(a.oct0 as nat) + seq![46u8] + spec_dec(a.oct1 as nat) + seq![46u8] + spec_dec(
        a.oct2 as nat,
    ) + seq![46u8] + spec_dec(a.oct3 as nat) + seq![58u8] + spec_dec(a.port as nat)
}

/// Append the shortest decimal form of `n` to `out`.
fn push_dec(n: u16, out: &mut Vec<u8>)
    ensures
        final(out)@ == old(out)@ + spec_dec(n as nat),
    decreases n,
{
    if n < 10 {
        out.push(48 + (n as u8));
        proof {
            assert(out@ =~= old(out)@ + spec_dec(n as nat));
        }
    } else {
        let ghost prefix = out@;
        push_dec(n / 10, out);
        out.push(48 + ((n % 10) as u8));
        proof {
            assert((n as nat) / 10 == (n / 10) as nat);
            assert(out@ =~= prefix + spec_dec(n as nat));
        }
    }
}

/// Render an address in its textual `host:port` form.
pub fn format_address(a: &PeerAddress) -> (r: Vec<u8>)
    ensures
        r@ == spec_format(*a),
{
    let mut out: Vec<u8> = Vec::new();
    push_dec(a.oct0 as u16, &mut out);
    out.push(46);
    push_dec(a.oct1 as u16, &mut out);
    out.push(46);
    push_dec(a.oct2 as u16, &mut out);
    out.push(46);
    push_dec(a.oct3 as u16, &mut out);
    out.push(58);
    push_dec(a.port, &mut out);
    proof {
        assert(out@ =~= spec_format(*a));
    }
    out
}

/// ASCII decimal digit.
pub open spec fn is_digit(c: u8) -> bool {
    48 <= c && c <= 57
}

/// Length of the maximal run of digits in `s` starting at `i`.
pub open spec fn digit_run(s: Seq<u8>, i: int) -> int
    decreases s.len() - i,
{
    if i < 0 || i >= s.len() || !is_digit(s[i]) {
        0
    } else {
        1 + digit_run(s, i + 1)
    }
}

/// Numeric value of a digit string.
pub open spec fn dec_val(s: Seq<u8>) -> nat
    decreases s.len(),
{
    if s.len() == 0 {
        0
    } else {
        dec_val(s.drop_last()) * 10 + (s.last() - 48) as nat
    }
}

/// A digit segment of length `len` starting at `i` is canonical: nonempty,
/// and without a leading zero unless it is the single digit zero.
pub open spec fn canonical_seg(s: Seq<u8>, i: int, len: int) -> bool {
    len >= 1 && (len == 1 || s[i] != 48)
}

/// What parsing a byte sequence as address text yields: `Some` exactly for
/// the canonical `host:port` form, four dot-separated octet values below 256
/// followed by a colon and a port value below 65536, each in shortest decimal
/// form.
pub open spec fn spec_parse(s: Seq<u8>) -> Option<PeerAddress> {
    let l0 = digit_run(s, 0);
    let p1 = l0 + 1;
    let l1 = digit_run(s, p1);
    let p2 = p1 + l1 + 1;
    let l2 = digit_run(s, p2);
    let p3 = p2 + l2 + 1;
    let l3 = digit_run(s, p3);
    let p4 = p3 + l3 + 1;
    let l4 = digit_run(s, p4);
    let v0 = dec_val(s.subrange(0, l0));
    let v1 = dec_val(s.subrange(p1, p1 + l1));
    let v2 = dec_val(s.subrange(p2, p2 + l2));
    let v3 = dec_val(s.subrange(p3, p3 + l3));
    let v4 = dec_val(s.subrange(p4, p4 + l4));
    if canonical_seg(s, 0, l0) && l0 < s.len() && s[l0] == 46 && canonical_seg(s, p1, l1) && p1
        + l1 < s.len() && s[p1 + l1] == 46 && canonical_seg(s, p2, l2) && p2 + l2 < s.len() && s[p2
        + l2] == 46 && canonical_seg(s, p3, l3) && p3 + l3 < s.len() && s[p3 + l3] == 58
        && canonical_seg(s, p4, l4) && p4 + l4 == s.len() && v0 <= 255 && v1 <= 255 && v2 <= 255
        && v3 <= 255 && v4 <= 65535 {
        Some(
            PeerAddress {
                oct0: v0 as u8,
                oct1: v1 as u8,
                oct2: v2 as u8,
                oct3: v3 as u8,
                port: v4 as u16,
            },
        )
    } else {
        None
    }
}

/// A region of digits bounded on the right by the end of the sequence or a
/// non-digit is exactly the maximal digit run from its left end.
proof fn lemma_digit_run_section(s: Seq<u8>, i: int, j: int)
    requires
        0 <= i <= j <= s.len(),
        forall|k: int| i <= k < j ==> is_digit(s[k]),
        j == s.len() || !is_digit(s[j]),
    ensures
        digit_run(s, i) == j - i,
    decreases j - i,
{
    if i < j {
        lemma_digit_run_section(s, i + 1, j);
    }
}

/// Scan the digit run starting at `start`: return the index one past the run
/// together with its numeric value, or `None` in place of a value above
/// `limit`.
fn scan_number(s: &Vec<u8>, start: usize, limit: u32) -> (r: (usize, Option<u32>))
    requires
        start <= s@.len(),
        limit <= 0xffff,
    ensures
        start <= r.0 <= s@.len(),
        r.0 - start == digit_run(s@, start as int),
        r.1 matches Some(v) ==> v <= limit && v as nat == dec_val(
            s@.subrange(start as int, r.0 as int),
        ),
        r.1 is None ==> dec_val(s@.subrange(start as int, r.0 as int)) > limit,
{
    let len = s.len();
    let mut j = start;
    let mut acc: u32 = 0;
    let mut over = false;
    loop
        invariant_except_break
            start <= j <= len,
            len == s@.len(),
            limit <= 0xffff,
            forall|k: int| start <= k < j ==> is_digit(s@[k]),
            !over ==> acc <= limit && acc as nat == dec_val(
                s@.subrange(start as int, j as int),
            ),
            over ==> dec_val(s@.subrange(start as int, j as int)) > limit,
        ensures
            start <= j <= len,
            len == s@.len(),
            forall|k: int| start <= k < j ==> is_digit(s@[k]),
            j == len || !is_digit(s@[j as int]),
            !over ==> acc <= limit && acc as nat == dec_val(
                s@.subrange(start as int, j as int),
            ),
            over ==> dec_val(s@.subrange(start as int, j as int)) > limit,
        decreases len - j,
    {
        if j >= len {
            break ;
        }
        let c = s[j];
        if c < 48 || c > 57 {
            break ;
        }
        let d = (c - 48) as u32;
        proof {
            let sub2 = s@.subrange(start as int, j + 1 as int);
            assert(sub2.drop_last() =~= s@.subrange(start as int, j as int));
            assert(sub2.last() == s@[j as int]);
        }
        if over {
            proof {
                let prev = dec_val(s@.subrange(start as int, j as int));
                assert(dec_val(s@.subrange(start as int, j + 1 as int)) == prev * 10 + d);
            }
        } else {
            let tmp = acc * 10 + d;
            if tmp > limit {
                over = true;
            } else {
                acc = tmp;
            }
        }
        j = j + 1;
    }
    proof {
        lemma_digit_run_section(s@, start as int, j as int);
    }
    if over {
        (j, None)
    } else {
        (j, Some(acc))
    }
}

/// The shortest decimal form of `n` is made of digits, is canonical, and
/// denotes `n`.
proof fn lemma_spec_dec(n: nat)
    ensures
        spec_dec(n).len() >= 1,
        forall|i: int| 0 <= i < spec_dec(n).len() ==> is_digit(#[trigger] spec_dec(n)[i]),
        n >= 1 ==> spec_dec(n)[0] != 48,
        n == 0 ==> spec_dec(n).len() == 1,
        dec_val(spec_dec(n)) == n,
    decreases n,
{
    if n < 10 {
        let d = spec_dec(n);
        assert(d.len() == 1);
        assert(d.last() == (48 + n) as u8);
        assert(d.drop_last() =~= Seq::<u8>::empty());
        assert(dec_val(d.drop_last()) == 0);
        assert(dec_val(d) == dec_val(d.drop_last()) * 10 + (d.last() - 48) as nat);
    } else {
        lemma_spec_dec(n / 10);
        assert(n % 10 < 10) by (nonlinear_arith);
        let d = spec_dec(n);
        assert(d == spec_dec(n / 10).push((48 + n % 10) as u8));
        assert(d.drop_last() =~= spec_dec(n / 10));
        assert(d.last() == (48 + n % 10) as u8);
        lemma_fundamental_div_mod(n as int, 10);
        assert(dec_val(d) == (n / 10) * 10 + n % 10);
        assert(d[0] == spec_dec(n / 10)[0]);
    }
}

/// A digit region of `s` that equals `d` and is bounded on the right by the
/// end of `s` or a non-digit is the maximal digit run at its left end.
proof fn lemma_run_at(s: Seq<u8>, start: int, d: Seq<u8>)
    requires
        0 <= start,
        start + d.len() <= s.len(),
        s.subrange(start, start + d.len()) == d,
        forall|i: int| 0 <= i < d.len() ==> is_digit(#[trigger] d[i]),
        start + d.len() == s.len() || !is_digit(s[start + d.len()]),
    ensures
        digit_run(s, start) == d.len() as int,
{
    assert forall|k: int| start <= k < start + d.len() implies is_digit(s[k]) by {
        assert(d[k - start] == s.subrange(start, start + d.len())[k - start]);
    };
    lemma_digit_run_section(s, start, start + d.len());
}

/// Formatting an address and parsing the text back yields the address: every
/// announcement payload a node emits is accepted by the discovery listener
/// and names the announcing node exactly.
pub proof fn lemma_format_parse_round_trip(a: PeerAddress)
    ensures
        spec_parse(spec_format(a)) == Some(a),
{
    let d0 = spec_dec(a.oct0 as nat);
    let d1 = spec_dec(a.oct1 as nat);
    let d2 = spec_dec(a.oct2 as nat);
    let d3 = spec_dec(a.oct3 as nat);
    let d4 = spec_dec(a.port as nat);
    lemma_spec_dec(a.oct0 as nat);
    lemma_spec_dec(a.oct1 as nat);
    lemma_spec_dec(a.oct2 as nat);
    lemma_spec_dec(a.oct3 as nat);
    lemma_spec_dec(a.port as nat);
    let s = spec_format(a);
    let l0 = d0.len() as int;
    let p1 = l0 + 1;
    let l1 = d1.len() as int;
    let p2 = p1 + l1 + 1;
    let l2 = d2.len() as int;
    let p3 = p2 + l2 + 1;
    let l3 = d3.len() as int;
    let p4 = p3 + l3 + 1;
    let l4 = d4.len() as int;
    assert(s.len() == p4 + l4);
    assert(s.subrange(0, l0) =~= d0);
    assert(s.subrange(p1, p1 + l1) =~= d1);
    assert(s.subrange(p2, p2 + l2) =~= d2);
    assert(s.subrange(p3, p3 + l3) =~= d3);
    assert(s.subrange(p4, p4 + l4) =~= d4);
    assert(s[l0] == 46);
    assert(s[p1 + l1] == 46);
    assert(s[p2 + l2] == 46);
    assert(s[p3 + l3] == 58);
    lemma_run_at(s, 0, d0);
    lemma_run_at(s, p1, d1);
    lemma_run_at(s, p2, d2);
    lemma_run_at(s, p3, d3);
    lemma_run_at(s, p4, d4);
    assert(s[0] == d0[0]);
    assert(s[p1] == d1[0]);
    assert(s[p2] == d2[0]);
    assert(s[p3] == d3[0]);
    assert(s[p4] == d4[0]);
    assert(canonical_seg(s, 0, l0));
    assert(canonical_seg(s, p1, l1));
    assert(canonical_seg(s, p2, l2));
    assert(canonical_seg(s, p3, l3));
    assert(canonical_seg(s, p4, l4));
}

/// Parse address text. Returns exactly what the grammar admits: `Some` of
/// the address whose canonical text the bytes are, `None` for anything else.
pub fn parse_address(s: &Vec<u8>) -> (r: Option<PeerAddress>)
    ensures
        r == spec_parse(s@),
{
    let len = s.len();
    let (j0, v0opt) = scan_number(s, 0, 255);
    if j0 == 0 {
        return None;
    }
    if j0 > 1 && s[0] == 48 {
        return None;
    }
    if j0 >= len || s[j0] != 46 {
        return None;
    }
    let v0 = match v0opt {
        Some(v) => v,
        None => {
            return None;
        },
    };
    let p1 = j0 + 1;
    let (j1, v1opt) = scan_number(s, p1, 255);
    if j1 == p1 {
        return None;
    }
    if j1 > p1 + 1 && s[p1] == 48 {
        return None;
    }
    if j1 >= len || s[j1] != 46 {
        return None;
    }
    let v1 = match v1opt {
        Some(v) => v,
        None => {
            return None;
        },
    };
    let p2 = j1 + 1;
    let (j2, v2opt) = scan_number(s, p2, 255);
    if j2 == p2 {
        return None;
    }
    if j2 > p2 + 1 && s[p2] == 48 {
        return None;
    }
    if j2 >= len || s[j2] != 46 {
        return None;
    }
    let v2 = match v2opt {
        Some(v) => v,
        None => {
            return None;
        },
    };
    let p3 = j2 + 1;
    let (j3, v3opt) = scan_number(s, p3, 255);
    if j3 == p3 {
        return None;
    }
    if j3 > p3 + 1 && s[p3] == 48 {
        return None;
    }
    if j3 >= len || s[j3] != 58 {
        return None;
    }
    let v3 = match v3opt {
        Some(v) => v,
        None => {
            return None;
        },
    };
    let p4 = j3 + 1;
    let (j4, v4opt) = scan_number(s, p4, 65535);
    if j4 == p4 {
        return None;
    }
    if j4 > p4 + 1 && s[p4] == 48 {
        return None;
    }
    if j4 != len {
        return None;
    }
    let v4 = match v4opt {
        Some(v) => v,
        None => {
            return None;
        },
    };
    Some(
        PeerAddress {
            oct0: v0 as u8,
            oct1: v1 as u8,
            oct2: v2 as u8,
            oct3: v3 as u8,
            port: v4 as u16,
        },
    )
}

} // verus!
