//! IPv4 addresses: the four-octet value, its 32-bit encoding in network
//! byte order, and the dotted-decimal text form.
use core::convert::Infallible;
use vstd::prelude::*;
use vstd::string::StringSliceAdditionalSpecFns;

verus! {

/// An IPv4 address held as its four octets, most significant first.
#[derive(Clone, Copy, Debug, PartialEq, Eq, Structural)]
pub struct Ipv4Address {
    pub a: u8,
    pub b: u8,
    pub c: u8,
    pub d: u8,
}

/// The text `"1.2.3.4"` could not be read as an IPv4 address.
#[derive(Clone, Copy, Debug, PartialEq, Eq, Structural)]
pub struct AddrParseError;

/// The 32-bit value of an address: its octets read in network (big-endian) order.
pub open spec fn be_u32(a: u8, b: u8, c: u8, d: u8) -> int {
    a * 16777216 + b * 65536 + c * 256 + d
}

impl Ipv4Address {
    /// The octets of the address, most significant first.
    pub open spec fn octet_seq(self) -> Seq<u8> {
        seq![self.a, self.b, self.c, self.d]
    }

    /// The address as a 32-bit number in host order.
    pub open spec fn bits(self) -> int {
        be_u32(self.a, self.b, self.c, self.d)
    }

    /// Builds the address `a.b.c.d`.
    pub fn new(a: u8, b: u8, c: u8, d: u8) -> (r: Ipv4Address)
        ensures
            r == (Ipv4Address { a, b, c, d }),
    {
        Ipv4Address { a, b, c, d }
    }

    /// The four octets, most significant first.
    pub fn octets(&self) -> (r: [u8; 4])
        ensures
            r@ == self.octet_seq(),
    {
        let r = [self.a, self.b, self.c, self.d];
        assert(r@ =~= self.octet_seq());
        r
    }

    /// The address as a `u32` in host order (the first octet is the most significant byte).
    pub fn to_bits(&self) -> (r: u32)
        ensures
            r as int == self.bits(),
            r % 256 == self.d,
            (r / 256) % 256 == self.c,
            (r / 65536) % 256 == self.b,
            r / 16777216 == self.a,
    {
        proof {
            lemma_bits_octets(*self);
        }
        (self.a as u32) * 16777216 + (self.b as u32) * 65536 + (self.c as u32) * 256
            + (self.d as u32)
    }
}

/// Converts an address to its 32-bit value by rebuilding it from its octets.
///
/// The conversion cannot fail: the result is always `Ok`.
pub fn create_ipv4_addr(ip_addr: Ipv4Address) -> (r: Result<u32, Infallible>)
    ensures
        r matches Ok(v) && v as int == ip_addr.bits(),
        r matches Ok(v) && v % 256 == ip_addr.d && (v / 256) % 256 == ip_addr.c && (v / 65536)
            % 256 == ip_addr.b && v / 16777216 == ip_addr.a,
{
    let octets = ip_addr.octets();
    let rebuilt = Ipv4Address::new(octets[0], octets[1], octets[2], octets[3]);
    let ip_value: u32 = rebuilt.to_bits();
    Ok(ip_value)
}

/// Converts an address to its 32-bit value directly.
///
/// The conversion cannot fail: the result is always `Ok`.
pub fn create_ipv4_addr_param(ip_addr: Ipv4Address) -> (r: Result<u32, Infallible>)
    ensures
        r matches Ok(v) && v as int == ip_addr.bits(),
        r matches Ok(v) && v % 256 == ip_addr.d && (v / 256) % 256 == ip_addr.c && (v / 65536)
            % 256 == ip_addr.b && v / 16777216 == ip_addr.a,
{
    let ip_value: u32 = ip_addr.to_bits();
    Ok(ip_value)
}

/// The 32-bit value of `a.b.c.d` holds `d` in its least significant byte,
/// then `c`, then `b`, and `a` in its most significant byte.
pub proof fn lemma_bits_octets(ip: Ipv4Address)
    ensures
        0 <= ip.bits() < 0x1_0000_0000,
        ip.bits() % 256 == ip.d,
        (ip.bits() / 256) % 256 == ip.c,
        (ip.bits() / 65536) % 256 == ip.b,
        ip.bits() / 16777216 == ip.a,
{
    let x = ip.bits();
    let (a, b, c, d) = (ip.a as int, ip.b as int, ip.c as int, ip.d as int);
    assert(x == ((a * 256 + b) * 256 + c) * 256 + d);
    assert(0 <= x < 0x1_0000_0000 && x % 256 == d && (x / 256) % 256 == c && (x / 65536) % 256
        == b && x / 16777216 == a) by (nonlinear_arith)
        requires
            x == ((a * 256 + b) * 256 + c) * 256 + d,
            0 <= a < 256,
            0 <= b < 256,
            0 <= c < 256,
            0 <= d < 256,
    ;
}

/// Two addresses with the same 32-bit value are the same address.
pub proof fn lemma_bits_injective(x: Ipv4Address, y: Ipv4Address)
    requires
        x.bits() == y.bits(),
    ensures
        x == y,
{
    assert(x.a == y.a && x.b == y.b && x.c == y.c && x.d == y.d) by (nonlinear_arith)
        requires
            x.a * 16777216 + x.b * 65536 + x.c * 256 + x.d == y.a * 16777216 + y.b * 65536 + y.c
                * 256 + y.d,
            x.a < 256,
            x.b < 256,
            x.c < 256,
            x.d < 256,
            y.a < 256,
            y.b < 256,
            y.c < 256,
            y.d < 256,
    ;
}

/// `b` is an ASCII decimal digit.
pub open spec fn is_digit(b: u8) -> bool {
    48 <= b <= 57
}

/// The ASCII digit for `n`, where `n < 10`.
pub open spec fn digit_char(n: u8) -> u8 {
    (48 + n) as u8
}

/// The decimal text of an octet, without leading zeros.
pub open spec fn decimal(n: u8) -> Seq<u8> {
    if n < 10 {
        seq![digit_char(n)]
    } else if n < 100 {
        seq![digit_char(n / 10), digit_char(n % 10)]
    } else {
        seq![digit_char(n / 100), digit_char((n / 10) % 10), digit_char(n % 10)]
    }
}

/// The text of an octet is its decimal numeral: one to three ASCII digits
/// whose value is the octet, with no leading zero.
pub proof fn lemma_octet_text(n: u8)
    ensures
        1 <= decimal(n).len() <= 3,
        forall|t: int| 0 <= t < decimal(n).len() ==> 48 <= #[trigger] decimal(n)[t] <= 57,
        decimal(n).len() == 1 ==> decimal(n)[0] - 48 == n,
        decimal(n).len() == 2 ==> (decimal(n)[0] - 48) * 10 + (decimal(n)[1] - 48) == n
            && decimal(n)[0] != 48,
        decimal(n).len() == 3 ==> (decimal(n)[0] - 48) * 100 + (decimal(n)[1] - 48) * 10 + (
        decimal(n)[2] - 48) == n && decimal(n)[0] != 48,
{
}

/// The dotted-decimal text of an address, such as `192.168.0.1`.
pub open spec fn dotted_quad(ip: Ipv4Address) -> Seq<u8> {
    decimal(ip.a) + seq![46u8] + decimal(ip.b) + seq![46u8] + decimal(ip.c) + seq![46u8]
        + decimal(ip.d)
}

/// The number that a run of ASCII digits denotes.
pub open spec fn digits_value(s: Seq<u8>) -> int
    decreases s.len(),
{
    if s.len() == 0 {
        0
    } else {
        digits_value(s.drop_last()) * 10 + (s.last() - 48)
    }
}

/// The text of octet `v` starts at `i` in `s` and is not followed by another digit.
pub open spec fn octet_at(s: Seq<u8>, i: int, v: u8) -> bool {
    let k = decimal(v).len() as int;
    &&& 0 <= i
    &&& i + k <= s.len()
    &&& s.subrange(i, i + k) == decimal(v)
    &&& (i + k == s.len() || !is_digit(s[i + k]))
}

proof fn lemma_decimal(v: u8)
    ensures
        1 <= decimal(v).len() <= 3,
        forall|t: int| 0 <= t < decimal(v).len() ==> is_digit(#[trigger] decimal(v)[t]),
        digits_value(decimal(v)) == v,
        decimal(v).len() > 1 ==> decimal(v)[0] != 48u8,
{
    let s = decimal(v);
    reveal_with_fuel(digits_value, 4);
    if v < 10 {
        assert(s.drop_last() =~= Seq::<u8>::empty());
    } else if v < 100 {
        assert(s.drop_last() =~= seq![digit_char(v / 10)]);
        assert(s.drop_last().drop_last() =~= Seq::<u8>::empty());
    } else {
        assert(s.drop_last() =~= seq![digit_char(v / 100), digit_char((v / 10) % 10)]);
        assert(s.drop_last().drop_last() =~= seq![digit_char(v / 100)]);
        assert(s.drop_last().drop_last().drop_last() =~= Seq::<u8>::empty());
    }
}

/// A run of one to three digits without a leading zero whose value fits in
/// an octet is the decimal text of that value.
proof fn lemma_digits_canonical(s: Seq<u8>)
    requires
        1 <= s.len() <= 3,
        forall|t: int| 0 <= t < s.len() ==> is_digit(#[trigger] s[t]),
        s.len() > 1 ==> s[0] != 48u8,
        digits_value(s) <= 255,
    ensures
        s == decimal(digits_value(s) as u8),
{
    reveal_with_fuel(digits_value, 4);
    let v = digits_value(s);
    if s.len() == 1 {
        assert(s.drop_last() =~= Seq::<u8>::empty());
        assert(s =~= decimal(v as u8));
    } else if s.len() == 2 {
        assert(s.drop_last() =~= seq![s[0]]);
        assert(s.drop_last().drop_last() =~= Seq::<u8>::empty());
        assert(s =~= decimal(v as u8));
    } else {
        assert(s.drop_last() =~= seq![s[0], s[1]]);
        assert(s.drop_last().drop_last() =~= seq![s[0]]);
        assert(s.drop_last().drop_last().drop_last() =~= Seq::<u8>::empty());
        assert(s =~= decimal(v as u8));
    }
}

/// At a given position at most one octet text starts.
proof fn lemma_octet_at_unique(s: Seq<u8>, i: int, v: u8, w: u8)
    requires
        octet_at(s, i, v),
        octet_at(s, i, w),
    ensures
        v == w,
{
    lemma_decimal(v);
    lemma_decimal(w);
    let kv = decimal(v).len() as int;
    let kw = decimal(w).len() as int;
    if kv < kw {
        assert(s[i + kv] == s.subrange(i, i + kw)[kv]);
        assert(is_digit(decimal(w)[kv]));
    } else if kw < kv {
        assert(s[i + kw] == s.subrange(i, i + kv)[kw]);
        assert(is_digit(decimal(v)[kw]));
    }
    assert(decimal(v) == decimal(w));
}

/// Reads the octet text that starts at `i`: its value and the position after it.
fn parse_octet(b: &[u8], i: usize) -> (r: Option<(u8, usize)>)
    requires
        i <= b@.len(),
    ensures
        match r {
            Some((v, j)) => octet_at(b@, i as int, v) && j == i + decimal(v).len(),
            None => forall|v: u8| !octet_at(b@, i as int, v),
        },
{
    let mut j: usize = i;
    let mut val: u32 = 0;
    while j < b.len() && j - i < 4 && 48 <= b[j] && b[j] <= 57
        invariant
            i <= j <= b@.len(),
            j - i <= 4,
            forall|t: int| i <= t < j ==> is_digit(#[trigger] b@[t]),
            val == digits_value(b@.subrange(i as int, j as int)),
            j - i == 0 ==> val == 0,
            j - i <= 1 ==> val <= 9,
            j - i <= 2 ==> val <= 99,
            j - i <= 3 ==> val <= 999,
            val <= 9999,
        decreases b@.len() - j,
    {
        assert(b@.subrange(i as int, j + 1).drop_last() =~= b@.subrange(i as int, j as int));
        val = val * 10 + (b[j] - 48) as u32;
        j = j + 1;
    }
    let ghost run = b@.subrange(i as int, j as int);
    let n = j - i;
    if n == 0 || n == 4 || (n > 1 && b[i] == 48) || val > 255 {
        proof {
            assert forall|v: u8| !octet_at(b@, i as int, v) by {
                if octet_at(b@, i as int, v) {
                    lemma_decimal(v);
                    let k = decimal(v).len() as int;
                    if n < k {
                        assert(b@[j as int] == b@.subrange(i as int, i + k)[n as int]);
                        assert(is_digit(decimal(v)[n as int]));
                    } else if k < n {
                        assert(is_digit(b@[i + k]));
                    } else {
                        assert(run =~= decimal(v));
                        assert(b@[i as int] == run[0]);
                    }
                }
            }
        }
        None
    } else {
        proof {
            assert forall|t: int| 0 <= t < run.len() implies is_digit(#[trigger] run[t]) by {
                assert(run[t] == b@[i + t]);
            }
            assert(run[0] == b@[i as int]);
            lemma_digits_canonical(run);
            lemma_decimal(val as u8);
        }
        Some((val as u8, j))
    }
}

/// The text `s` splits as the octet texts of `ip` joined by dots, given
/// where the first three octet texts end.
proof fn lemma_dotted_split(s: Seq<u8>, ip: Ipv4Address, j0: int, j1: int, j2: int)
    requires
        octet_at(s, 0, ip.a),
        j0 == decimal(ip.a).len(),
        j0 < s.len() && s[j0] == 46u8,
        octet_at(s, j0 + 1, ip.b),
        j1 == j0 + 1 + decimal(ip.b).len(),
        j1 < s.len() && s[j1] == 46u8,
        octet_at(s, j1 + 1, ip.c),
        j2 == j1 + 1 + decimal(ip.c).len(),
        j2 < s.len() && s[j2] == 46u8,
        octet_at(s, j2 + 1, ip.d),
        j2 + 1 + decimal(ip.d).len() == s.len(),
    ensures
        s == dotted_quad(ip),
{
    let n = s.len() as int;
    assert(s =~= s.subrange(0, j0) + seq![46u8] + s.subrange(j0 + 1, j1) + seq![46u8]
        + s.subrange(j1 + 1, j2) + seq![46u8] + s.subrange(j2 + 1, n));
}

/// The octet texts and the dots of the dotted text of `ip`, position by position.
proof fn lemma_dotted_parts(s: Seq<u8>, ip: Ipv4Address)
    requires
        s == dotted_quad(ip),
    ensures
        ({
            let j0 = decimal(ip.a).len() as int;
            let j1 = j0 + 1 + decimal(ip.b).len();
            let j2 = j1 + 1 + decimal(ip.c).len();
            &&& octet_at(s, 0, ip.a)
            &&& j0 < s.len() && s[j0] == 46u8
            &&& octet_at(s, j0 + 1, ip.b)
            &&& j1 < s.len() && s[j1] == 46u8
            &&& octet_at(s, j1 + 1, ip.c)
            &&& j2 < s.len() && s[j2] == 46u8
            &&& octet_at(s, j2 + 1, ip.d)
            &&& j2 + 1 + decimal(ip.d).len() == s.len()
        }),
{
    lemma_decimal(ip.a);
    lemma_decimal(ip.b);
    lemma_decimal(ip.c);
    lemma_decimal(ip.d);
    let j0 = decimal(ip.a).len() as int;
    let j1 = j0 + 1 + decimal(ip.b).len();
    let j2 = j1 + 1 + decimal(ip.c).len();
    let n = s.len() as int;
    assert(s.subrange(0, j0) =~= decimal(ip.a));
    assert(s.subrange(j0 + 1, j1) =~= decimal(ip.b));
    assert(s.subrange(j1 + 1, j2) =~= decimal(ip.c));
    assert(s.subrange(j2 + 1, n) =~= decimal(ip.d));
    assert(s[j0] == 46u8);
    assert(s[j1] == 46u8);
    assert(s[j2] == 46u8);
}

/// Reads an IPv4 address in dotted-decimal form, such as `"192.168.0.1"`.
///
/// Each of the four octets is written in decimal with one to three digits,
/// without leading zeros and at most 255; nothing else may stand in the text.
/// Such a text is exactly the dotted-decimal text of one address, so the
/// result is `Ok` exactly for the texts that some address prints as.
pub fn parse_ipv4(s: &str) -> (r: Result<Ipv4Address, AddrParseError>)
    ensures
        match r {
            Ok(ip) => s.spec_bytes() == dotted_quad(ip),
            Err(_) => forall|ip: Ipv4Address| s.spec_bytes() != dotted_quad(ip),
        },
{
    let b = s.as_bytes();
    let ghost t = b@;
    let n = b.len();
    let (va, j0) = match parse_octet(b, 0) {
        Some(p) => p,
        None => {
            proof {
                assert forall|ip: Ipv4Address| t != dotted_quad(ip) by {
                    if t == dotted_quad(ip) {
                        lemma_dotted_parts(t, ip);
                    }
                }
            }
            return Err(AddrParseError);
        },
    };
    if j0 >= n || b[j0] != 46 {
        proof {
            assert forall|ip: Ipv4Address| t != dotted_quad(ip) by {
                if t == dotted_quad(ip) {
                    lemma_dotted_parts(t, ip);
                    lemma_octet_at_unique(t, 0, va, ip.a);
                }
            }
        }
        return Err(AddrParseError);
    }
    let (vb, j1) = match parse_octet(b, j0 + 1) {
        Some(p) => p,
        None => {
            proof {
                assert forall|ip: Ipv4Address| t != dotted_quad(ip) by {
                    if t == dotted_quad(ip) {
                        lemma_dotted_parts(t, ip);
                        lemma_octet_at_unique(t, 0, va, ip.a);
                    }
                }
            }
            return Err(AddrParseError);
        },
    };
    if j1 >= n || b[j1] != 46 {
        proof {
            assert forall|ip: Ipv4Address| t != dotted_quad(ip) by {
                if t == dotted_quad(ip) {
                    lemma_dotted_parts(t, ip);
                    lemma_octet_at_unique(t, 0, va, ip.a);
                    lemma_octet_at_unique(t, j0 + 1, vb, ip.b);
                }
            }
        }
        return Err(AddrParseError);
    }
    let (vc, j2) = match parse_octet(b, j1 + 1) {
        Some(p) => p,
        None => {
            proof {
                assert forall|ip: Ipv4Address| t != dotted_quad(ip) by {
                    if t == dotted_quad(ip) {
                        lemma_dotted_parts(t, ip);
                        lemma_octet_at_unique(t, 0, va, ip.a);
                        lemma_octet_at_unique(t, j0 + 1, vb, ip.b);
                    }
                }
            }
            return Err(AddrParseError);
        },
    };
    if j2 >= n || b[j2] != 46 {
        proof {
            assert forall|ip: Ipv4Address| t != dotted_quad(ip) by {
                if t == dotted_quad(ip) {
                    lemma_dotted_parts(t, ip);
                    lemma_octet_at_unique(t, 0, va, ip.a);
                    lemma_octet_at_unique(t, j0 + 1, vb, ip.b);
                    lemma_octet_at_unique(t, j1 + 1, vc, ip.c);
                }
            }
        }
        return Err(AddrParseError);
    }
    let (vd, j3) = match parse_octet(b, j2 + 1) {
        Some(p) => p,
        None => {
            proof {
                assert forall|ip: Ipv4Address| t != dotted_quad(ip) by {
                    if t == dotted_quad(ip) {
                        lemma_dotted_parts(t, ip);
                        lemma_octet_at_unique(t, 0, va, ip.a);
                        lemma_octet_at_unique(t, j0 + 1, vb, ip.b);
                        lemma_octet_at_unique(t, j1 + 1, vc, ip.c);
                    }
                }
            }
            return Err(AddrParseError);
        },
    };
    if j3 != n {
        proof {
            assert forall|ip: Ipv4Address| t != dotted_quad(ip) by {
                if t == dotted_quad(ip) {
                    lemma_dotted_parts(t, ip);
                    lemma_octet_at_unique(t, 0, va, ip.a);
                    lemma_octet_at_unique(t, j0 + 1, vb, ip.b);
                    lemma_octet_at_unique(t, j1 + 1, vc, ip.c);
                    lemma_octet_at_unique(t, j2 + 1, vd, ip.d);
                }
            }
        }
        return Err(AddrParseError);
    }
    let ip = Ipv4Address::new(va, vb, vc, vd);
    proof {
        lemma_dotted_split(t, ip, j0 as int, j1 as int, j2 as int);
    }
    Ok(ip)
}

/// Different addresses have different dotted-decimal texts, so reading the
/// text of an address gives back that address.
pub proof fn lemma_dotted_quad_injective(x: Ipv4Address, y: Ipv4Address)
    requires
        dotted_quad(x) == dotted_quad(y),
    ensures
        x == y,
{
    let s = dotted_quad(x);
    lemma_dotted_parts(s, x);
    lemma_dotted_parts(s, y);
    lemma_octet_at_unique(s, 0, x.a, y.a);
    let j0 = decimal(x.a).len() as int;
    lemma_octet_at_unique(s, j0 + 1, x.b, y.b);
    let j1 = j0 + 1 + decimal(x.b).len();
    lemma_octet_at_unique(s, j1 + 1, x.c, y.c);
    let j2 = j1 + 1 + decimal(x.c).len();
    lemma_octet_at_unique(s, j2 + 1, x.d, y.d);
}

} // verus!
