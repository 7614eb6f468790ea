//! Conversions between the `u32` form of an IPv4 address used as a table
//! key and its four octets or dotted-decimal text.
//!
//! An address is packed with the first octet in the low byte, the layout
//! in which the ingress hook observes it; the dotted-decimal text prints
//! the first octet first.

use vstd::arithmetic::div_mod::lemma_div_denominator;
use vstd::arithmetic::div_mod::lemma_fundamental_div_mod;
use vstd::prelude::*;
use vstd::string::StrSliceExecFns;
use vstd::string::StringExecFns;

verus! {

/// Packs four IPv4 octets, first octet in the low byte, into one `u32`.
pub open spec fn ipv4_u32_of(a: u8, b: u8, c: u8, d: u8) -> u32 {
    (a + b * 0x100 + c * 0x1_0000 + d * 0x100_0000) as u32
}

/// Encodes the four octets of an IPv4 address, given first octet first,
/// as a single `u32` with the first octet in the low byte.
///
/// Only the first four octets are read; the vector may be longer.
pub fn ipv4_to_u32(ip: Vec<u8>) -> (r: u32)
    requires
        ip@.len() >= 4,
    ensures
        r == ipv4_u32_of(ip@[0], ip@[1], ip@[2], ip@[3]),
{
    let mut d: u32 = (ip[3] as u32) * 0x100_0000;
    d += (ip[2] as u32) * 0x1_0000;
    d += (ip[1] as u32) * 0x100;
    d += ip[0] as u32;
    d
}

/// The four octets of an IPv4 address, `a` first on the wire and in the
/// dotted-decimal text.
#[derive(Clone, Copy, Debug, PartialEq, Eq, Structural)]
pub struct Ipv4Octets {
    pub a: u8,
    pub b: u8,
    pub c: u8,
    pub d: u8,
}

impl Ipv4Octets {
    /// The packed `u32` form of this address.
    pub open spec fn spec_u32(&self) -> u32 {
        ipv4_u32_of(self.a, self.b, self.c, self.d)
    }

    /// The dotted-decimal text of this address.
    pub fn to_string(&self) -> (r: String)
        ensures
            r@ == ipv4_str_of(self.a, self.b, self.c, self.d),
    {
        let mut s = u32_to_dec(self.a as u32);
        let dot = dot_str();
        s.append(dot);
        let sb = u32_to_dec(self.b as u32);
        s.append(sb.as_str());
        s.append(dot);
        let sc = u32_to_dec(self.c as u32);
        s.append(sc.as_str());
        s.append(dot);
        let sd = u32_to_dec(self.d as u32);
        s.append(sd.as_str());
        s
    }
}

/// Splitting a packed address back into its octets recovers the number.
pub proof fn lemma_ipv4_u32_decompose(v: u32)
    ensures
        v / 0x100_0000 < 0x100,
        ipv4_u32_of(
            (v % 0x100) as u8,
            ((v / 0x100) % 0x100) as u8,
            ((v / 0x1_0000) % 0x100) as u8,
            (v / 0x100_0000) as u8,
        ) == v,
{
    lemma_fundamental_div_mod(v as int, 0x100);
    lemma_fundamental_div_mod(v as int / 0x100, 0x100);
    lemma_fundamental_div_mod(v as int / 0x1_0000, 0x100);
    lemma_div_denominator(v as int, 0x100, 0x100);
    lemma_div_denominator(v as int, 0x1_0000, 0x100);
    assert(0x100 * 0x100 == 0x1_0000);
    assert(0x1_0000 * 0x100 == 0x100_0000);
}

/// Unpacks a `u32` address into its four octets, low byte first.
pub fn u32_to_ipv4(rawip: u32) -> (r: Ipv4Octets)
    ensures
        r.a == rawip % 0x100,
        r.b == (rawip / 0x100) % 0x100,
        r.c == (rawip / 0x1_0000) % 0x100,
        r.d == rawip / 0x100_0000,
        r.spec_u32() == rawip,
{
    proof {
        lemma_ipv4_u32_decompose(rawip);
    }
    let a = (rawip % 0x100) as u8;
    let b = ((rawip / 0x100) % 0x100) as u8;
    let c = ((rawip / 0x1_0000) % 0x100) as u8;
    let d = (rawip / 0x100_0000) as u8;
    Ipv4Octets { a, b, c, d }
}

/// Packing four octets and unpacking them again is the identity.
pub proof fn lemma_ipv4_octets_round_trip(a: u8, b: u8, c: u8, d: u8)
    ensures
        ipv4_u32_of(a, b, c, d) % 0x100 == a,
        (ipv4_u32_of(a, b, c, d) / 0x100) % 0x100 == b,
        (ipv4_u32_of(a, b, c, d) / 0x1_0000) % 0x100 == c,
        ipv4_u32_of(a, b, c, d) / 0x100_0000 == d,
{
    let v = ipv4_u32_of(a, b, c, d) as int;
    assert(v == a + b * 0x100 + c * 0x1_0000 + d * 0x100_0000);
    lemma_fundamental_div_mod(v, 0x100);
    lemma_fundamental_div_mod(v / 0x100, 0x100);
    lemma_fundamental_div_mod(v / 0x1_0000, 0x100);
    lemma_div_denominator(v, 0x100, 0x100);
    lemma_div_denominator(v, 0x1_0000, 0x100);
    assert(0x100 * 0x100 == 0x1_0000);
    assert(0x1_0000 * 0x100 == 0x100_0000);
    assert(v / 0x100 == b + c * 0x100 + d * 0x1_0000 && v % 0x100 == a) by {
        vstd::arithmetic::div_mod::lemma_fundamental_div_mod_converse(
            v,
            0x100,
            b + c * 0x100 + d * 0x1_0000,
            a as int,
        );
    }
    assert(v / 0x1_0000 == c + d * 0x100) by {
        vstd::arithmetic::div_mod::lemma_fundamental_div_mod_converse(
            v / 0x100,
            0x100,
            c + d * 0x100,
            b as int,
        );
    }
    assert(v / 0x100_0000 == d) by {
        vstd::arithmetic::div_mod::lemma_fundamental_div_mod_converse(
            v / 0x1_0000,
            0x100,
            d as int,
            c as int,
        );
    }
}

/// The decimal digit characters, in order of value.
pub open spec fn dec_digit(d: int) -> char {
    if d == 0 {
        '0'
    } else if d == 1 {
        '1'
    } else if d == 2 {
        '2'
    } else if d == 3 {
        '3'
    } else if d == 4 {
        '4'
    } else if d == 5 {
        '5'
    } else if d == 6 {
        '6'
    } else if d == 7 {
        '7'
    } else if d == 8 {
        '8'
    } else {
        '9'
    }
}

/// The decimal text of a nonnegative number, most significant digit
/// first, with no leading zero except for the number zero itself.
pub open spec fn dec_str(n: int) -> Seq<char>
    decreases n,
{
    if n < 10 {
        seq![dec_digit(n)]
    } else {
        dec_str(n / 10).push(dec_digit(n % 10))
    }
}

/// A one-character string holding the digit `d`.
fn digit_str(d: u32) -> (r: &'static str)
    requires
        d < 10,
    ensures
        r@ == seq![dec_digit(d as int)],
{
    proof {
        reveal_strlit("0");
        reveal_strlit("1");
        reveal_strlit("2");
        reveal_strlit("3");
        reveal_strlit("4");
        reveal_strlit("5");
        reveal_strlit("6");
        reveal_strlit("7");
        reveal_strlit("8");
        reveal_strlit("9");
    }
    let r = match d {
        0 => "0",
        1 => "1",
        2 => "2",
        3 => "3",
        4 => "4",
        5 => "5",
        6 => "6",
        7 => "7",
        8 => "8",
        _ => "9",
    };
    proof {
        assert(r@ =~= seq![dec_digit(d as int)]);
    }
    r
}

/// A one-character string holding the octet separator.
fn dot_str() -> (r: &'static str)
    ensures
        r@ == seq!['.'],
{
    proof {
        reveal_strlit(".");
        assert("."@ =~= seq!['.']);
    }
    "."
}

/// The decimal text of `n`.
pub fn u32_to_dec(n: u32) -> (r: String)
    ensures
        r@ == dec_str(n as int),
    decreases n,
{
    if n < 10 {
        String::from_str(digit_str(n))
    } else {
        let mut s = u32_to_dec(n / 10);
        s.append(digit_str(n % 10));
        proof {
            assert(s@ =~= dec_str(n as int));
        }
        s
    }
}

/// The dotted-decimal text of the address with octets `a.b.c.d`.
pub open spec fn ipv4_str_of(a: u8, b: u8, c: u8, d: u8) -> Seq<char> {
    dec_str(a as int) + seq!['.'] + dec_str(b as int) + seq!['.'] + dec_str(c as int) + seq!['.']
        + dec_str(d as int)
}

/// The value of a decimal digit character, or -1 for any other character.
pub open spec fn digit_val(ch: char) -> int {
    if ch == '0' {
        0
    } else if ch == '1' {
        1
    } else if ch == '2' {
        2
    } else if ch == '3' {
        3
    } else if ch == '4' {
        4
    } else if ch == '5' {
        5
    } else if ch == '6' {
        6
    } else if ch == '7' {
        7
    } else if ch == '8' {
        8
    } else if ch == '9' {
        9
    } else {
        -1
    }
}

/// Whether a character is a decimal digit.
pub open spec fn is_digit(ch: char) -> bool {
    digit_val(ch) >= 0
}

/// Every character of the text is a decimal digit.
pub open spec fn all_digits(s: Seq<char>) -> bool {
    forall|i: int| 0 <= i < s.len() ==> is_digit(#[trigger] s[i])
}

/// The number a run of digits denotes, most significant digit first.
pub open spec fn octet_val(s: Seq<char>) -> int
    decreases s.len(),
{
    if s.len() == 0 {
        0
    } else {
        octet_val(s.drop_last()) * 10 + digit_val(s.last())
    }
}

/// The text of one octet: one to three digits, no leading zero except
/// for zero itself, and a value of at most 255.
pub open spec fn octet_text(s: Seq<char>) -> bool {
    &&& 1 <= s.len() <= 3
    &&& all_digits(s)
    &&& (s.len() > 1 ==> s[0] != '0')
    &&& octet_val(s) <= 255
}

/// Four pieces of text joined by dots.
pub open spec fn dotted_quad(o0: Seq<char>, o1: Seq<char>, o2: Seq<char>, o3: Seq<char>) -> Seq<
    char,
> {
    o0 + seq!['.'] + o1 + seq!['.'] + o2 + seq!['.'] + o3
}

/// The text is a dotted-decimal IPv4 address: four octets joined by dots.
pub open spec fn ipv4_text(s: Seq<char>) -> bool {
    exists|o0: Seq<char>, o1: Seq<char>, o2: Seq<char>, o3: Seq<char>|
        s == #[trigger] dotted_quad(o0, o1, o2, o3) && octet_text(o0) && octet_text(o1)
            && octet_text(o2) && octet_text(o3)
}

/// The text is a dotted-decimal IPv4 address whose packed value is `v`.
pub open spec fn parses_to(s: Seq<char>, v: u32) -> bool {
    exists|o0: Seq<char>, o1: Seq<char>, o2: Seq<char>, o3: Seq<char>|
        s == #[trigger] dotted_quad(o0, o1, o2, o3) && octet_text(o0) && octet_text(o1)
            && octet_text(o2) && octet_text(o3) && v == ipv4_u32_of(
            octet_val(o0) as u8,
            octet_val(o1) as u8,
            octet_val(o2) as u8,
            octet_val(o3) as u8,
        )
}

/// In a well-formed dotted quad the three dots stand exactly at the
/// octet boundaries, everything else is a digit, and the octets are the
/// pieces between the dots.
pub proof fn lemma_quad_structure(
    s: Seq<char>,
    o0: Seq<char>,
    o1: Seq<char>,
    o2: Seq<char>,
    o3: Seq<char>,
)
    requires
        s == dotted_quad(o0, o1, o2, o3),
        octet_text(o0),
        octet_text(o1),
        octet_text(o2),
        octet_text(o3),
    ensures
        ({
            let j0 = o0.len() as int;
            let j1 = j0 + 1 + o1.len();
            let j2 = j1 + 1 + o2.len();
            &&& s.len() == j2 + 1 + o3.len()
            &&& s[j0] == '.'
            &&& s[j1] == '.'
            &&& s[j2] == '.'
            &&& (forall|i: int|
                0 <= i < s.len() && i != j0 && i != j1 && i != j2 ==> is_digit(#[trigger] s[i]))
            &&& (forall|i: int| 0 <= i < s.len() && #[trigger] s[i] == '.' ==> i == j0 || i == j1 || i == j2)
            &&& o0 == s.subrange(0, j0)
            &&& o1 == s.subrange(j0 + 1, j1)
            &&& o2 == s.subrange(j1 + 1, j2)
            &&& o3 == s.subrange(j2 + 1, s.len() as int)
        }),
{
    let j0 = o0.len() as int;
    let j1 = j0 + 1 + o1.len();
    let j2 = j1 + 1 + o2.len();
    assert forall|i: int|
        0 <= i < s.len() && i != j0 && i != j1 && i != j2 implies is_digit(#[trigger] s[i]) by {
        if i < j0 {
            assert(s[i] == o0[i]);
        } else if i < j1 {
            assert(s[i] == o1[i - j0 - 1]);
        } else if i < j2 {
            assert(s[i] == o2[i - j1 - 1]);
        } else {
            assert(s[i] == o3[i - j2 - 1]);
        }
    }
    assert forall|i: int| 0 <= i < s.len() && #[trigger] s[i] == '.' implies i == j0 || i == j1
        || i == j2 by {
        if i != j0 && i != j1 && i != j2 {
            assert(is_digit(s[i]));
        }
    }
    assert(o0 =~= s.subrange(0, j0));
    assert(o1 =~= s.subrange(j0 + 1, j1));
    assert(o2 =~= s.subrange(j1 + 1, j2));
    assert(o3 =~= s.subrange(j2 + 1, s.len() as int));
}

/// The value of a digit character, where it is one.
fn digit_of(c: char) -> (r: Option<u8>)
    ensures
        r is Some ==> is_digit(c) && r->0 == digit_val(c),
        r is None ==> !is_digit(c),
{
    match c {
        '0' => Some(0),
        '1' => Some(1),
        '2' => Some(2),
        '3' => Some(3),
        '4' => Some(4),
        '5' => Some(5),
        '6' => Some(6),
        '7' => Some(7),
        '8' => Some(8),
        '9' => Some(9),
        _ => None,
    }
}

/// The position of the first dot at or after `from`, if any.
fn find_dot(s: &str, from: usize) -> (r: Option<usize>)
    requires
        from <= s@.len(),
    ensures
        match r {
            Some(i) => from <= i < s@.len() && s@[i as int] == '.' && (forall|j: int|
                from <= j < i ==> s@[j] != '.'),
            None => forall|j: int| from <= j < s@.len() ==> s@[j] != '.',
        },
{
    let n = s.unicode_len();
    let mut i: usize = from;
    while i < n
        invariant
            from <= i <= n,
            n == s@.len(),
            forall|j: int| from <= j < i ==> s@[j] != '.',
        decreases n - i,
    {
        if s.get_char(i) == '.' {
            return Some(i);
        }
        i += 1;
    }
    None
}

/// Parse the piece of `s` between `from` and `to` as one octet.
fn parse_octet(s: &str, from: usize, to: usize) -> (r: Option<u8>)
    requires
        from <= to <= s@.len(),
    ensures
        match r {
            Some(v) => octet_text(s@.subrange(from as int, to as int)) && v == octet_val(
                s@.subrange(from as int, to as int),
            ),
            None => !octet_text(s@.subrange(from as int, to as int)),
        },
{
    let ghost piece = s@.subrange(from as int, to as int);
    let n = to - from;
    if n < 1 || n > 3 {
        return None;
    }
    if n > 1 && s.get_char(from) == '0' {
        proof {
            assert(piece[0] == '0');
        }
        return None;
    }
    let mut val: u16 = 0;
    let mut i: usize = from;
    proof {
        assert(s@.subrange(from as int, from as int) =~= Seq::<char>::empty());
    }
    while i < to
        invariant
            from <= i <= to <= s@.len(),
            to - from <= 3,
            all_digits(s@.subrange(from as int, i as int)),
            val == octet_val(s@.subrange(from as int, i as int)),
            val <= (if i - from == 0 {
                0int
            } else if i - from == 1 {
                9int
            } else if i - from == 2 {
                99int
            } else {
                999int
            }),
        decreases to - i,
    {
        let c = s.get_char(i);
        let d = match digit_of(c) {
            Some(d) => d,
            None => {
                proof {
                    assert(s@.subrange(from as int, to as int)[i - from] == c);
                }
                return None;
            },
        };
        proof {
            let pre = s@.subrange(from as int, i as int);
            let post = s@.subrange(from as int, i as int + 1);
            assert(post.drop_last() =~= pre);
            assert(post.last() == s@[i as int]);
        }
        val = val * 10 + d as u16;
        i += 1;
    }
    proof {
        assert(s@.subrange(from as int, i as int) =~= piece);
    }
    if val > 255 {
        return None;
    }
    proof {
        assert(piece[0] == s@[from as int]);
    }
    Some(val as u8)
}

/// Parse dotted-decimal IPv4 text into the packed `u32` form: the value
/// is returned exactly when the text is four octets joined by dots, with
/// no leading zeros and each octet at most 255.
#[verifier::rlimit(80)]
#[verifier::spinoff_prover]
pub fn parse_ipv4(s: &str) -> (r: Option<u32>)
    ensures
        match r {
            Some(v) => parses_to(s@, v),
            None => !ipv4_text(s@),
        },
{
    let n = s.unicode_len();
    let dot0 = match find_dot(s, 0) {
        Some(i) => i,
        None => {
            proof {
                if ipv4_text(s@) {
                    let (o0, o1, o2, o3) = choose|
                        o0: Seq<char>,
                        o1: Seq<char>,
                        o2: Seq<char>,
                        o3: Seq<char>,
                    |
                        s@ == #[trigger] dotted_quad(o0, o1, o2, o3) && octet_text(o0)
                            && octet_text(o1) && octet_text(o2) && octet_text(o3);
                    lemma_quad_structure(s@, o0, o1, o2, o3);
                }
            }
            return None;
        },
    };
    let dot1 = match find_dot(s, dot0 + 1) {
        Some(i) => i,
        None => {
            proof {
                if ipv4_text(s@) {
                    let (o0, o1, o2, o3) = choose|
                        o0: Seq<char>,
                        o1: Seq<char>,
                        o2: Seq<char>,
                        o3: Seq<char>,
                    |
                        s@ == #[trigger] dotted_quad(o0, o1, o2, o3) && octet_text(o0)
                            && octet_text(o1) && octet_text(o2) && octet_text(o3);
                    lemma_quad_structure(s@, o0, o1, o2, o3);
                }
            }
            return None;
        },
    };
    let dot2 = match find_dot(s, dot1 + 1) {
        Some(i) => i,
        None => {
            proof {
                if ipv4_text(s@) {
                    let (o0, o1, o2, o3) = choose|
                        o0: Seq<char>,
                        o1: Seq<char>,
                        o2: Seq<char>,
                        o3: Seq<char>,
                    |
                        s@ == #[trigger] dotted_quad(o0, o1, o2, o3) && octet_text(o0)
                            && octet_text(o1) && octet_text(o2) && octet_text(o3);
                    lemma_quad_structure(s@, o0, o1, o2, o3);
                }
            }
            return None;
        },
    };
    if find_dot(s, dot2 + 1).is_some() {
        proof {
            if ipv4_text(s@) {
                let (o0, o1, o2, o3) = choose|
                    o0: Seq<char>,
                    o1: Seq<char>,
                    o2: Seq<char>,
                    o3: Seq<char>,
                |
                    s@ == #[trigger] dotted_quad(o0, o1, o2, o3) && octet_text(o0) && octet_text(
                        o1,
                    ) && octet_text(o2) && octet_text(o3);
                lemma_quad_structure(s@, o0, o1, o2, o3);
            }
        }
        return None;
    }
    let a = parse_octet(s, 0, dot0);
    let b = parse_octet(s, dot0 + 1, dot1);
    let c = parse_octet(s, dot1 + 1, dot2);
    let d = parse_octet(s, dot2 + 1, n);
    match (a, b, c, d) {
        (Some(a), Some(b), Some(c), Some(d)) => {
            let v: u32 = (a as u32) + (b as u32) * 0x100 + (c as u32) * 0x1_0000 + (d as u32)
                * 0x100_0000;
            proof {
                let o0 = s@.subrange(0, dot0 as int);
                let o1 = s@.subrange(dot0 as int + 1, dot1 as int);
                let o2 = s@.subrange(dot1 as int + 1, dot2 as int);
                let o3 = s@.subrange(dot2 as int + 1, n as int);
                assert(s@ =~= dotted_quad(o0, o1, o2, o3));
                assert(parses_to(s@, v));
            }
            Some(v)
        },
        _ => {
            proof {
                if ipv4_text(s@) {
                    let (o0, o1, o2, o3) = choose|
                        o0: Seq<char>,
                        o1: Seq<char>,
                        o2: Seq<char>,
                        o3: Seq<char>,
                    |
                        s@ == #[trigger] dotted_quad(o0, o1, o2, o3) && octet_text(o0)
                            && octet_text(o1) && octet_text(o2) && octet_text(o3);
                    lemma_quad_structure(s@, o0, o1, o2, o3);
                    assert(o0 =~= s@.subrange(0, dot0 as int));
                    assert(o1 =~= s@.subrange(dot0 as int + 1, dot1 as int));
                    assert(o2 =~= s@.subrange(dot1 as int + 1, dot2 as int));
                    assert(o3 =~= s@.subrange(dot2 as int + 1, n as int));
                }
            }
            None
        },
    }
}


} // verus!
