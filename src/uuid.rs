//! 128-bit identifiers.
use crate::wire::{get_u64, put_u64};
use vstd::bytes::*;
use vstd::prelude::*;

verus! {

/// A 128-bit identifier, held as its high (`major`) and low (`minor`) halves.
#[derive(Clone, Copy, Debug, PartialEq, Eq, Hash, Structural)]
pub struct Uuid {
    pub major: u64,
    pub minor: u64,
}

/// The wire form of an identifier: the low half, then the high half, each as
/// eight little-endian bytes.
pub open spec fn uuid_bytes(u: Uuid) -> Seq<u8> {
    spec_u64_to_le_bytes(u.minor) + spec_u64_to_le_bytes(u.major)
}

impl Default for Uuid {
    /// The nil identifier.
    fn default() -> (r: Uuid)
        ensures
            r.major == 0 && r.minor == 0,
    {
        Uuid { major: 0, minor: 0 }
    }
}

impl Uuid {
    /// Builds an identifier from its two halves.
    pub fn from_halves(major: u64, minor: u64) -> (r: Uuid)
        ensures
            r.major == major && r.minor == minor,
    {
        Uuid { major, minor }
    }

    /// Appends the wire form of the identifier.
    pub fn encode(&self, out: &mut Vec<u8>)
        ensures
            final(out)@ == old(out)@ + uuid_bytes(*self),
    {
        put_u64(out, self.minor);
        put_u64(out, self.major);
    }

    /// Reads an identifier at `pos`, with the position after it.
    pub fn decode(b: &[u8], pos: usize) -> (r: Option<(Uuid, usize)>)
        ensures
            r is Some <==> pos + 16 <= b@.len(),
            r matches Some((u, p)) ==> p == pos + 16 && uuid_bytes(u) == b@.subrange(
                pos as int,
                pos + 16,
            ),
    {
        let minor = match get_u64(b, pos) {
            Some(x) => x,
            None => {
                return None;
            },
        };
        let major = match get_u64(b, pos + 8) {
            Some(x) => x,
            None => {
                return None;
            },
        };
        let u = Uuid { major, minor };
        assert(b@.subrange(pos as int, pos + 16) =~= b@.subrange(pos as int, pos + 8)
            + b@.subrange(pos + 8, pos + 16));
        Some((u, pos + 16))
    }
}

/// Distinct identifiers have distinct wire forms, and each wire form is
/// sixteen bytes.
pub proof fn lemma_uuid_bytes(u: Uuid, v: Uuid)
    ensures
        uuid_bytes(u).len() == 16,
        uuid_bytes(u) == uuid_bytes(v) ==> u == v,
{
    lemma_auto_spec_u64_to_from_le_bytes();
    if uuid_bytes(u) == uuid_bytes(v) {
        assert(uuid_bytes(u).subrange(0, 8) =~= spec_u64_to_le_bytes(u.minor));
        assert(uuid_bytes(v).subrange(0, 8) =~= spec_u64_to_le_bytes(v.minor));
        assert(uuid_bytes(u).subrange(8, 16) =~= spec_u64_to_le_bytes(u.major));
        assert(uuid_bytes(v).subrange(8, 16) =~= spec_u64_to_le_bytes(v.major));
    }
}

/// The value of a hexadecimal digit.
pub open spec fn hex_digit_value(c: char) -> nat {
    if '0' <= c <= '9' {
        (c as nat - '0' as nat) as nat
    } else if 'a' <= c <= 'f' {
        (c as nat - 'a' as nat + 10) as nat
    } else {
        (c as nat - 'A' as nat + 10) as nat
    }
}

/// Whether `c` is a hexadecimal digit.
pub open spec fn is_hex_digit(c: char) -> bool {
    ('0' <= c <= '9') || ('a' <= c <= 'f') || ('A' <= c <= 'F')
}

/// Where the `i`-th of the 32 digits stands in the text form, past the
/// dashes before it.
pub open spec fn digit_pos(i: int) -> int {
    i + (if i >= 8 { 1int } else { 0 }) + (if i >= 12 { 1int } else { 0 }) + (if i >= 16 {
        1int
    } else {
        0
    }) + (if i >= 20 { 1int } else { 0 })
}

/// Whether `s` is the text form of an identifier: 36 characters, dashes at
/// 8, 13, 18 and 23, hexadecimal digits elsewhere.
pub open spec fn uuid_text(s: Seq<char>) -> bool {
    &&& s.len() == 36
    &&& s[8] == '-' && s[13] == '-' && s[18] == '-' && s[23] == '-'
    &&& forall|i: int| 0 <= i < 32 ==> is_hex_digit(#[trigger] s[digit_pos(i)])
}

/// The value of the digits `a` up to `n` of a text form, the first the
/// most significant.
pub open spec fn digits_value(s: Seq<char>, a: int, n: int) -> nat
    decreases n - a,
{
    if n <= a {
        0
    } else {
        digits_value(s, a, n - 1) * 16 + hex_digit_value(s[digit_pos(n - 1)])
    }
}

spec fn pow16(n: nat) -> nat
    decreases n,
{
    if n == 0 {
        1
    } else {
        16 * pow16((n - 1) as nat)
    }
}

proof fn lemma_digits_bound(s: Seq<char>, a: int, n: int)
    requires
        a <= n,
        forall|i: int| 0 <= i < 32 ==> is_hex_digit(#[trigger] s[digit_pos(i)]),
        0 <= a,
        n <= 32,
    ensures
        digits_value(s, a, n) < pow16((n - a) as nat),
    decreases n - a,
{
    if n > a {
        lemma_digits_bound(s, a, n - 1);
        let x = digits_value(s, a, n - 1);
        let p = pow16((n - 1 - a) as nat);
        let d = hex_digit_value(s[digit_pos(n - 1)]);
        assert(is_hex_digit(s[digit_pos(n - 1)]));
        assert(d < 16);
        assert(x * 16 + d < 16 * p) by (nonlinear_arith)
            requires
                x < p,
                d < 16,
        ;
    }
}

impl Uuid {
    /// Reads the text form `xxxxxxxx-xxxx-xxxx-xxxx-xxxxxxxxxxxx`: the first
    /// sixteen digits are the high half, the last sixteen the low half.
    pub fn parse(x: &str) -> (r: Uuid)
        requires
            uuid_text(x@),
        ensures
            r.major == digits_value(x@, 0, 16),
            r.minor == digits_value(x@, 16, 32),
    {
        let major = parse_half(x, 0);
        let minor = parse_half(x, 16);
        Uuid { major, minor }
    }
}

/// Reads sixteen digits of a text form, from digit `a` on.
fn parse_half(x: &str, a: usize) -> (r: u64)
    requires
        uuid_text(x@),
        a == 0 || a == 16,
    ensures
        r == digits_value(x@, a as int, a + 16),
{
    proof {
        reveal_with_fuel(pow16, 17);
    }
    assert(pow16(16) == 0x1_0000_0000_0000_0000);
    let mut acc: u64 = 0;
    let mut i: usize = a;
    while i < a + 16
        invariant
            uuid_text(x@),
            a == 0 || a == 16,
            a <= i <= a + 16,
            acc == digits_value(x@, a as int, i as int),
            pow16(16) == 0x1_0000_0000_0000_0000,
        decreases a + 16 - i,
    {
        proof {
            lemma_digits_bound(x@, a as int, i + 1);
            lemma_pow16_mono((i + 1 - a) as nat, 16);
        }
        let pos = i + (if i >= 8 { 1usize } else { 0 }) + (if i >= 12 { 1usize } else { 0 }) + (if i
            >= 16 {
            1usize
        } else {
            0
        }) + (if i >= 20 { 1usize } else { 0 });
        let c = x.get_char(pos);
        assert(is_hex_digit(x@[digit_pos(i as int)]));
        let d: u64 = if '0' <= c && c <= '9' {
            (c as u64) - ('0' as u64)
        } else if 'a' <= c && c <= 'f' {
            (c as u64) - ('a' as u64) + 10
        } else {
            (c as u64) - ('A' as u64) + 10
        };
        acc = acc * 16 + d;
        i = i + 1;
    }
    acc
}

proof fn lemma_pow16_mono(m: nat, n: nat)
    requires
        m <= n,
    ensures
        pow16(m) <= pow16(n),
    decreases n - m,
{
    if m < n {
        lemma_pow16_mono(m, (n - 1) as nat);
    }
}

} // verus!
