//! The envelope at the start of every file: a magic number and a packed
//! format version.
use crate::error::DecodeError;
use crate::wire::{get_u16, put_u16, take};
use vstd::bytes::*;
use vstd::prelude::*;

verus! {

/// The six bytes that open every file: `0xFE` followed by `IMTDB`.
pub open spec fn magic_bytes() -> Seq<u8> {
    seq![0xFEu8, 0x49u8, 0x4Du8, 0x54u8, 0x44u8, 0x42u8]
}

/// The magic number; it carries no data of its own.
#[derive(Clone, Copy, Debug, PartialEq, Eq, Hash, Structural)]
pub struct MagicNumber;

impl MagicNumber {
    /// Appends the magic bytes.
    pub fn encode(&self, out: &mut Vec<u8>)
        ensures
            final(out)@ == old(out)@ + magic_bytes(),
    {
        out.push(0xFE);
        out.push(0x49);
        out.push(0x4D);
        out.push(0x54);
        out.push(0x44);
        out.push(0x42);
        assert(final(out)@ =~= old(out)@ + magic_bytes());
    }

    /// Checks the magic bytes at `pos` and returns the position after them.
    pub fn decode(b: &[u8], pos: usize) -> (r: Result<(MagicNumber, usize), DecodeError>)
        ensures
            pos + 6 > b@.len() ==> r == Err::<(MagicNumber, usize), _>(DecodeError::UnexpectedEnd),
            pos + 6 <= b@.len() && b@.subrange(pos as int, pos + 6) != magic_bytes() ==> r == Err::<
                (MagicNumber, usize),
                _,
            >(DecodeError::InvalidMagic),
            pos + 6 <= b@.len() && b@.subrange(pos as int, pos + 6) == magic_bytes() ==> r == Ok::<
                _,
                DecodeError,
            >((MagicNumber, (pos + 6) as usize)),
    {
        let s = match take(b, pos, 6) {
            Some(s) => s,
            None => {
                return Err(DecodeError::UnexpectedEnd);
            },
        };
        if s[0] == 0xFE && s[1] == 0x49 && s[2] == 0x4D && s[3] == 0x54 && s[4] == 0x44 && s[5]
            == 0x42 {
            assert(s@ =~= magic_bytes());
            Ok((MagicNumber, pos + 6))
        } else {
            assert(s@ != magic_bytes()) by {
                if s@ == magic_bytes() {
                    assert(s@[0] == 0xFE && s@[1] == 0x49 && s@[2] == 0x4D);
                    assert(s@[3] == 0x54 && s@[4] == 0x44 && s@[5] == 0x42);
                }
            }
            Err(DecodeError::InvalidMagic)
        }
    }
}

/// A format version: `major` in the bits above a nine-bit `minor`.
#[derive(Clone, Copy, Debug, PartialEq, Eq, Hash, PartialOrd, Ord, Default, Structural)]
pub struct Version(pub u16);

/// The major component of a packed version.
pub open spec fn major_of(v: Version) -> int {
    v.0 as int / 512
}

/// The minor component of a packed version.
pub open spec fn minor_of(v: Version) -> int {
    v.0 as int % 512
}

/// Whether data of version `data` can be read by a reader that requires
/// `required`: the majors agree, and the data's minor is the same or newer;
/// before major 1 the minors must agree exactly.
pub open spec fn compatible(required: Version, data: Version) -> bool {
    &&& major_of(required) == major_of(data)
    &&& if major_of(required) != 0 {
        minor_of(required) <= minor_of(data)
    } else {
        minor_of(required) == minor_of(data)
    }
}

/// The value of a run of decimal digits.
pub open spec fn decimal_value(s: Seq<char>) -> nat
    decreases s.len(),
{
    if s.len() == 0 {
        0
    } else {
        decimal_value(s.drop_last()) * 10 + (s.last() as nat - '0' as nat) as nat
    }
}

/// Whether every character of `s` is an ASCII decimal digit.
pub open spec fn all_digits(s: Seq<char>) -> bool {
    forall|i: int| 0 <= i < s.len() ==> '0' <= #[trigger] s[i] <= '9'
}

/// Whether `s` reads `<major>.<minor>` with the given components: two
/// non-empty runs of digits around one dot.
pub open spec fn version_text(s: Seq<char>, major: nat, minor: nat) -> bool {
    exists|d: int|
        0 < d < s.len() - 1 && #[trigger] s[d] == '.' && all_digits(s.subrange(0, d))
            && all_digits(s.subrange(d + 1, s.len() as int)) && decimal_value(s.subrange(0, d))
            == major && decimal_value(s.subrange(d + 1, s.len() as int)) == minor
}

proof fn lemma_decimal_prefix(s: Seq<char>, i: int)
    requires
        0 <= i <= s.len(),
        all_digits(s),
    ensures
        decimal_value(s.subrange(0, i)) <= decimal_value(s),
    decreases s.len(),
{
    if i < s.len() {
        assert(s.drop_last().subrange(0, i) =~= s.subrange(0, i));
        lemma_decimal_prefix(s.drop_last(), i);
    } else {
        assert(s.subrange(0, i) =~= s);
    }
}

proof fn lemma_decimal_step(s: Seq<char>, i: int)
    requires
        0 <= i < s.len(),
    ensures
        decimal_value(s.subrange(0, i + 1)) == decimal_value(s.subrange(0, i)) * 10 + (s[i] as nat
            - '0' as nat) as nat,
{
    assert(s.subrange(0, i + 1).drop_last() =~= s.subrange(0, i));
}

impl Version {
    /// Packs `major` above a nine-bit `minor`.
    pub fn new(major: u16, minor: u16) -> (r: Version)
        requires
            major < 128,
            minor < 512,
        ensures
            r.0 == major * 512 + minor,
            major_of(r) == major,
            minor_of(r) == minor,
    {
        let v = (major << 9u16) | minor;
        assert(v == major * 512 + minor) by (bit_vector)
            requires
                major < 128,
                minor < 512,
                v == (major << 9u16) | minor,
        ;
        Version(v)
    }

    /// Reads a version written `<major>.<minor>`.
    pub fn parse(v: &str) -> (r: Version)
        requires
            exists|ma: nat, mi: nat| ma < 128 && mi < 512 && #[trigger] version_text(v@, ma, mi),
        ensures
            version_text(v@, major_of(r) as nat, minor_of(r) as nat),
    {
        let ghost s = v@;
        let ghost ma = choose|ma: nat, mi: nat| ma < 128 && mi < 512 && #[trigger] version_text(s, ma, mi);
        let ghost d = choose|d: int|
            0 < d < s.len() - 1 && #[trigger] s[d] == '.' && all_digits(s.subrange(0, d))
                && all_digits(s.subrange(d + 1, s.len() as int)) && decimal_value(s.subrange(0, d))
                == ma.0 && decimal_value(s.subrange(d + 1, s.len() as int)) == ma.1;
        let len = v.unicode_len();
        let mut major: u16 = 0;
        let mut n: usize = 0;
        while v.get_char(n) != '.'
            invariant
                len == s.len(),
                0 <= n <= d,
                0 < d < s.len() - 1,
                major as nat == decimal_value(s.subrange(0, n as int)),
                all_digits(s.subrange(0, d)),
                decimal_value(s.subrange(0, d)) == ma.0,
                ma.0 < 128,
                s[d] == '.',
                v@ == s,
            decreases d - n,
        {
            assert(n < d) by {
                if n == d {
                    assert(v@[n as int] == '.');
                }
            }
            assert(s.subrange(0, d)[n as int] == s[n as int]);
            proof {
                lemma_decimal_step(s, n as int);
                assert(s.subrange(0, d).subrange(0, n + 1) =~= s.subrange(0, n + 1));
                lemma_decimal_prefix(s.subrange(0, d), n + 1);
            }
            let c = v.get_char(n);
            major = major * 10 + (c as u16 - '0' as u16);
            n = n + 1;
        }
        assert(n == d) by {
            if n < d {
                assert(s.subrange(0, d)[n as int] == s[n as int]);
            }
        }
        let ghost t = s.subrange(d + 1, s.len() as int);
        assert(t.subrange(0, 0) =~= Seq::<char>::empty());
        n = n + 1;
        let mut minor: u16 = 0;
        while n < len
            invariant
                len == s.len(),
                d + 1 <= n <= len,
                0 < d < s.len() - 1,
                minor as nat == decimal_value(t.subrange(0, n - d - 1)),
                all_digits(t),
                decimal_value(t) == ma.1,
                ma.1 < 512,
                t == s.subrange(d + 1, s.len() as int),
                v@ == s,
            decreases len - n,
        {
            assert(t[n - d - 1] == s[n as int]);
            proof {
                lemma_decimal_step(t, n - d - 1);
                lemma_decimal_prefix(t, n - d);
            }
            let c = v.get_char(n);
            minor = minor * 10 + (c as u16 - '0' as u16);
            n = n + 1;
        }
        assert(t.subrange(0, t.len() as int) =~= t);
        Version::new(major, minor)
    }

    /// The major component.
    pub fn major(self) -> (r: u16)
        ensures
            r == major_of(self),
    {
        let x = self.0;
        assert(x >> 9u16 == x / 512) by (bit_vector);
        x >> 9u16
    }

    /// The minor component.
    pub fn minor(self) -> (r: u16)
        ensures
            r == minor_of(self),
    {
        let x = self.0;
        assert(x & 511u16 == x % 512) by (bit_vector);
        x & 511u16
    }

    /// Whether data of version `other` can be read by a reader that requires
    /// `self`.
    pub fn is_compatible(self, other: Version) -> (r: bool)
        ensures
            r == compatible(self, other),
    {
        self.major() == other.major() && self.minor() <= other.minor() && (self.major() != 0
            || self.minor() == other.minor())
    }

    /// Appends the packed version as two little-endian bytes.
    pub fn encode(&self, out: &mut Vec<u8>)
        ensures
            final(out)@ == old(out)@ + spec_u16_to_le_bytes(self.0),
    {
        put_u16(out, self.0);
    }

    /// Reads a packed version at `pos`.
    pub fn decode(b: &[u8], pos: usize) -> (r: Option<(Version, usize)>)
        ensures
            r is Some <==> pos + 2 <= b@.len(),
            r matches Some((v, p)) ==> p == pos + 2 && spec_u16_to_le_bytes(v.0) == b@.subrange(
                pos as int,
                pos + 2,
            ),
    {
        match get_u16(b, pos) {
            Some(x) => Some((Version(x), pos + 2)),
            None => None,
        }
    }
}

/// The wire form of a header: the magic bytes, then the packed version.
pub open spec fn header_bytes(h: Header) -> Seq<u8> {
    magic_bytes() + spec_u16_to_le_bytes(h.version.0)
}

/// The first bytes of every file.
#[derive(Clone, Copy, Debug, PartialEq, Eq, Hash, Structural)]
pub struct Header {
    pub magic: MagicNumber,
    pub version: Version,
}

impl Header {
    /// A header that claims `version`.
    pub fn new(version: Version) -> (r: Header)
        ensures
            r.version == version,
    {
        Header { magic: MagicNumber, version }
    }

    /// Appends the wire form of the header.
    pub fn encode(&self, out: &mut Vec<u8>)
        ensures
            final(out)@ == old(out)@ + header_bytes(*self),
    {
        self.magic.encode(out);
        self.version.encode(out);
        assert(final(out)@ =~= old(out)@ + header_bytes(*self));
    }

    /// Reads a header at `pos`; the magic bytes are checked before anything
    /// else is read.
    pub fn decode(b: &[u8], pos: usize) -> (r: Result<(Header, usize), DecodeError>)
        ensures
            pos + 6 > b@.len() ==> r == Err::<(Header, usize), _>(DecodeError::UnexpectedEnd),
            pos + 6 <= b@.len() && b@.subrange(pos as int, pos + 6) != magic_bytes() ==> r == Err::<
                (Header, usize),
                _,
            >(DecodeError::InvalidMagic),
            pos + 6 <= b@.len() && b@.subrange(pos as int, pos + 6) == magic_bytes() && pos + 8
                > b@.len() ==> r == Err::<(Header, usize), _>(DecodeError::UnexpectedEnd),
            r is Ok <==> pos + 8 <= b@.len() && b@.subrange(pos as int, pos + 6) == magic_bytes(),
            r matches Ok((h, p)) ==> p == pos + 8 && header_bytes(h) == b@.subrange(
                pos as int,
                pos + 8,
            ),
    {
        let _len = b.len();
        let (magic, p) = match MagicNumber::decode(b, pos) {
            Ok(x) => x,
            Err(e) => {
                return Err(e);
            },
        };
        match Version::decode(b, p) {
            Some((version, q)) => {
                assert(b@.subrange(pos as int, pos + 8) =~= b@.subrange(pos as int, pos + 6)
                    + b@.subrange(pos + 6, pos + 8));
                Ok((Header { magic, version }, q))
            },
            None => Err(DecodeError::UnexpectedEnd),
        }
    }

    /// Reads a header at `pos` and requires that a reader of version
    /// `required` accepts the version it claims.
    pub fn decode_for(b: &[u8], pos: usize, required: Version) -> (r: Result<
        (Header, usize),
        DecodeError,
    >)
        ensures
            r is Ok <==> pos + 8 <= b@.len() && b@.subrange(pos as int, pos + 6) == magic_bytes()
                && compatible(required, Version(spec_u16_from_le_bytes(b@.subrange(pos + 6, pos + 8)))),
            r matches Ok((h, p)) ==> p == pos + 8 && header_bytes(h) == b@.subrange(
                pos as int,
                pos + 8,
            ),
            pos + 6 > b@.len() ==> r == Err::<(Header, usize), _>(DecodeError::UnexpectedEnd),
            pos + 6 <= b@.len() && b@.subrange(pos as int, pos + 6) != magic_bytes() ==> r == Err::<
                (Header, usize),
                _,
            >(DecodeError::InvalidMagic),
    {
        proof {
            lemma_auto_spec_u16_to_from_le_bytes();
        }
        match Header::decode(b, pos) {
            Ok((h, p)) => {
                assert(b@.subrange(pos + 6, pos + 8) =~= header_bytes(h).subrange(6, 8));
                assert(header_bytes(h).subrange(6, 8) =~= spec_u16_to_le_bytes(h.version.0));
                if required.is_compatible(h.version) {
                    Ok((h, p))
                } else {
                    Err(DecodeError::IncompatibleVersion { required: required.0, found: h.version.0 })
                }
            },
            Err(e) => Err(e),
        }
    }
}

} // verus!
