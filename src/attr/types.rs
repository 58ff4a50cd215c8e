//! The registered attribute types, the closed set of their values, and the
//! byte form of each value.
use crate::header::Version;
use crate::uuid::{lemma_uuid_bytes, uuid_bytes, Uuid};
use crate::wire::{
    get_str, get_u128, get_u16, get_u32, get_u64, put_str, put_u128, put_u16, put_u32, put_u64,
    str_bytes, take,
};
use vstd::bytes::*;
use vstd::prelude::*;
use vstd::utf8::*;

verus! {

/// Whether a function is safe to call.
#[derive(Clone, Copy, Debug, PartialEq, Eq, Hash, Default, Structural)]
pub enum SafetyHint {
    #[default]
    NoHint,
    Safe,
    Unsafe,
}

/// Names the type that stands for an optional value of a struct.
#[derive(Clone, Copy, Debug, PartialEq, Eq, Hash, Default, Structural)]
pub struct OptionType {
    pub option: Uuid,
}

/// Marks a struct as a polymorphic option.
#[derive(Clone, Copy, Debug, PartialEq, Eq, Hash, Default, Structural)]
pub struct PolymorphicOption;

/// Documentation lines of an item.
#[derive(Clone, Debug, PartialEq, Eq, Hash, Default)]
pub struct ItemDoc {
    pub doc_lines: Vec<String>,
}

/// Describes the subsystem that a file defines.
#[derive(Clone, Copy, Debug, PartialEq, Eq, Hash, Default, Structural)]
pub struct SubsystemDescriptor {
    pub subsys_id: Uuid,
    pub subsys_index: Option<u32>,
    pub version: Version,
    pub max_sysfn: u16,
}

/// The number of a system function.
#[derive(Clone, Copy, Debug, PartialEq, Eq, Hash, Default, Structural)]
pub struct SystemFunction {
    pub function_id: u16,
}

/// Marks a use item whose contents are exported inline.
#[derive(Clone, Copy, Debug, PartialEq, Eq, Hash, Default, Structural)]
pub struct ExportInline;

/// Which builtin types a file defines.
#[derive(Clone, Copy, Debug, PartialEq, Eq, Hash, Default, Structural)]
#[non_exhaustive]
pub enum DefinesBuiltinTypes {
    #[default]
    NoneDefined,
    Handle,
}

/// A comment left by the tool that wrote a file.
#[derive(Clone, Debug, PartialEq, Eq, Hash, Default)]
pub struct ToolComment {
    pub comment: String,
}

/// The alignment of a struct or union.
#[derive(Clone, Copy, Debug, PartialEq, Eq, Hash, Default, Structural)]
pub struct Align {
    pub alignment: u128,
}

/// Marks an item that no source declared.
#[derive(Clone, Copy, Debug, PartialEq, Eq, Hash, Default, Structural)]
pub struct Synthetic;

/// The registered attribute types, one tag each.
#[derive(Clone, Copy, Debug, PartialEq, Eq, Hash, Structural)]
pub enum AttributeKind {
    SafetyHint,
    OptionType,
    PolymorphicOption,
    ItemDoc,
    SubsystemDescriptor,
    SystemFunction,
    ExportInline,
    DefinesBuiltinTypes,
    ToolComment,
    Align,
    Synthetic,
}

/// A value of one of the registered attribute types.
#[derive(Clone, Debug, PartialEq, Eq, Hash)]
pub enum AttributeValue {
    SafetyHint(SafetyHint),
    OptionType(OptionType),
    PolymorphicOption(PolymorphicOption),
    ItemDoc(ItemDoc),
    SubsystemDescriptor(SubsystemDescriptor),
    SystemFunction(SystemFunction),
    ExportInline(ExportInline),
    DefinesBuiltinTypes(DefinesBuiltinTypes),
    ToolComment(ToolComment),
    Align(Align),
    Synthetic(Synthetic),
}

/// The registered type of a value.
pub open spec fn value_kind(v: AttributeValue) -> AttributeKind {
    match v {
        AttributeValue::SafetyHint(_) => AttributeKind::SafetyHint,
        AttributeValue::OptionType(_) => AttributeKind::OptionType,
        AttributeValue::PolymorphicOption(_) => AttributeKind::PolymorphicOption,
        AttributeValue::ItemDoc(_) => AttributeKind::ItemDoc,
        AttributeValue::SubsystemDescriptor(_) => AttributeKind::SubsystemDescriptor,
        AttributeValue::SystemFunction(_) => AttributeKind::SystemFunction,
        AttributeValue::ExportInline(_) => AttributeKind::ExportInline,
        AttributeValue::DefinesBuiltinTypes(_) => AttributeKind::DefinesBuiltinTypes,
        AttributeValue::ToolComment(_) => AttributeKind::ToolComment,
        AttributeValue::Align(_) => AttributeKind::Align,
        AttributeValue::Synthetic(_) => AttributeKind::Synthetic,
    }
}

/// The characters of each string.
pub open spec fn lines_view(v: Seq<String>) -> Seq<Seq<char>> {
    v.map_values(|s: String| s@)
}

/// Whether two values are the same value: strings compare by their
/// characters.
pub open spec fn same_value(a: AttributeValue, b: AttributeValue) -> bool {
    match (a, b) {
        (AttributeValue::ItemDoc(x), AttributeValue::ItemDoc(y)) => lines_view(x.doc_lines@)
            == lines_view(y.doc_lines@),
        (AttributeValue::ToolComment(x), AttributeValue::ToolComment(y)) => x.comment@
            == y.comment@,
        _ => a == b,
    }
}

/// Strings one after another, each with its length in front.
pub open spec fn strs_bytes(s: Seq<Seq<char>>) -> Seq<u8>
    decreases s.len(),
{
    if s.len() == 0 {
        Seq::empty()
    } else {
        str_bytes(s[0]) + strs_bytes(s.drop_first())
    }
}

/// An optional `u32`: a zero byte, or a one byte and the value.
pub open spec fn opt_u32_bytes(o: Option<u32>) -> Seq<u8> {
    match o {
        None => seq![0u8],
        Some(x) => seq![1u8] + spec_u32_to_le_bytes(x),
    }
}

/// The index under which a safety hint variant is written.
pub open spec fn safety_index(h: SafetyHint) -> u32 {
    match h {
        SafetyHint::NoHint => 0,
        SafetyHint::Safe => 1,
        SafetyHint::Unsafe => 2,
    }
}

/// The index under which a builtin-types variant is written.
pub open spec fn builtin_index(d: DefinesBuiltinTypes) -> u32 {
    match d {
        DefinesBuiltinTypes::NoneDefined => 0,
        DefinesBuiltinTypes::Handle => 1,
    }
}

/// The byte form of a value, field after field: integers in fixed-width
/// little endian, enum variants as a `u32` index, an `Option` behind a tag
/// byte, strings and lists behind a `u64` length.
pub open spec fn value_bytes(v: AttributeValue) -> Seq<u8> {
    match v {
        AttributeValue::SafetyHint(h) => spec_u32_to_le_bytes(safety_index(h)),
        AttributeValue::OptionType(o) => uuid_bytes(o.option),
        AttributeValue::PolymorphicOption(_) => Seq::empty(),
        AttributeValue::ItemDoc(d) => spec_u64_to_le_bytes(d.doc_lines@.len() as u64) + strs_bytes(
            lines_view(d.doc_lines@),
        ),
        AttributeValue::SubsystemDescriptor(s) => uuid_bytes(s.subsys_id) + opt_u32_bytes(
            s.subsys_index,
        ) + spec_u16_to_le_bytes(s.version.0) + spec_u16_to_le_bytes(s.max_sysfn),
        AttributeValue::SystemFunction(f) => spec_u16_to_le_bytes(f.function_id),
        AttributeValue::ExportInline(_) => Seq::empty(),
        AttributeValue::DefinesBuiltinTypes(d) => spec_u32_to_le_bytes(builtin_index(d)),
        AttributeValue::ToolComment(c) => str_bytes(c.comment@),
        AttributeValue::Align(a) => spec_u128_to_le_bytes(a.alignment),
        AttributeValue::Synthetic(_) => Seq::empty(),
    }
}

/// Whether some value of kind `k` has the byte form `b`.
pub open spec fn is_value_bytes(k: AttributeKind, b: Seq<u8>) -> bool {
    exists|v: AttributeValue| value_kind(v) == k && #[trigger] value_bytes(v) == b
}

proof fn lemma_strs_push(s: Seq<Seq<char>>, x: Seq<char>)
    ensures
        strs_bytes(s.push(x)) == strs_bytes(s) + str_bytes(x),
    decreases s.len(),
{
    if s.len() == 0 {
        assert(s.push(x).drop_first() =~= Seq::<Seq<char>>::empty());
        assert(strs_bytes(Seq::<Seq<char>>::empty()) =~= Seq::<u8>::empty());
        assert(s.push(x)[0] == x);
        assert(strs_bytes(s.push(x)) =~= str_bytes(x));
    } else {
        assert(s.push(x).drop_first() =~= s.drop_first().push(x));
        lemma_strs_push(s.drop_first(), x);
        assert(strs_bytes(s.push(x)) =~= strs_bytes(s) + str_bytes(x));
    }
}

proof fn lemma_strs_split(s: Seq<Seq<char>>, i: int)
    requires
        0 <= i <= s.len(),
    ensures
        strs_bytes(s) == strs_bytes(s.take(i)) + strs_bytes(s.skip(i)),
    decreases i,
{
    if i == 0 {
        assert(s.take(0) =~= Seq::<Seq<char>>::empty());
        assert(s.skip(0) =~= s);
        assert(strs_bytes(s) =~= strs_bytes(s.take(i)) + strs_bytes(s.skip(i)));
    } else {
        lemma_strs_split(s, i - 1);
        assert(s.take(i) =~= s.take(i - 1).push(s[i - 1]));
        lemma_strs_push(s.take(i - 1), s[i - 1]);
        assert(s.skip(i - 1)[0] == s[i - 1]);
        assert(s.skip(i - 1).drop_first() =~= s.skip(i));
        assert(strs_bytes(s) =~= strs_bytes(s.take(i)) + strs_bytes(s.skip(i)));
    }
}

/// Adding a string adds its characters.
pub proof fn lemma_lines_push(v: Seq<String>, x: String)
    ensures
        lines_view(v.push(x)) == lines_view(v).push(x@),
{
    assert(lines_view(v.push(x)) =~= lines_view(v).push(x@));
}

/// Appends the byte form of a list of strings.
fn put_lines(out: &mut Vec<u8>, lines: &Vec<String>)
    ensures
        final(out)@ == old(out)@ + spec_u64_to_le_bytes(lines@.len() as u64) + strs_bytes(
            lines_view(lines@),
        ),
{
    put_u64(out, lines.len() as u64);
    let ghost start = out@;
    let mut i: usize = 0;
    while i < lines.len()
        invariant
            i <= lines@.len(),
            out@ == start + strs_bytes(lines_view(lines@.take(i as int))),
        decreases lines@.len() - i,
    {
        proof {
            assert(lines@.take(i + 1) =~= lines@.take(i as int).push(lines@[i as int]));
            lemma_lines_push(lines@.take(i as int), lines@[i as int]);
            lemma_strs_push(lines_view(lines@.take(i as int)), lines@[i as int]@);
        }
        put_str(out, &lines[i]);
        i = i + 1;
    }
    assert(lines@.take(i as int) =~= lines@);
}

/// Appends the byte form of a value.
pub fn encode_value(v: &AttributeValue, out: &mut Vec<u8>)
    ensures
        final(out)@ == old(out)@ + value_bytes(*v),
{
    let ghost start = out@;
    match v {
        AttributeValue::SafetyHint(h) => {
            let x: u32 = match h {
                SafetyHint::NoHint => 0,
                SafetyHint::Safe => 1,
                SafetyHint::Unsafe => 2,
            };
            put_u32(out, x);
        },
        AttributeValue::OptionType(o) => {
            o.option.encode(out);
        },
        AttributeValue::PolymorphicOption(_) => {
            assert(out@ =~= start + value_bytes(*v));
        },
        AttributeValue::ItemDoc(d) => {
            put_lines(out, &d.doc_lines);
        },
        AttributeValue::SubsystemDescriptor(s) => {
            s.subsys_id.encode(out);
            match s.subsys_index {
                Some(x) => {
                    out.push(1);
                    put_u32(out, x);
                },
                None => {
                    out.push(0);
                },
            }
            put_u16(out, s.version.0);
            put_u16(out, s.max_sysfn);
            assert(out@ =~= start + value_bytes(*v));
        },
        AttributeValue::SystemFunction(f) => {
            put_u16(out, f.function_id);
        },
        AttributeValue::ExportInline(_) => {
            assert(out@ =~= start + value_bytes(*v));
        },
        AttributeValue::DefinesBuiltinTypes(d) => {
            let x: u32 = match d {
                DefinesBuiltinTypes::NoneDefined => 0,
                DefinesBuiltinTypes::Handle => 1,
            };
            put_u32(out, x);
        },
        AttributeValue::ToolComment(c) => {
            put_str(out, &c.comment);
        },
        AttributeValue::Align(a) => {
            put_u128(out, a.alignment);
        },
        AttributeValue::Synthetic(_) => {
            assert(out@ =~= start + value_bytes(*v));
        },
    }
}

/// Reads a list of strings that fills `b` exactly.
fn get_lines(b: &[u8]) -> (r: Option<Vec<String>>)
    ensures
        r matches Some(l) ==> spec_u64_to_le_bytes(l@.len() as u64) + strs_bytes(lines_view(l@))
            == b@,
        (exists|l: Seq<Seq<char>>|
            #![trigger strs_bytes(l)]
            spec_u64_to_le_bytes(l.len() as u64) + strs_bytes(l) == b@ && l.len() <= usize::MAX)
            ==> r is Some,
{
    proof {
        lemma_auto_spec_u64_to_from_le_bytes();
    }
    let ghost has = exists|l: Seq<Seq<char>>|
        #![trigger strs_bytes(l)]
        spec_u64_to_le_bytes(l.len() as u64) + strs_bytes(l) == b@ && l.len() <= usize::MAX;
    let ghost t: Seq<Seq<char>> = if has {
        choose|l: Seq<Seq<char>>|
            #![trigger strs_bytes(l)]
            spec_u64_to_le_bytes(l.len() as u64) + strs_bytes(l) == b@ && l.len() <= usize::MAX
    } else {
        Seq::empty()
    };
    let n = match get_u64(b, 0) {
        Some(n) => n,
        None => {
            return None;
        },
    };
    proof {
        if has {
            assert(b@.subrange(0, 8) =~= spec_u64_to_le_bytes(t.len() as u64));
            assert(b@.subrange(8, b@.len() as int) =~= strs_bytes(t));
        }
    }
    let mut lines: Vec<String> = Vec::new();
    let mut pos: usize = 8;
    let mut i: u64 = 0;
    while i < n
        invariant
            8 <= pos <= b@.len(),
            b@.len() <= usize::MAX,
            lines@.len() == i,
            i <= n,
            spec_u64_to_le_bytes(n) == b@.subrange(0, 8),
            b@.subrange(8, pos as int) == strs_bytes(lines_view(lines@)),
            has ==> n == t.len() && t.len() <= usize::MAX && b@.subrange(8, b@.len() as int)
                == strs_bytes(t),
            has ==> lines_view(lines@) == t.take(i as int),
            has == exists|l: Seq<Seq<char>>|
                #![trigger strs_bytes(l)]
                spec_u64_to_le_bytes(l.len() as u64) + strs_bytes(l) == b@ && l.len() <= usize::MAX,
        decreases n - i,
    {
        assert(has ==> pos + str_bytes(t[i as int]).len() <= b@.len() && str_bytes(t[i as int])
            == b@.subrange(pos as int, pos + str_bytes(t[i as int]).len())) by {
            if has {
                lemma_strs_split(t, i as int);
                assert(t.skip(i as int)[0] == t[i as int]);
                assert(t.skip(i as int).drop_first() =~= t.skip(i + 1));
                let rest = b@.subrange(pos as int, b@.len() as int);
                assert(b@.subrange(8, b@.len() as int) =~= b@.subrange(8, pos as int) + rest);
                let a = strs_bytes(t.take(i as int));
                let c = strs_bytes(t.skip(i as int));
                assert(c == str_bytes(t[i as int]) + strs_bytes(t.skip(i + 1)));
                assert(b@.subrange(8, pos as int).len() == a.len());
                assert(rest =~= (a + c).subrange(a.len() as int, (a + c).len() as int));
                assert((a + c).subrange(a.len() as int, (a + c).len() as int) =~= c);
                assert(pos + str_bytes(t[i as int]).len() <= b@.len());
                assert(b@.subrange(pos as int, pos + str_bytes(t[i as int]).len()) =~= rest.subrange(
                    0,
                    str_bytes(t[i as int]).len() as int,
                ));
            }
        }
        let (s, p) = match get_str(b, pos) {
            Some(x) => x,
            None => {
                assert(!has) by {
                    if has {
                        assert(str_bytes(t[i as int]) == b@.subrange(
                            pos as int,
                            pos + str_bytes(t[i as int]).len(),
                        ));
                    }
                }
                return None;
            },
        };
        proof {
            lemma_lines_push(lines@, s);
            lemma_strs_push(lines_view(lines@), s@);
            assert(b@.subrange(8, p as int) =~= b@.subrange(8, pos as int) + b@.subrange(
                pos as int,
                p as int,
            ));
            if has {
                assert(pos + str_bytes(t[i as int]).len() <= b@.len());
                assert(str_bytes(t[i as int]) == b@.subrange(
                    pos as int,
                    pos + str_bytes(t[i as int]).len(),
                ));
                assert(s@ == t[i as int]);
                assert(t.take(i + 1) =~= t.take(i as int).push(t[i as int]));
            }
        }
        lines.push(s);
        pos = p;
        i = i + 1;
    }
    if pos != b.len() {
        proof {
            if has {
                assert(t.take(i as int) =~= t);
                assert(b@.subrange(8, pos as int).len() == b@.subrange(8, b@.len() as int).len());
            }
        }
        return None;
    }
    assert(b@ =~= b@.subrange(0, 8) + b@.subrange(8, pos as int));
    Some(lines)
}

proof fn lemma_strs_len(l: Seq<Seq<char>>)
    ensures
        strs_bytes(l).len() >= 8 * l.len(),
    decreases l.len(),
{
    if l.len() > 0 {
        lemma_auto_spec_u64_to_from_le_bytes();
        lemma_strs_len(l.drop_first());
    }
}

/// Reads a value of kind `k` that fills `b` exactly.
pub fn decode_value(k: AttributeKind, b: &[u8]) -> (r: Option<AttributeValue>)
    ensures
        r matches Some(v) ==> value_kind(v) == k && value_bytes(v) == b@,
        is_value_bytes(k, b@) ==> r is Some,
{
    proof {
        lemma_auto_spec_u16_to_from_le_bytes();
        lemma_auto_spec_u32_to_from_le_bytes();
        lemma_auto_spec_u128_to_from_le_bytes();
    }
    let len = b.len();
    match k {
        AttributeKind::SafetyHint => {
            let x = match get_u32(b, 0) {
                Some(x) => x,
                None => {
                    return None;
                },
            };
            assert(is_value_bytes(k, b@) ==> len == 4 && x <= 2) by {
                if is_value_bytes(k, b@) {
                    let v = choose|v: AttributeValue|
                        value_kind(v) == k && #[trigger] value_bytes(v) == b@;
                    assert(b@.subrange(0, 4) =~= b@);
                }
            }
            if len != 4 {
                return None;
            }
            let h = if x == 0 {
                SafetyHint::NoHint
            } else if x == 1 {
                SafetyHint::Safe
            } else if x == 2 {
                SafetyHint::Unsafe
            } else {
                return None;
            };
            assert(b@.subrange(0, 4) =~= b@);
            Some(AttributeValue::SafetyHint(h))
        },
        AttributeKind::OptionType => {
            assert(is_value_bytes(k, b@) ==> len == 16) by {
                if is_value_bytes(k, b@) {
                    let v = choose|v: AttributeValue|
                        value_kind(v) == k && #[trigger] value_bytes(v) == b@;
                    lemma_uuid_bytes(v->OptionType_0.option, v->OptionType_0.option);
                }
            }
            if len != 16 {
                return None;
            }
            let (u, _) = Uuid::decode(b, 0).unwrap();
            assert(b@.subrange(0, 16) =~= b@);
            Some(AttributeValue::OptionType(OptionType { option: u }))
        },
        AttributeKind::PolymorphicOption => {
            if len != 0 {
                return None;
            }
            assert(b@ =~= Seq::<u8>::empty());
            Some(AttributeValue::PolymorphicOption(PolymorphicOption))
        },
        AttributeKind::ItemDoc => {
            assert(is_value_bytes(k, b@) ==> exists|l: Seq<Seq<char>>|
                #![trigger strs_bytes(l)]
                spec_u64_to_le_bytes(l.len() as u64) + strs_bytes(l) == b@ && l.len()
                    <= usize::MAX) by {
                if is_value_bytes(k, b@) {
                    let v = choose|v: AttributeValue|
                        value_kind(v) == k && #[trigger] value_bytes(v) == b@;
                    let l = lines_view(v->ItemDoc_0.doc_lines@);
                    lemma_strs_len(l);
                    assert(spec_u64_to_le_bytes(l.len() as u64) + strs_bytes(l) == b@);
                }
            }
            match get_lines(b) {
                Some(lines) => Some(AttributeValue::ItemDoc(ItemDoc { doc_lines: lines })),
                None => None,
            }
        },
        AttributeKind::SubsystemDescriptor => {
            let (subsys_id, _) = match Uuid::decode(b, 0) {
                Some(x) => x,
                None => {
                    assert(!is_value_bytes(k, b@)) by {
                        if is_value_bytes(k, b@) {
                            let v = choose|v: AttributeValue|
                                value_kind(v) == k && #[trigger] value_bytes(v) == b@;
                            lemma_uuid_bytes(v->SubsystemDescriptor_0.subsys_id, v->SubsystemDescriptor_0.subsys_id);
                        }
                    }
                    return None;
                },
            };
            let tag = match take(b, 16, 1) {
                Some(t) => t[0],
                None => {
                    assert(!is_value_bytes(k, b@)) by {
                        if is_value_bytes(k, b@) {
                            let v = choose|v: AttributeValue|
                                value_kind(v) == k && #[trigger] value_bytes(v) == b@;
                            let w = v->SubsystemDescriptor_0;
                            lemma_uuid_bytes(w.subsys_id, w.subsys_id);
                        }
                    }
                    return None;
                },
            };
            assert(is_value_bytes(k, b@) ==> (tag == 0 && len == 21) || (tag == 1 && len == 25)) by {
                if is_value_bytes(k, b@) {
                    let v = choose|v: AttributeValue|
                        value_kind(v) == k && #[trigger] value_bytes(v) == b@;
                    let w = v->SubsystemDescriptor_0;
                    lemma_uuid_bytes(w.subsys_id, subsys_id);
                    assert(b@[16] == opt_u32_bytes(w.subsys_index)[0]);
                }
            }
            let (subsys_index, p) = if tag == 0 {
                if len != 21 {
                    return None;
                }
                (None, 17usize)
            } else if tag == 1 {
                if len != 25 {
                    return None;
                }
                (Some(get_u32(b, 17).unwrap()), 21usize)
            } else {
                return None;
            };
            let version = get_u16(b, p).unwrap();
            let max_sysfn = get_u16(b, p + 2).unwrap();
            let d = SubsystemDescriptor {
                subsys_id,
                subsys_index,
                version: Version(version),
                max_sysfn,
            };
            assert(b@.subrange(16, p as int) =~= opt_u32_bytes(subsys_index));
            assert(b@ =~= b@.subrange(0, 16) + b@.subrange(16, p as int) + b@.subrange(
                p as int,
                p + 2,
            ) + b@.subrange(p + 2, p + 4));
            Some(AttributeValue::SubsystemDescriptor(d))
        },
        AttributeKind::SystemFunction => {
            assert(is_value_bytes(k, b@) ==> len == 2);
            if len != 2 {
                return None;
            }
            let x = get_u16(b, 0).unwrap();
            assert(b@.subrange(0, 2) =~= b@);
            Some(AttributeValue::SystemFunction(SystemFunction { function_id: x }))
        },
        AttributeKind::ExportInline => {
            if len != 0 {
                return None;
            }
            assert(b@ =~= Seq::<u8>::empty());
            Some(AttributeValue::ExportInline(ExportInline))
        },
        AttributeKind::DefinesBuiltinTypes => {
            let x = match get_u32(b, 0) {
                Some(x) => x,
                None => {
                    return None;
                },
            };
            assert(is_value_bytes(k, b@) ==> len == 4 && x <= 1) by {
                if is_value_bytes(k, b@) {
                    let v = choose|v: AttributeValue|
                        value_kind(v) == k && #[trigger] value_bytes(v) == b@;
                    assert(b@.subrange(0, 4) =~= b@);
                }
            }
            if len != 4 {
                return None;
            }
            let d = if x == 0 {
                DefinesBuiltinTypes::NoneDefined
            } else if x == 1 {
                DefinesBuiltinTypes::Handle
            } else {
                return None;
            };
            assert(b@.subrange(0, 4) =~= b@);
            Some(AttributeValue::DefinesBuiltinTypes(d))
        },
        AttributeKind::ToolComment => {
            let ghost want = is_value_bytes(k, b@);
            proof {
                if want {
                    let v = choose|v: AttributeValue|
                        value_kind(v) == k && #[trigger] value_bytes(v) == b@;
                    assert(str_bytes(v->ToolComment_0.comment@) == b@.subrange(
                        0,
                        str_bytes(v->ToolComment_0.comment@).len() as int,
                    ));
                }
            }
            match get_str(b, 0) {
                Some((c, p)) => {
                    if p != len {
                        return None;
                    }
                    assert(b@.subrange(0, p as int) =~= b@);
                    Some(AttributeValue::ToolComment(ToolComment { comment: c }))
                },
                None => None,
            }
        },
        AttributeKind::Align => {
            assert(is_value_bytes(k, b@) ==> len == 16);
            if len != 16 {
                return None;
            }
            let x = get_u128(b, 0).unwrap();
            assert(b@.subrange(0, 16) =~= b@);
            Some(AttributeValue::Align(Align { alignment: x }))
        },
        AttributeKind::Synthetic => {
            if len != 0 {
                return None;
            }
            assert(b@ =~= Seq::<u8>::empty());
            Some(AttributeValue::Synthetic(Synthetic))
        },
    }
}

proof fn lemma_str_prefix(x: Seq<char>, y: Seq<char>, a: Seq<u8>, c: Seq<u8>)
    requires
        str_bytes(x) + a == str_bytes(y) + c,
        (str_bytes(x) + a).len() <= u64::MAX,
    ensures
        x == y,
        a == c,
{
    broadcast use encode_utf8_decode_utf8;

    lemma_auto_spec_u64_to_from_le_bytes();
    let s = str_bytes(x) + a;
    let t = str_bytes(y) + c;
    let ex = encode_utf8(x);
    let ey = encode_utf8(y);
    assert(spec_u64_to_le_bytes(ex.len() as u64).len() == 8);
    assert(spec_u64_to_le_bytes(ey.len() as u64).len() == 8);
    assert(s.subrange(0, 8) =~= spec_u64_to_le_bytes(ex.len() as u64));
    assert(t.subrange(0, 8) =~= spec_u64_to_le_bytes(ey.len() as u64));
    assert(ex.len() == ey.len());
    assert(ex =~= s.subrange(8, 8 + ex.len() as int));
    assert(ey =~= t.subrange(8, 8 + ey.len() as int));
    assert(a =~= s.subrange(8 + ex.len() as int, s.len() as int));
    assert(c =~= t.subrange(8 + ey.len() as int, t.len() as int));
    assert(ex == ey);
    assert(decode_utf8(ex) == x);
    assert(decode_utf8(ey) == y);
}

proof fn lemma_strs_injective(l1: Seq<Seq<char>>, l2: Seq<Seq<char>>)
    requires
        strs_bytes(l1) == strs_bytes(l2),
        strs_bytes(l1).len() <= u64::MAX,
    ensures
        l1 == l2,
    decreases l1.len(),
{
    lemma_strs_len(l1);
    lemma_strs_len(l2);
    if l1.len() == 0 {
        assert(l1 =~= l2);
    } else {
        lemma_str_prefix(l1[0], l2[0], strs_bytes(l1.drop_first()), strs_bytes(l2.drop_first()));
        lemma_strs_injective(l1.drop_first(), l2.drop_first());
        assert forall|i: int| 0 <= i < l1.len() implies l1[i] == l2[i] by {
            if i > 0 {
                assert(l1[i] == l1.drop_first()[i - 1]);
                assert(l2[i] == l2.drop_first()[i - 1]);
            }
        }
        assert(l1 =~= l2);
    }
}

/// Two values of one kind with the same byte form are the same value.
pub proof fn lemma_value_bytes_injective(v: AttributeValue, w: AttributeValue)
    requires
        value_kind(v) == value_kind(w),
        value_bytes(v) == value_bytes(w),
        value_bytes(v).len() <= u64::MAX,
    ensures
        same_value(v, w),
{
    lemma_auto_spec_u16_to_from_le_bytes();
    lemma_auto_spec_u32_to_from_le_bytes();
    lemma_auto_spec_u64_to_from_le_bytes();
    lemma_auto_spec_u128_to_from_le_bytes();
    let b = value_bytes(v);
    match (v, w) {
        (AttributeValue::SafetyHint(x), AttributeValue::SafetyHint(y)) => {
            assert(spec_u32_to_le_bytes(safety_index(x)).len() == 4);
            assert(spec_u32_to_le_bytes(safety_index(y)).len() == 4);
        },
        (AttributeValue::OptionType(x), AttributeValue::OptionType(y)) => {
            lemma_uuid_bytes(x.option, y.option);
        },
        (AttributeValue::ItemDoc(x), AttributeValue::ItemDoc(y)) => {
            let lx = lines_view(x.doc_lines@);
            let ly = lines_view(y.doc_lines@);
            assert(spec_u64_to_le_bytes(x.doc_lines@.len() as u64).len() == 8);
            assert(spec_u64_to_le_bytes(y.doc_lines@.len() as u64).len() == 8);
            assert(strs_bytes(lx) =~= b.subrange(8, b.len() as int));
            assert(strs_bytes(ly) =~= b.subrange(8, b.len() as int));
            lemma_strs_injective(lx, ly);
        },
        (AttributeValue::SubsystemDescriptor(x), AttributeValue::SubsystemDescriptor(y)) => {
            lemma_uuid_bytes(x.subsys_id, y.subsys_id);
            assert(uuid_bytes(x.subsys_id) =~= b.subrange(0, 16));
            assert(uuid_bytes(y.subsys_id) =~= b.subrange(0, 16));
            assert(b[16] == opt_u32_bytes(x.subsys_index)[0]);
            assert(b[16] == opt_u32_bytes(y.subsys_index)[0]);
            let o = opt_u32_bytes(x.subsys_index).len() as int;
            assert(opt_u32_bytes(y.subsys_index).len() == o);
            assert(opt_u32_bytes(x.subsys_index) =~= b.subrange(16, 16 + o));
            assert(opt_u32_bytes(y.subsys_index) =~= b.subrange(16, 16 + o));
            if let Some(i) = x.subsys_index {
                let j = y.subsys_index->0;
                assert(spec_u32_to_le_bytes(i) =~= opt_u32_bytes(x.subsys_index).subrange(1, 5));
                assert(spec_u32_to_le_bytes(j) =~= opt_u32_bytes(y.subsys_index).subrange(1, 5));
            }
            assert(spec_u16_to_le_bytes(x.version.0) =~= b.subrange(16 + o, 18 + o));
            assert(spec_u16_to_le_bytes(y.version.0) =~= b.subrange(16 + o, 18 + o));
            assert(spec_u16_to_le_bytes(x.max_sysfn) =~= b.subrange(18 + o, 20 + o));
            assert(spec_u16_to_le_bytes(y.max_sysfn) =~= b.subrange(18 + o, 20 + o));
        },
        (AttributeValue::SystemFunction(x), AttributeValue::SystemFunction(y)) => {
            assert(spec_u16_to_le_bytes(x.function_id).len() == 2);
            assert(spec_u16_to_le_bytes(y.function_id).len() == 2);
        },
        (AttributeValue::DefinesBuiltinTypes(x), AttributeValue::DefinesBuiltinTypes(y)) => {
            assert(spec_u32_to_le_bytes(builtin_index(x)).len() == 4);
            assert(spec_u32_to_le_bytes(builtin_index(y)).len() == 4);
        },
        (AttributeValue::ToolComment(x), AttributeValue::ToolComment(y)) => {
            assert(str_bytes(x.comment@) + Seq::<u8>::empty() =~= str_bytes(x.comment@));
            assert(str_bytes(y.comment@) + Seq::<u8>::empty() =~= str_bytes(y.comment@));
            lemma_str_prefix(x.comment@, y.comment@, Seq::empty(), Seq::empty());
        },
        (AttributeValue::Align(x), AttributeValue::Align(y)) => {
            assert(spec_u128_to_le_bytes(x.alignment).len() == 16);
            assert(spec_u128_to_le_bytes(y.alignment).len() == 16);
        },
        _ => {},
    }
}

} // verus!
