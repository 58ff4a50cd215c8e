use imt::attr::types::{
    decode_value, encode_value, Align, AttributeKind, AttributeValue, DefinesBuiltinTypes,
    ExportInline, ItemDoc, OptionType, PolymorphicOption, SafetyHint, SubsystemDescriptor,
    Synthetic, SystemFunction, ToolComment,
};
use imt::attr::{Attribute, AttributeFlags, AttributeTarget, Payload, Target};
use imt::error::DecodeError;
use imt::file::{File, UseItem};
use imt::header::Version;
use imt::tydef::{Field, Struct, Union};
use imt::uuid::Uuid;
use imt::value::Function;

fn round_trip<Targ: AttributeTarget, T: Target<Targ> + Clone + PartialEq + core::fmt::Debug>(x: T) {
    let a = Attribute::<Targ>::new(x.clone());
    let mut out = Vec::new();
    a.encode(&mut out).unwrap();
    let (back, end) = Attribute::<Targ>::decode(&out, 0).unwrap();
    assert_eq!(end, out.len());
    assert_eq!(back.id(), a.id());
    assert_eq!(back.flags(), a.flags());
    assert_eq!(back.downcast::<T>(), Some(&x));
    let mut again = Vec::new();
    back.encode(&mut again).unwrap();
    assert_eq!(again, out);
}

fn unknown_id() -> Uuid {
    Uuid::from_halves(0x0123_4567_89ab_cdef, 0xfedc_ba98_7654_3210)
}

fn raw_attribute(id: Uuid, flags: u32, body: &[u8]) -> Vec<u8> {
    let mut out = Vec::new();
    out.extend_from_slice(&id.minor.to_le_bytes());
    out.extend_from_slice(&id.major.to_le_bytes());
    out.extend_from_slice(&flags.to_le_bytes());
    out.extend_from_slice(&(body.len() as u32).to_le_bytes());
    out.extend_from_slice(body);
    out
}

#[test]
fn every_registered_type_round_trips() {
    round_trip::<Function, _>(SafetyHint::Unsafe);
    round_trip::<Struct, _>(OptionType { option: unknown_id() });
    round_trip::<Struct, _>(PolymorphicOption);
    round_trip::<Union, _>(ItemDoc { doc_lines: vec!["one".to_string(), String::new(), "drei ü".to_string()] });
    round_trip::<File, _>(SubsystemDescriptor {
        subsys_id: unknown_id(),
        subsys_index: Some(7),
        version: Version::new(1, 3),
        max_sysfn: 300,
    });
    round_trip::<File, _>(SubsystemDescriptor {
        subsys_id: Uuid::default(),
        subsys_index: None,
        version: Version::new(0, 1),
        max_sysfn: 0,
    });
    round_trip::<Function, _>(SystemFunction { function_id: 513 });
    round_trip::<UseItem, _>(ExportInline);
    round_trip::<File, _>(DefinesBuiltinTypes::Handle);
    round_trip::<File, _>(ToolComment { comment: "made by hand".to_string() });
    round_trip::<Union, _>(Align { alignment: 1u128 << 100 });
    round_trip::<Function, _>(Synthetic);
}

#[test]
fn attribute_wire_layout() {
    let a = Attribute::<Function>::new(SystemFunction { function_id: 0x0102 });
    let mut out = Vec::new();
    a.encode(&mut out).unwrap();
    let id = AttributeKind::SystemFunction.id();
    assert_eq!(out, raw_attribute(id, 0, &[0x02, 0x01]));
    assert_eq!(out.len(), 16 + 4 + 4 + 2);
}

#[test]
fn registry_id_of_safety_hint() {
    let id = AttributeKind::SafetyHint.id();
    assert_eq!(id.major, 0x8649000c_291a566c);
    assert_eq!(id.minor, 0xb1710da3_3515ea61);
    assert_eq!(AttributeKind::lookup(id), Some(AttributeKind::SafetyHint));
    assert_eq!(AttributeKind::lookup(unknown_id()), None);
}

#[test]
fn unknown_ignorable_attribute_round_trips_byte_for_byte() {
    let bytes = raw_attribute(unknown_id(), 1, &[1, 2, 3, 4, 5]);
    let (a, end) = Attribute::<Struct>::decode(&bytes, 0).unwrap();
    assert_eq!(end, bytes.len());
    match a.payload() {
        Payload::Unknown(raw) => assert_eq!(raw, &vec![1, 2, 3, 4, 5]),
        Payload::Real(_) => panic!("an unknown id must stay raw"),
    }
    let mut out = Vec::new();
    a.encode(&mut out).unwrap();
    assert_eq!(out, bytes);
}

#[test]
fn unknown_non_ignorable_attribute_is_rejected() {
    let bytes = raw_attribute(unknown_id(), 0, &[1, 2, 3]);
    assert_eq!(
        Attribute::<Struct>::decode(&bytes, 0).err(),
        Some(DecodeError::NotRecognized(unknown_id()))
    );
}

#[test]
fn illegal_flag_bits_are_rejected_regardless_of_id() {
    let id = AttributeKind::Synthetic.id();
    for bits in [2u32, 0x8000_0000, 0x0080_0001, 0xFFFF_FFFF] {
        let bytes = raw_attribute(id, bits, &[]);
        assert_eq!(
            Attribute::<Field>::decode(&bytes, 0).err(),
            Some(DecodeError::IllegalFlags(bits))
        );
        let bytes = raw_attribute(unknown_id(), bits, &[]);
        assert_eq!(
            Attribute::<Field>::decode(&bytes, 0).err(),
            Some(DecodeError::IllegalFlags(bits))
        );
    }
}

#[test]
fn attribute_on_wrong_target_is_treated_as_unknown() {
    let safety = Attribute::<Function>::new(SafetyHint::Safe);
    let mut out = Vec::new();
    safety.encode(&mut out).unwrap();
    let id = AttributeKind::SafetyHint.id();
    assert_eq!(
        Attribute::<Struct>::decode(&out, 0).err(),
        Some(DecodeError::NotRecognized(id))
    );
    let ignorable = safety.with_flags(AttributeFlags::ignore());
    let mut out = Vec::new();
    ignorable.encode(&mut out).unwrap();
    let (a, _) = Attribute::<Struct>::decode(&out, 0).unwrap();
    assert!(matches!(a.payload(), Payload::Unknown(_)));
    assert_eq!(a.downcast::<OptionType>(), None);
}

#[test]
fn known_attribute_with_trailing_bytes_is_bad_payload() {
    let id = AttributeKind::SystemFunction.id();
    let bytes = raw_attribute(id, 0, &[1, 0, 9]);
    assert_eq!(
        Attribute::<Function>::decode(&bytes, 0).err(),
        Some(DecodeError::BadPayload(id))
    );
}

#[test]
fn truncated_attribute_is_unexpected_end() {
    let bytes = raw_attribute(unknown_id(), 1, &[1, 2, 3]);
    assert_eq!(
        Attribute::<Struct>::decode(&bytes[..bytes.len() - 1], 0).err(),
        Some(DecodeError::UnexpectedEnd)
    );
    assert_eq!(
        Attribute::<Struct>::decode(&bytes[..10], 0).err(),
        Some(DecodeError::UnexpectedEnd)
    );
}

#[test]
fn downcast_to_another_type_is_absent() {
    let a = Attribute::<Function>::new(SafetyHint::Safe);
    assert_eq!(a.downcast::<SystemFunction>(), None);
    assert_eq!(a.downcast::<ItemDoc>(), None);
    assert_eq!(a.downcast::<SafetyHint>(), Some(&SafetyHint::Safe));
}

#[test]
fn flags_can_be_added_and_changed() {
    let mut a = Attribute::<Function>::new(Synthetic);
    assert_eq!(a.flags().bits(), 0);
    *a.flags_mut() = AttributeFlags::ignore();
    assert!(a.flags().is_ignorable());
    let b = a.with_flags(AttributeFlags::empty());
    assert_eq!(b.flags().bits(), 1);
}

#[test]
fn flags_from_bits_accepts_only_defined_bits() {
    assert_eq!(AttributeFlags::from_bits(0), Some(AttributeFlags::empty()));
    assert_eq!(AttributeFlags::from_bits(1), Some(AttributeFlags::ignore()));
    assert_eq!(AttributeFlags::from_bits(4), None);
    assert_eq!(AttributeFlags::from_bits(imt::attr::FLAG_TYPE_MASK), None);
    assert!(AttributeFlags::ignore().contains(AttributeFlags::ignore()));
    assert!(!AttributeFlags::empty().contains(AttributeFlags::ignore()));
}

#[test]
fn value_bytes_of_strings_and_lists() {
    let mut out = Vec::new();
    encode_value(&AttributeValue::ToolComment(ToolComment { comment: "ab".to_string() }), &mut out);
    assert_eq!(out, vec![2, 0, 0, 0, 0, 0, 0, 0, b'a', b'b']);
    let mut out = Vec::new();
    encode_value(
        &AttributeValue::ItemDoc(ItemDoc { doc_lines: vec!["x".to_string(), "yz".to_string()] }),
        &mut out,
    );
    assert_eq!(
        out,
        vec![2, 0, 0, 0, 0, 0, 0, 0, 1, 0, 0, 0, 0, 0, 0, 0, b'x', 2, 0, 0, 0, 0, 0, 0, 0, b'y', b'z']
    );
}

#[test]
fn value_bytes_of_subsystem_descriptor() {
    let mut out = Vec::new();
    let d = SubsystemDescriptor {
        subsys_id: Uuid::from_halves(2, 1),
        subsys_index: Some(5),
        version: Version(0x0203),
        max_sysfn: 9,
    };
    encode_value(&AttributeValue::SubsystemDescriptor(d), &mut out);
    assert_eq!(
        out,
        vec![1, 0, 0, 0, 0, 0, 0, 0, 2, 0, 0, 0, 0, 0, 0, 0, 1, 5, 0, 0, 0, 3, 2, 9, 0]
    );
}

#[test]
fn decode_value_rejects_bad_enum_index_and_bad_utf8() {
    assert!(decode_value(AttributeKind::SafetyHint, &[3, 0, 0, 0]).is_none());
    assert!(decode_value(AttributeKind::SafetyHint, &[2, 0, 0, 0]).is_some());
    assert!(decode_value(AttributeKind::ToolComment, &[1, 0, 0, 0, 0, 0, 0, 0, 0xFF]).is_none());
    assert!(decode_value(AttributeKind::SubsystemDescriptor, &[0u8; 21]).is_some());
    let mut bad_tag = [0u8; 21];
    bad_tag[16] = 2;
    assert!(decode_value(AttributeKind::SubsystemDescriptor, &bad_tag).is_none());
    assert!(decode_value(AttributeKind::Synthetic, &[0]).is_none());
}

#[test]
fn uuid_parse_reads_both_halves() {
    let u = Uuid::parse("8649000c-291a-566c-b171-0da33515ea61");
    assert_eq!(u, AttributeKind::SafetyHint.id());
    let v = Uuid::parse("C9C12154-F381-5D48-88E1-CE31D9D1BD1F");
    assert_eq!(v, AttributeKind::Align.id());
    assert_eq!(Uuid::parse("00000000-0000-0000-0000-000000000000"), Uuid::default());
}

#[test]
fn uuid_wire_form_is_low_half_first() {
    let mut out = Vec::new();
    Uuid::from_halves(0x0102, 0x0304).encode(&mut out);
    assert_eq!(out, vec![4, 3, 0, 0, 0, 0, 0, 0, 2, 1, 0, 0, 0, 0, 0, 0]);
    assert_eq!(Uuid::decode(&out, 0), Some((Uuid::from_halves(0x0102, 0x0304), 16)));
    assert_eq!(Uuid::decode(&out[1..], 0), None);
}
