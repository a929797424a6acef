use evm_ink_bridge::error::Error;
use evm_ink_bridge::ink::{InkEntry, InkField, InkPrimitive, InkTypeDef, InkTypes, InkVariant};
use evm_ink_bridge::ink2sol::{EvmTypeRegistry, TypeSlot};

fn entry(id: u32, path: Vec<&str>, def: InkTypeDef) -> InkEntry {
    InkEntry { id, path: path.into_iter().map(|p| p.to_string()).collect(), def }
}

fn field(name: Option<&str>, ty: u32) -> InkField {
    InkField { name: name.map(|n| n.to_string()), ty }
}

fn erc20_types() -> InkTypes {
    InkTypes {
        types: vec![
            entry(1, vec![], InkTypeDef::Primitive(InkPrimitive::U8)),
            entry(2, vec![], InkTypeDef::Array { len: 20, elem: 1 }),
            entry(
                3,
                vec!["ink_env", "AccountId"],
                InkTypeDef::Composite { fields: vec![field(None, 2)] },
            ),
            entry(5, vec![], InkTypeDef::Primitive(InkPrimitive::U128)),
            entry(
                7,
                vec!["erc20", "Transfer"],
                InkTypeDef::Composite {
                    fields: vec![
                        field(Some("from"), 3),
                        field(Some("to"), 3),
                        field(Some("value"), 5),
                    ],
                },
            ),
        ],
    }
}

#[test]
fn composite_fills_the_registry() {
    let types = erc20_types();
    let mut registry = EvmTypeRegistry::new();

    let reference = registry.type_slot(&types, 7, TypeSlot::Reference).unwrap();
    assert_eq!(reference, "erc20_Transfer");

    for id in [1, 2, 3, 5, 7] {
        assert!(registry.has_mapping(id), "id {} should be registered", id);
    }

    let t = registry.lookup(7).unwrap();
    assert_eq!(t.reference, "erc20_Transfer");
    assert_eq!(t.modifier.as_deref(), Some("memory"));
    assert!(!t.definition.as_deref().unwrap().is_empty());
    assert!(!t.encoder.as_deref().unwrap().is_empty());

    let definition = t.definition.as_deref().unwrap();
    assert!(definition.contains("struct erc20_Transfer"));
    assert!(definition.contains("ink_env_AccountId from;"));
    assert!(definition.contains("uint128 value;"));
}

#[test]
fn byte_array_short_form() {
    let types = erc20_types();
    let mut registry = EvmTypeRegistry::new();
    let reference = registry.type_slot(&types, 2, TypeSlot::Reference).unwrap();
    assert_eq!(reference, "bytes20");
}

#[test]
fn byte_array_long_form() {
    let types = InkTypes {
        types: vec![
            entry(1, vec![], InkTypeDef::Primitive(InkPrimitive::U8)),
            entry(2, vec![], InkTypeDef::Array { len: 64, elem: 1 }),
        ],
    };
    let mut registry = EvmTypeRegistry::new();
    let reference = registry.type_slot(&types, 2, TypeSlot::Reference).unwrap();
    assert_eq!(reference, "uint8[64]");
}

#[test]
fn non_byte_array_uses_brackets() {
    let types = InkTypes {
        types: vec![
            entry(1, vec![], InkTypeDef::Primitive(InkPrimitive::U64)),
            entry(2, vec![], InkTypeDef::Array { len: 4, elem: 1 }),
        ],
    };
    let mut registry = EvmTypeRegistry::new();
    let reference = registry.type_slot(&types, 2, TypeSlot::Reference).unwrap();
    assert_eq!(reference, "uint64[4]");
}

#[test]
fn noncontiguous_variant_is_rejected() {
    let types = InkTypes {
        types: vec![entry(
            1,
            vec!["m", "Status"],
            InkTypeDef::Variant {
                variants: vec![
                    InkVariant { name: "Ok".to_string(), index: 0 },
                    InkVariant { name: "Bad".to_string(), index: 2 },
                ],
            },
        )],
    };
    let mut registry = EvmTypeRegistry::new();
    match registry.type_slot(&types, 1, TypeSlot::Reference) {
        Err(Error::Metadata(detail)) => {
            assert!(detail.contains("index"), "detail was: {}", detail);
        }
        other => panic!("expected a metadata fault, got {:?}", other),
    }
    assert!(!registry.has_mapping(1));
}

#[test]
fn contiguous_variant_becomes_an_enumeration() {
    let types = InkTypes {
        types: vec![entry(
            1,
            vec!["m", "Status"],
            InkTypeDef::Variant {
                variants: vec![
                    InkVariant { name: "Ok".to_string(), index: 0 },
                    InkVariant { name: "Bad".to_string(), index: 1 },
                ],
            },
        )],
    };
    let mut registry = EvmTypeRegistry::new();
    assert_eq!(registry.type_slot(&types, 1, TypeSlot::Reference).unwrap(), "m_Status");
    let definition = registry.type_slot(&types, 1, TypeSlot::Definition).unwrap();
    assert_eq!(definition, "enum m_Status { Ok, Bad }");
    assert_eq!(registry.type_slot(&types, 1, TypeSlot::Modifier).unwrap(), "");
}

#[test]
fn tuple_reference_carries_the_qualifier_inline() {
    let types = InkTypes {
        types: vec![
            entry(1, vec![], InkTypeDef::Primitive(InkPrimitive::U128)),
            entry(2, vec![], InkTypeDef::Tuple(vec![1, 1])),
        ],
    };
    let mut registry = EvmTypeRegistry::new();
    let reference = registry.type_slot(&types, 2, TypeSlot::Reference).unwrap();
    assert_eq!(reference, " memory");
    let definition = registry.type_slot(&types, 2, TypeSlot::Definition).unwrap();
    assert!(definition.contains("uint128 f0;"));
    assert!(definition.contains("uint128 f1;"));
}

#[test]
fn empty_path_segment_is_rejected() {
    let types = InkTypes {
        types: vec![entry(1, vec![""], InkTypeDef::Composite { fields: vec![] })],
    };
    let mut registry = EvmTypeRegistry::new();
    assert!(matches!(registry.type_slot(&types, 1, TypeSlot::Reference), Err(Error::Metadata(_))));
    assert!(!registry.has_mapping(1));

    let types = InkTypes {
        types: vec![entry(
            1,
            vec!["m", ""],
            InkTypeDef::Variant {
                variants: vec![InkVariant { name: "Ok".to_string(), index: 0 }],
            },
        )],
    };
    let mut registry = EvmTypeRegistry::new();
    assert!(matches!(registry.type_slot(&types, 1, TypeSlot::Reference), Err(Error::Metadata(_))));
}

#[test]
fn character_type_is_rejected() {
    let types = InkTypes {
        types: vec![entry(1, vec![], InkTypeDef::Primitive(InkPrimitive::Char))],
    };
    let mut registry = EvmTypeRegistry::new();
    assert!(matches!(registry.type_slot(&types, 1, TypeSlot::Reference), Err(Error::Metadata(_))));
    assert!(!registry.has_mapping(1));
}

#[test]
fn unsupported_kind_is_rejected() {
    let types = InkTypes { types: vec![entry(1, vec![], InkTypeDef::Unsupported)] };
    let mut registry = EvmTypeRegistry::new();
    assert!(matches!(registry.type_slot(&types, 1, TypeSlot::Reference), Err(Error::Metadata(_))));
}

#[test]
fn unknown_id_is_rejected() {
    let types = erc20_types();
    let mut registry = EvmTypeRegistry::new();
    assert!(matches!(registry.type_slot(&types, 99, TypeSlot::Reference), Err(Error::Metadata(_))));
}

#[test]
fn circular_types_are_rejected() {
    let types = InkTypes {
        types: vec![
            entry(1, vec![], InkTypeDef::Tuple(vec![2])),
            entry(2, vec![], InkTypeDef::Tuple(vec![1])),
        ],
    };
    let mut registry = EvmTypeRegistry::new();
    match registry.type_slot(&types, 1, TypeSlot::Reference) {
        Err(Error::CyclicType { ids }) => {
            assert!(ids.contains(&1));
            assert!(ids.contains(&2));
        }
        other => panic!("expected a cyclic-type fault, got {:?}", other),
    }
    assert!(!registry.has_mapping(1));
}

#[test]
fn primitive_reference_table() {
    let cases: Vec<(InkPrimitive, &str)> = vec![
        (InkPrimitive::Bool, "bool"),
        (InkPrimitive::Str, "string"),
        (InkPrimitive::U8, "uint8"),
        (InkPrimitive::U256, "uint256"),
        (InkPrimitive::I8, "int8"),
        (InkPrimitive::I256, "int256"),
    ];
    for (k, (p, want)) in cases.into_iter().enumerate() {
        let id = (k + 1) as u32;
        let types = InkTypes { types: vec![entry(id, vec![], InkTypeDef::Primitive(p))] };
        let mut registry = EvmTypeRegistry::new();
        assert_eq!(registry.type_slot(&types, id, TypeSlot::Reference).unwrap(), want);
        let got = registry.lookup(id).unwrap();
        assert!(got.definition.is_none());
        assert!(got.modifier.is_none());
        assert!(got.encoder.is_none());
    }
}

#[test]
fn registry_reads_and_writes() {
    let types = erc20_types();
    let mut registry = EvmTypeRegistry::new();
    assert!(registry.lookup(5).is_none());
    assert!(!registry.has_mapping(5));

    let t = registry.convert_type(&types, 5).unwrap();
    assert_eq!(t.reference, "uint128");
    assert!(!registry.has_mapping(5), "convert_type leaves filing to the caller");

    registry.insert(5, t);
    assert!(registry.has_mapping(5));
    assert_eq!(registry.lookup(5).unwrap().reference, "uint128");

    let slot = registry.lookup_mut(5);
    slot.reference = "uint128 ".to_string();
    assert_eq!(registry.lookup(5).unwrap().reference, "uint128 ");
}
