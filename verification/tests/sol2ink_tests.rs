use evm_ink_bridge::error::Error;
use evm_ink_bridge::json::Json;
use evm_ink_bridge::sol2ink::{build_module, convert_type, translate_type_text};

fn s(x: &str) -> Json {
    Json::Str(x.to_string())
}

fn obj(fields: Vec<(&str, Json)>) -> Json {
    Json::Object(fields.into_iter().map(|(k, v)| (k.to_string(), v)).collect())
}

fn param(name: &str, ty: &str) -> Json {
    obj(vec![("name", s(name)), ("type", s(ty))])
}

fn function_item(name: &str, mutability: &str, inputs: Vec<Json>, outputs: Vec<Json>) -> Json {
    obj(vec![
        ("type", s("function")),
        ("name", s(name)),
        ("stateMutability", s(mutability)),
        ("inputs", Json::Array(inputs)),
        ("outputs", Json::Array(outputs)),
    ])
}

fn transfer_item() -> Json {
    function_item(
        "transfer",
        "nonpayable",
        vec![param("to", "address"), param("value", "uint256")],
        vec![param("", "bool")],
    )
}

#[test]
fn type_conversion() {}

#[test]
fn transfer_module() {
    let doc = Json::Array(vec![transfer_item()]);
    let m = build_module(&doc, "Erc20", "0x0F").unwrap();

    assert_eq!(m.name, "Erc20");
    assert_eq!(m.evm_id, "0x0F");
    assert_eq!(m.functions.len(), 1);
    assert_eq!(m.overloaded_functions.len(), 0);

    let f = &m.functions[0];
    assert_eq!(f.name, "transfer");
    assert_eq!(f.selector, "transfer(address,uint256)");
    assert_eq!(f.selector_hash, "a9059cbb");
    assert_eq!(f.output, "bool");
    assert_eq!(f.inputs.len(), 2);
    assert_eq!(f.inputs[0].name, "to");
    assert_eq!(f.inputs[0].evm_type, "address");
    assert_eq!(f.inputs[0].rust_type, "H160");
    assert_eq!(f.inputs[1].name, "value");
    assert_eq!(f.inputs[1].evm_type, "uint256");
    assert_eq!(f.inputs[1].rust_type, "U256");
}

#[test]
fn overloaded_approve() {
    let doc = Json::Array(vec![
        function_item(
            "approve",
            "nonpayable",
            vec![param("spender", "address"), param("value", "uint256")],
            vec![param("", "bool")],
        ),
        function_item(
            "approve",
            "nonpayable",
            vec![
                param("spender", "address"),
                param("value", "uint256"),
                param("data", "bytes"),
            ],
            vec![param("", "bool")],
        ),
    ]);
    let m = build_module(&doc, "Erc20", "0x0F").unwrap();

    assert_eq!(m.functions.len(), 0);
    assert_eq!(m.overloaded_functions.len(), 1);
    let o = &m.overloaded_functions[0];
    assert_eq!(o.name, "approve");
    assert_eq!(o.variants.len(), 2);
    assert_eq!(o.variants[0].selector, "approve(address,uint256)");
    assert_eq!(o.variants[0].selector_hash, "095ea7b3");
    assert_eq!(o.variants[1].selector, "approve(address,uint256,bytes)");
    assert_ne!(o.variants[0].selector_hash, o.variants[1].selector_hash);
}

#[test]
fn same_input_same_module() {
    let doc1 = Json::Array(vec![transfer_item()]);
    let doc2 = Json::Array(vec![transfer_item()]);
    let m1 = build_module(&doc1, "Erc20", "0x0F").unwrap();
    let m2 = build_module(&doc2, "Erc20", "0x0F").unwrap();

    assert_eq!(m1.functions.len(), m2.functions.len());
    for (f1, f2) in m1.functions.iter().zip(m2.functions.iter()) {
        assert_eq!(f1.name, f2.name);
        assert_eq!(f1.selector, f2.selector);
        assert_eq!(f1.selector_hash, f2.selector_hash);
        assert_eq!(f1.output, f2.output);
        assert_eq!(f1.inputs.len(), f2.inputs.len());
        for (i1, i2) in f1.inputs.iter().zip(f2.inputs.iter()) {
            assert_eq!(i1.name, i2.name);
            assert_eq!(i1.evm_type, i2.evm_type);
            assert_eq!(i1.rust_type, i2.rust_type);
        }
    }
}

#[test]
fn tuple_translation() {
    // The type grammar spells a tuple by its parenthesised component list;
    // the bare word `tuple` names the empty tuple.
    let parsed = ethabi::param_type::Reader::read("(uint256,address)").unwrap();
    assert_eq!(convert_type(&parsed), "(U256, H160)");
    let empty = ethabi::param_type::Reader::read("tuple").unwrap();
    assert_eq!(convert_type(&empty), "()");
}

#[test]
fn tuple_input_in_module() {
    let doc = Json::Array(vec![function_item(
        "submit",
        "nonpayable",
        vec![param("pair", "(uint256,address)")],
        vec![param("", "bool")],
    )]);
    let m = build_module(&doc, "M", "0x0F").unwrap();
    assert_eq!(m.functions[0].inputs[0].rust_type, "(U256, H160)");
    assert_eq!(m.functions[0].selector, "submit((uint256,address))");
}

#[test]
fn full_type_table() {
    let cases: Vec<(&str, &str)> = vec![
        ("bool", "bool"),
        ("address", "H160"),
        ("uint8", "u8"),
        ("uint16", "u16"),
        ("uint32", "u32"),
        ("uint64", "u64"),
        ("uint128", "u128"),
        ("uint256", "U256"),
        ("uint24", "U256"),
        ("int8", "i8"),
        ("int128", "i128"),
        ("int256", "I256"),
        ("bytes", "Vec<u8>"),
        ("bytes32", "FixedBytes<32>"),
        ("string", "String"),
        ("uint8[]", "Vec<u8>"),
        ("uint64[12]", "[u64; 12]"),
        ("address[][3]", "[Vec<H160>; 3]"),
    ];
    for (evm, ink) in cases {
        let parsed = ethabi::param_type::Reader::read(evm).unwrap();
        assert_eq!(convert_type(&parsed), ink, "for {}", evm);
    }
}

#[test]
fn view_functions_are_dropped() {
    let doc = Json::Array(vec![
        function_item("balanceOf", "view", vec![param("who", "address")], vec![param("", "bool")]),
        transfer_item(),
    ]);
    let m = build_module(&doc, "Erc20", "0x0F").unwrap();
    assert_eq!(m.functions.len(), 1);
    assert_eq!(m.functions[0].name, "transfer");
}

#[test]
fn non_bool_outputs_are_dropped() {
    let doc = Json::Array(vec![
        function_item(
            "totalSupply",
            "nonpayable",
            vec![],
            vec![param("", "uint256")],
        ),
        transfer_item(),
    ]);
    let m = build_module(&doc, "Erc20", "0x0F").unwrap();
    assert_eq!(m.functions.len(), 1);
    assert_eq!(m.functions[0].name, "transfer");
}

#[test]
fn non_function_items_are_dropped() {
    let doc = Json::Array(vec![
        obj(vec![("type", s("event")), ("name", s("Transfer"))]),
        transfer_item(),
    ]);
    let m = build_module(&doc, "Erc20", "0x0F").unwrap();
    assert_eq!(m.functions.len(), 1);
}

#[test]
fn missing_name_is_reported_with_its_position() {
    let doc = Json::Array(vec![
        transfer_item(),
        obj(vec![
            ("type", s("function")),
            ("stateMutability", s("nonpayable")),
            ("inputs", Json::Array(vec![])),
            ("outputs", Json::Array(vec![])),
        ]),
    ]);
    match build_module(&doc, "M", "0x0F") {
        Err(Error::MalformedAbi { item, field }) => {
            assert_eq!(item, 1);
            assert_eq!(field, "name");
        }
        other => panic!("expected a malformed-ABI fault, got {:?}", other),
    }
}

#[test]
fn bad_parameter_name_is_reported() {
    let doc = Json::Array(vec![function_item(
        "f",
        "nonpayable",
        vec![obj(vec![("type", s("bool"))])],
        vec![],
    )]);
    match build_module(&doc, "M", "0x0F") {
        Err(Error::MalformedAbi { item, field }) => {
            assert_eq!(item, 0);
            assert_eq!(field, "inputs.name");
        }
        other => panic!("expected a malformed-ABI fault, got {:?}", other),
    }
}

#[test]
fn unparsable_type_is_reported() {
    let doc = Json::Array(vec![function_item(
        "f",
        "nonpayable",
        vec![param("a", "bool"), param("b", "uint2x")],
        vec![],
    )]);
    match build_module(&doc, "M", "0x0F") {
        Err(Error::AbiTypeParse { raw, item, index }) => {
            assert_eq!(raw, "uint2x");
            assert_eq!(item, 0);
            assert_eq!(index, 1);
        }
        other => panic!("expected a type-parse fault, got {:?}", other),
    }
}

#[test]
fn type_text_translation() {
    assert_eq!(translate_type_text("uint256").unwrap(), "U256");
    assert_eq!(translate_type_text("(bool,bytes8[2])").unwrap(), "(bool, [FixedBytes<8>; 2])");
    assert!(matches!(
        translate_type_text("uint2x"),
        Err(Error::AbiTypeParse { .. })
    ));
    assert!(matches!(
        translate_type_text("uint\u{e9}"),
        Err(Error::AbiTypeParse { .. })
    ));
}

#[test]
fn zero_argument_selector() {
    let doc = Json::Array(vec![function_item("ping", "nonpayable", vec![], vec![])]);
    let m = build_module(&doc, "M", "0x0F").unwrap();
    assert_eq!(m.functions[0].selector, "ping()");
    assert_eq!(m.functions[0].inputs.len(), 0);
}

#[test]
fn absent_mutability_is_kept() {
    let doc = Json::Array(vec![obj(vec![
        ("type", s("function")),
        ("name", s("poke")),
        ("inputs", Json::Array(vec![])),
        ("outputs", Json::Array(vec![])),
    ])]);
    let m = build_module(&doc, "M", "0x0F").unwrap();
    assert_eq!(m.functions.len(), 1);
}

#[test]
fn repeated_key_reads_first_binding() {
    let item = Json::Object(vec![
        ("type".to_string(), s("function")),
        ("name".to_string(), s("first")),
        ("name".to_string(), s("second")),
        ("inputs".to_string(), Json::Array(vec![])),
        ("outputs".to_string(), Json::Array(vec![])),
    ]);
    let m = build_module(&Json::Array(vec![item]), "M", "0x0F").unwrap();
    assert_eq!(m.functions[0].name, "first");
}

#[test]
fn hazardous_type_texts_are_rejected() {
    // The outside type parser would abort on these texts; the engine keeps
    // them away from it and reports a parse fault instead.
    for raw in ["]", "5]", "25]", "(5])", "5][2]", "(bool,5])"] {
        assert!(
            matches!(translate_type_text(raw), Err(Error::AbiTypeParse { .. })),
            "for {}",
            raw
        );
    }
    let doc = Json::Array(vec![function_item(
        "f",
        "nonpayable",
        vec![param("a", "5]")],
        vec![],
    )]);
    assert!(matches!(
        build_module(&doc, "M", "0x0F"),
        Err(Error::AbiTypeParse { .. })
    ));
}

#[test]
fn empty_document_yields_empty_module() {
    let doc = Json::Array(vec![]);
    let m = build_module(&doc, "Empty", "0x2A").unwrap();
    assert_eq!(m.functions.len(), 0);
    assert_eq!(m.overloaded_functions.len(), 0);
    assert_eq!(m.evm_id, "0x2A");
}

#[test]
fn non_array_document_yields_empty_module() {
    let m = build_module(&s("not an abi"), "M", "0x0F").unwrap();
    assert_eq!(m.functions.len(), 0);
    assert_eq!(m.overloaded_functions.len(), 0);
}
