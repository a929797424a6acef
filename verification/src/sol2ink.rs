//! The EVM-to-Ink direction: translation of Solidity parameter types into
//! the Rust-like type texts used on the Ink side, normalisation of ABI
//! functions, and assembly of the module model handed to the renderer.

use crate::error::{Error, ErrorV};
use crate::json::{spec_as_str, spec_field, spec_field_is, spec_members, str_eq, Json};
use crate::outside::{hazardous_type_text, hex_of, hex_string, is_hazardous_type_text, keccak256,
    keccak256_of, parsed_param_type, read_param_type};
use crate::seqs::{lemma_filter_filter, lemma_filter_implies_len, lemma_filter_witness_two};
use crate::text::{dec_str, dec_string, join_strings, join_with};
use vstd::prelude::*;
use vstd::utf8::{encode_utf8, is_ascii_chars};

verus! {

/// Rust-side text for a Solidity signed integer of the given bit width.
pub open spec fn int_type_text(n: int) -> Seq<char> {
    if n == 8 {
        "i8"@
    } else if n == 16 {
        "i16"@
    } else if n == 32 {
        "i32"@
    } else if n == 64 {
        "i64"@
    } else if n == 128 {
        "i128"@
    } else {
        "I256"@
    }
}

/// Rust-side text for a Solidity unsigned integer of the given bit width.
pub open spec fn uint_type_text(n: int) -> Seq<char> {
    if n == 8 {
        "u8"@
    } else if n == 16 {
        "u16"@
    } else if n == 32 {
        "u32"@
    } else if n == 64 {
        "u64"@
    } else if n == 128 {
        "u128"@
    } else {
        "U256"@
    }
}

/// The Ink-side (Rust-like) type text for a Solidity parameter type: a
/// structural, purely recursive translation.
pub open spec fn ink_type_text(t: ethabi::ParamType) -> Seq<char>
    decreases t,
{
    match t {
        ethabi::ParamType::Address => "H160"@,
        ethabi::ParamType::Bytes => "Vec<u8>"@,
        ethabi::ParamType::Int(n) => int_type_text(n as int),
        ethabi::ParamType::Uint(n) => uint_type_text(n as int),
        ethabi::ParamType::Bool => "bool"@,
        ethabi::ParamType::String => "String"@,
        ethabi::ParamType::Array(inner) => "Vec<"@ + ink_type_text(*inner) + ">"@,
        ethabi::ParamType::FixedBytes(n) => "FixedBytes<"@ + dec_str(n as nat) + ">"@,
        ethabi::ParamType::FixedArray(inner, n) => "["@ + ink_type_text(*inner) + "; "@ + dec_str(
            n as nat,
        ) + "]"@,
        ethabi::ParamType::Tuple(inner) => "("@ + ink_tuple_text(inner@) + ")"@,
    }
}

/// The comma-separated translations of the element types of a tuple.
pub open spec fn ink_tuple_text(ts: Seq<ethabi::ParamType>) -> Seq<char>
    decreases ts,
{
    if ts.len() == 0 {
        Seq::empty()
    } else if ts.len() == 1 {
        ink_type_text(ts[0])
    } else {
        ink_type_text(ts[0]) + ", "@ + ink_tuple_text(ts.drop_first())
    }
}

/// Appending one more element extends the comma-separated form on the right.
proof fn lemma_ink_tuple_text_push(ts: Seq<ethabi::ParamType>, t: ethabi::ParamType)
    ensures
        ink_tuple_text(ts.push(t)) == if ts.len() == 0 {
            ink_type_text(t)
        } else {
            ink_tuple_text(ts) + ", "@ + ink_type_text(t)
        },
    decreases ts,
{
    if ts.len() == 0 {
        assert(ts.push(t) =~= seq![t]);
    } else {
        assert(ts.push(t).drop_first() =~= ts.drop_first().push(t));
        lemma_ink_tuple_text_push(ts.drop_first(), t);
        assert(ts.push(t)[0] == ts[0]);
        if ts.len() == 1 {
            assert(ts.drop_first().len() == 0);
        }
    }
}

/// Translates one Solidity parameter type into its Ink-side type text.
pub fn convert_type(ty: &ethabi::ParamType) -> (r: String)
    ensures
        r@ == ink_type_text(*ty),
    decreases *ty,
{
    match ty {
        ethabi::ParamType::Address => {
            proof {
                reveal_strlit("H160");
            }
            "H160".to_owned()
        },
        ethabi::ParamType::Bytes => {
            proof {
                reveal_strlit("Vec<u8>");
            }
            "Vec<u8>".to_owned()
        },
        ethabi::ParamType::Int(n) => {
            proof {
                reveal_strlit("i8");
                reveal_strlit("i16");
                reveal_strlit("i32");
                reveal_strlit("i64");
                reveal_strlit("i128");
                reveal_strlit("I256");
            }
            match *n {
                8 => "i8".to_owned(),
                16 => "i16".to_owned(),
                32 => "i32".to_owned(),
                64 => "i64".to_owned(),
                128 => "i128".to_owned(),
                _ => "I256".to_owned(),
            }
        },
        ethabi::ParamType::Uint(n) => {
            proof {
                reveal_strlit("u8");
                reveal_strlit("u16");
                reveal_strlit("u32");
                reveal_strlit("u64");
                reveal_strlit("u128");
                reveal_strlit("U256");
            }
            match *n {
                8 => "u8".to_owned(),
                16 => "u16".to_owned(),
                32 => "u32".to_owned(),
                64 => "u64".to_owned(),
                128 => "u128".to_owned(),
                _ => "U256".to_owned(),
            }
        },
        ethabi::ParamType::Bool => {
            proof {
                reveal_strlit("bool");
            }
            "bool".to_owned()
        },
        ethabi::ParamType::String => {
            proof {
                reveal_strlit("String");
            }
            "String".to_owned()
        },
        ethabi::ParamType::Array(inner) => {
            let mut s = "Vec<".to_owned();
            s.append(convert_type(inner).as_str());
            s.append(">");
            s
        },
        ethabi::ParamType::FixedBytes(n) => {
            let mut s = "FixedBytes<".to_owned();
            s.append(dec_string(*n as u64).as_str());
            s.append(">");
            s
        },
        ethabi::ParamType::FixedArray(inner, n) => {
            let mut s = "[".to_owned();
            s.append(convert_type(inner).as_str());
            s.append("; ");
            s.append(dec_string(*n as u64).as_str());
            s.append("]");
            s
        },
        ethabi::ParamType::Tuple(inner) => {
            let mut s = "(".to_owned();
            let mut i: usize = 0;
            #[verifier::loop_isolation(false)]
            while i < inner.len()
                invariant
                    i <= inner@.len(),
                    s@ == "("@ + ink_tuple_text(inner@.take(i as int)),
                decreases inner@.len() - i,
            {
                if i > 0 {
                    s.append(", ");
                }
                s.append(convert_type(&inner[i]).as_str());
                proof {
                    assert(inner@.take(i as int).push(inner@[i as int]) =~= inner@.take(i + 1));
                    lemma_ink_tuple_text_push(inner@.take(i as int), inner@[i as int]);
                }
                i = i + 1;
            }
            s.append(")");
            proof {
                assert(inner@.take(inner@.len() as int) =~= inner@);
            }
            s
        },
    }
}

/// One translated function parameter: its name, the Solidity type text
/// exactly as the ABI wrote it, and the Ink-side translation.
#[derive(Debug)]
pub struct Input {
    pub name: String,
    pub evm_type: String,
    pub rust_type: String,
}

/// A non-overloaded function of the module model.
#[derive(Debug)]
pub struct Function {
    pub name: String,
    pub inputs: Vec<Input>,
    pub output: String,
    pub selector: String,
    pub selector_hash: String,
}

/// One signature of an overloaded function; the name lives on the parent.
#[derive(Debug)]
pub struct Variant {
    pub inputs: Vec<Input>,
    pub output: String,
    pub selector: String,
    pub selector_hash: String,
}

/// All signatures sharing one overloaded name, in input order.
#[derive(Debug)]
pub struct OverloadedFunction {
    pub name: String,
    pub variants: Vec<Variant>,
}

/// The finished model of one wrapper module, handed to the renderer.
#[derive(Debug)]
pub struct Module {
    pub name: String,
    pub evm_id: String,
    pub functions: Vec<Function>,
    pub overloaded_functions: Vec<OverloadedFunction>,
}

#[verifier::ext_equal]
pub struct InputV {
    pub name: Seq<char>,
    pub evm_type: Seq<char>,
    pub rust_type: Seq<char>,
}

#[verifier::ext_equal]
pub struct FunctionV {
    pub name: Seq<char>,
    pub inputs: Seq<InputV>,
    pub output: Seq<char>,
    pub selector: Seq<char>,
    pub selector_hash: Seq<char>,
}

#[verifier::ext_equal]
pub struct VariantV {
    pub inputs: Seq<InputV>,
    pub output: Seq<char>,
    pub selector: Seq<char>,
    pub selector_hash: Seq<char>,
}

#[verifier::ext_equal]
pub struct OverloadedFunctionV {
    pub name: Seq<char>,
    pub variants: Seq<VariantV>,
}

#[verifier::ext_equal]
pub struct ModuleV {
    pub name: Seq<char>,
    pub evm_id: Seq<char>,
    pub functions: Seq<FunctionV>,
    pub overloaded_functions: Seq<OverloadedFunctionV>,
}

pub open spec fn input_views(v: Seq<Input>) -> Seq<InputV> {
    v.map_values(|x: Input| x@)
}

pub open spec fn function_views(v: Seq<Function>) -> Seq<FunctionV> {
    v.map_values(|x: Function| x@)
}

pub open spec fn variant_views(v: Seq<Variant>) -> Seq<VariantV> {
    v.map_values(|x: Variant| x@)
}

pub open spec fn overloaded_views(v: Seq<OverloadedFunction>) -> Seq<OverloadedFunctionV> {
    v.map_values(|x: OverloadedFunction| x@)
}

impl View for Input {
    type V = InputV;

    open spec fn view(&self) -> InputV {
        InputV { name: self.name@, evm_type: self.evm_type@, rust_type: self.rust_type@ }
    }
}

impl View for Function {
    type V = FunctionV;

    open spec fn view(&self) -> FunctionV {
        FunctionV {
            name: self.name@,
            inputs: input_views(self.inputs@),
            output: self.output@,
            selector: self.selector@,
            selector_hash: self.selector_hash@,
        }
    }
}

impl View for Variant {
    type V = VariantV;

    open spec fn view(&self) -> VariantV {
        VariantV {
            inputs: input_views(self.inputs@),
            output: self.output@,
            selector: self.selector@,
            selector_hash: self.selector_hash@,
        }
    }
}

impl View for OverloadedFunction {
    type V = OverloadedFunctionV;

    open spec fn view(&self) -> OverloadedFunctionV {
        OverloadedFunctionV { name: self.name@, variants: variant_views(self.variants@) }
    }
}

impl View for Module {
    type V = ModuleV;

    open spec fn view(&self) -> ModuleV {
        ModuleV {
            name: self.name@,
            evm_id: self.evm_id@,
            functions: function_views(self.functions@),
            overloaded_functions: overloaded_views(self.overloaded_functions@),
        }
    }
}

/// True where every declared output of the item is literally of type `bool`.
pub open spec fn outputs_all_bool(it: Json) -> bool {
    forall|k: int|
        0 <= k < spec_members(spec_field(it, "outputs"@)).len() ==> spec_field_is(
            #[trigger] spec_members(spec_field(it, "outputs"@))[k],
            "type"@,
            "bool"@,
        )
}

/// The normaliser's filter: an item survives where its kind is `function`,
/// its state mutability is not `view`, and every output is a `bool`.
pub open spec fn kept_item(it: Json) -> bool {
    &&& spec_field_is(it, "type"@, "function"@)
    &&& !spec_field_is(it, "stateMutability"@, "view"@)
    &&& outputs_all_bool(it)
}

/// The function name of an ABI item, where one is present as a string.
pub open spec fn item_name(it: Json) -> Option<Seq<char>> {
    spec_as_str(spec_field(it, "name"@))
}

/// The declared input parameters of an ABI item.
pub open spec fn param_fields(it: Json) -> Seq<Json> {
    spec_members(spec_field(it, "inputs"@))
}

/// Decides whether the normaliser keeps an ABI item.
pub fn is_kept(it: &Json) -> (r: bool)
    ensures
        r == kept_item(*it),
{
    if !it.field_is("type", "function") {
        return false;
    }
    if it.field_is("stateMutability", "view") {
        return false;
    }
    match it.field("outputs") {
        Json::Array(os) => {
            let mut k: usize = 0;
            #[verifier::loop_isolation(false)]
            while k < os.len()
                invariant
                    k <= os@.len(),
                    forall|j: int| 0 <= j < k ==> spec_field_is(os@[j], "type"@, "bool"@),
                decreases os@.len() - k,
            {
                if !os[k].field_is("type", "bool") {
                    proof {
                        assert(spec_members(spec_field(*it, "outputs"@)) == os@);
                        assert(!spec_field_is(
                            spec_members(spec_field(*it, "outputs"@))[k as int],
                            "type"@,
                            "bool"@,
                        ));
                    }
                    return false;
                }
                k = k + 1;
            }
            true
        },
        _ => true,
    }
}

/// The fault in one declared parameter, if any: the name and the type must
/// be strings, and the type string must be ASCII and parse under the
/// Solidity type grammar.
pub open spec fn param_error(p: Json, item: int, index: int) -> Option<ErrorV> {
    if spec_as_str(spec_field(p, "name"@)) is None {
        Some(ErrorV::MalformedAbi { item, field: "inputs.name"@ })
    } else if spec_as_str(spec_field(p, "type"@)) is None {
        Some(ErrorV::MalformedAbi { item, field: "inputs.type"@ })
    } else {
        let raw = spec_as_str(spec_field(p, "type"@))->Some_0;
        if !is_ascii_chars(raw) || hazardous_type_text(raw) || parsed_param_type(raw) is None {
            Some(ErrorV::AbiTypeParse { raw, item, index })
        } else {
            None
        }
    }
}

/// The translated form of one fault-free parameter.
pub open spec fn input_v(p: Json) -> InputV {
    let name = spec_as_str(spec_field(p, "name"@))->Some_0;
    let raw = spec_as_str(spec_field(p, "type"@))->Some_0;
    InputV { name, evm_type: raw, rust_type: ink_type_text(parsed_param_type(raw)->Some_0) }
}

pub open spec fn to_input_v() -> spec_fn(Json) -> InputV {
    |p: Json| input_v(p)
}

pub open spec fn inputs_v(ps: Seq<Json>) -> Seq<InputV> {
    ps.map_values(to_input_v())
}

/// The first faulty parameter at or after position `j`, scanning in
/// declaration order.
pub open spec fn first_param_error(ps: Seq<Json>, item: int, j: int) -> Option<ErrorV>
    decreases ps.len() - j,
{
    if j < 0 || j >= ps.len() {
        None
    } else if param_error(ps[j], item, j) is Some {
        param_error(ps[j], item, j)
    } else {
        first_param_error(ps, item, j + 1)
    }
}

/// A clean prefix moves the scan start forward.
proof fn lemma_param_scan(ps: Seq<Json>, item: int, j: int)
    requires
        0 <= j <= ps.len(),
        forall|k: int| 0 <= k < j ==> param_error(ps[k], item, k) is None,
    ensures
        first_param_error(ps, item, 0) == first_param_error(ps, item, j),
    decreases j,
{
    if j > 0 {
        lemma_param_scan(ps, item, j - 1);
    }
}

/// Reads and translates the declared inputs of one kept ABI item.
pub fn extract_inputs(it: &Json, item_idx: usize) -> (r: Result<Vec<Input>, Error>)
    ensures
        (match r {
            Ok(ins) => first_param_error(param_fields(*it), item_idx as int, 0) is None
                && input_views(ins@) == inputs_v(param_fields(*it)),
            Err(e) => first_param_error(param_fields(*it), item_idx as int, 0) == Some(e@),
        }),
{
    broadcast use vstd::seq_lib::group_seq_properties;

    let empty_params: Vec<Json> = Vec::new();
    let ps: &Vec<Json> = match it.field("inputs") {
        Json::Array(v) => v,
        _ => &empty_params,
    };
    proof {
        assert(param_fields(*it) == ps@);
    }
    let mut ins: Vec<Input> = Vec::new();
    let mut j: usize = 0;
    #[verifier::loop_isolation(false)]
    while j < ps.len()
        invariant
            j <= ps@.len(),
            forall|k: int| 0 <= k < j ==> param_error(ps@[k], item_idx as int, k) is None,
            input_views(ins@) == inputs_v(ps@.take(j as int)),
        decreases ps@.len() - j,
    {
        let p = &ps[j];
        let name: String = match p.field("name").as_str() {
            Some(s) => s.clone(),
            None => {
                proof {
                    lemma_param_scan(ps@, item_idx as int, j as int);
                }
                return Err(
                    Error::MalformedAbi { item: item_idx, field: "inputs.name".to_owned() },
                );
            },
        };
        let raw: String = match p.field("type").as_str() {
            Some(s) => s.clone(),
            None => {
                proof {
                    lemma_param_scan(ps@, item_idx as int, j as int);
                }
                return Err(
                    Error::MalformedAbi { item: item_idx, field: "inputs.type".to_owned() },
                );
            },
        };
        if !raw.as_str().is_ascii() || is_hazardous_type_text(raw.as_str()) {
            proof {
                lemma_param_scan(ps@, item_idx as int, j as int);
            }
            return Err(Error::AbiTypeParse { raw, item: item_idx, index: j });
        }
        let parsed = match read_param_type(raw.as_str()) {
            Some(t) => t,
            None => {
                proof {
                    lemma_param_scan(ps@, item_idx as int, j as int);
                }
                return Err(Error::AbiTypeParse { raw, item: item_idx, index: j });
            },
        };
        let rust_type = convert_type(&parsed);
        let ghost ins_prev = ins@;
        ins.push(Input { name, evm_type: raw, rust_type });
        proof {
            assert(ins@.last()@ == input_v(ps@[j as int]));
            assert(input_views(ins@) =~= input_views(ins_prev).push(input_v(ps@[j as int])));
            assert(ps@.take(j + 1) =~= ps@.take(j as int).push(ps@[j as int]));
            assert(inputs_v(ps@.take(j + 1)) =~= inputs_v(ps@.take(j as int)).push(
                input_v(ps@[j as int]),
            ));
        }
        j = j + 1;
    }
    proof {
        assert(ps@.take(ps@.len() as int) =~= ps@);
        lemma_param_scan(ps@, item_idx as int, ps@.len() as int);
    }
    Ok(ins)
}

pub open spec fn evm_types(ins: Seq<InputV>) -> Seq<Seq<char>> {
    ins.map_values(|i: InputV| i.evm_type)
}

/// The canonical selector string `name(t1,t2,…,tn)`, over the Solidity type
/// texts exactly as the ABI wrote them.
pub open spec fn selector_v(name: Seq<char>, ins: Seq<InputV>) -> Seq<char> {
    name + "("@ + join_with(evm_types(ins), ","@) + ")"@
}

/// The first four bytes of the Keccak-256 digest of the selector's UTF-8
/// bytes, as eight lowercase hexadecimal digits.
pub open spec fn selector_hash_v(sel: Seq<char>) -> Seq<char> {
    hex_of(keccak256_of(encode_utf8(sel)).take(4))
}

/// Builds the canonical selector string of one function.
pub fn selector_string(name: &str, inputs: &Vec<Input>) -> (r: String)
    ensures
        r@ == selector_v(name@, input_views(inputs@)),
{
    let mut types: Vec<String> = Vec::new();
    let mut i: usize = 0;
    #[verifier::loop_isolation(false)]
    while i < inputs.len()
        invariant
            i <= inputs@.len(),
            types@.len() == i,
            forall|k: int| 0 <= k < i ==> types@[k]@ == inputs@[k]@.evm_type,
        decreases inputs@.len() - i,
    {
        types.push(inputs[i].evm_type.clone());
        i = i + 1;
    }
    proof {
        assert(types@.map_values(|p: String| p@) =~~= evm_types(input_views(inputs@)));
    }
    let joined = join_strings(&types, ",");
    let mut r = name.to_owned();
    r.append("(");
    r.append(joined.as_str());
    r.append(")");
    r
}

/// Renders the 4-byte selector hash of a selector string: always eight
/// lowercase hexadecimal digits.
pub fn selector_hash_string(selector: &str) -> (r: String)
    ensures
        r@ == selector_hash_v(selector@),
        r@.len() == 8,
{
    let digest = keccak256(selector.as_bytes());
    let first4 = vstd::slice::slice_subrange(digest.as_slice(), 0, 4);
    proof {
        assert(first4@ =~= keccak256_of(encode_utf8(selector@)).take(4));
        crate::outside::lemma_hex_of_len(first4@);
    }
    hex_string(first4)
}

/// The model of one fault-free non-overloaded function.
pub open spec fn function_v(it: Json) -> FunctionV {
    let name = item_name(it)->Some_0;
    let ins = inputs_v(param_fields(it));
    let sel = selector_v(name, ins);
    FunctionV {
        name,
        inputs: ins,
        output: "bool"@,
        selector: sel,
        selector_hash: selector_hash_v(sel),
    }
}

/// The model of one fault-free signature of an overloaded name.
pub open spec fn variant_v(it: Json) -> VariantV {
    let ins = inputs_v(param_fields(it));
    let sel = selector_v(item_name(it)->Some_0, ins);
    VariantV {
        inputs: ins,
        output: "bool"@,
        selector: sel,
        selector_hash: selector_hash_v(sel),
    }
}

pub open spec fn named_kept(name: Seq<char>) -> spec_fn(Json) -> bool {
    |it: Json| kept_item(it) && item_name(it) == Some(name)
}

/// How many kept items carry this function name.
pub open spec fn overload_count(items: Seq<Json>, name: Seq<char>) -> nat {
    items.filter(named_kept(name)).len()
}

/// A name is overloaded exactly where at least two kept items carry it.
/// Overload detection goes by name equality alone, never by signature.
pub open spec fn overloaded(items: Seq<Json>, name: Seq<char>) -> bool {
    overload_count(items, name) >= 2
}

/// Counts the kept items that carry the given function name.
pub fn count_kept_named(items: &Vec<Json>, name: &str) -> (c: usize)
    ensures
        c == overload_count(items@, name@),
{
    broadcast use vstd::seq_lib::group_filter_ensures;

    let mut c: usize = 0;
    let mut i: usize = 0;
    #[verifier::loop_isolation(false)]
    while i < items.len()
        invariant
            i <= items@.len(),
            c <= i,
            c == overload_count(items@.take(i as int), name@),
        decreases items@.len() - i,
    {
        let matches_name = match items[i].field("name").as_str() {
            Some(s) => str_eq(s.as_str(), name),
            None => false,
        };
        proof {
            assert(items@.take(i + 1) =~= items@.take(i as int).push(items@[i as int]));
            items@.take(i as int).lemma_filter_push(items@[i as int], named_kept(name@));
        }
        if matches_name && is_kept(&items[i]) {
            c = c + 1;
        }
        i = i + 1;
    }
    proof {
        assert(items@.take(items@.len() as int) =~= items@);
    }
    c
}

/// The first kept item at or after position `i` whose `name` field is
/// missing or not a string. The normaliser's first pass reports these before
/// any parameter fault of any item.
pub open spec fn first_name_error(items: Seq<Json>, i: int) -> Option<ErrorV>
    decreases items.len() - i,
{
    if i < 0 || i >= items.len() {
        None
    } else if kept_item(items[i]) && item_name(items[i]) is None {
        Some(ErrorV::MalformedAbi { item: i, field: "name"@ })
    } else {
        first_name_error(items, i + 1)
    }
}

/// The first parameter fault among kept items at or after position `i`.
pub open spec fn first_input_error(items: Seq<Json>, i: int) -> Option<ErrorV>
    decreases items.len() - i,
{
    if i < 0 || i >= items.len() {
        None
    } else if kept_item(items[i]) && first_param_error(param_fields(items[i]), i, 0) is Some {
        first_param_error(param_fields(items[i]), i, 0)
    } else {
        first_input_error(items, i + 1)
    }
}

/// The fault the whole translation reports, if any: a missing name anywhere
/// first, and then the first parameter fault in item order.
pub open spec fn first_error(items: Seq<Json>) -> Option<ErrorV> {
    if first_name_error(items, 0) is Some {
        first_name_error(items, 0)
    } else {
        first_input_error(items, 0)
    }
}

proof fn lemma_name_scan(items: Seq<Json>, j: int)
    requires
        0 <= j <= items.len(),
        forall|k: int|
            0 <= k < j ==> !(kept_item(items[k]) && item_name(items[k]) is None),
    ensures
        first_name_error(items, 0) == first_name_error(items, j),
    decreases j,
{
    if j > 0 {
        lemma_name_scan(items, j - 1);
    }
}

proof fn lemma_input_scan(items: Seq<Json>, j: int)
    requires
        0 <= j <= items.len(),
        forall|k: int|
            0 <= k < j ==> (kept_item(items[k]) ==> first_param_error(
                param_fields(items[k]),
                k,
                0,
            ) is None),
    ensures
        first_input_error(items, 0) == first_input_error(items, j),
    decreases j,
{
    if j > 0 {
        lemma_input_scan(items, j - 1);
    }
}

proof fn lemma_no_name_error(items: Seq<Json>, i: int, k: int)
    requires
        0 <= i <= k < items.len(),
        first_name_error(items, i) is None,
    ensures
        kept_item(items[k]) ==> item_name(items[k]) is Some,
    decreases k - i,
{
    if i < k {
        lemma_no_name_error(items, i + 1, k);
    }
}

/// Files one more signature under its name: the first group with that name
/// takes it, and a fresh group opens at the end where none exists yet.
pub open spec fn add_variant(
    l: Seq<OverloadedFunctionV>,
    name: Seq<char>,
    v: VariantV,
) -> Seq<OverloadedFunctionV>
    decreases l.len(),
{
    if l.len() == 0 {
        seq![OverloadedFunctionV { name, variants: seq![v] }]
    } else if l[0].name == name {
        seq![OverloadedFunctionV { name, variants: l[0].variants.push(v) }] + l.drop_first()
    } else {
        seq![l[0]] + add_variant(l.drop_first(), name, v)
    }
}

pub open spec fn ov_pred(items: Seq<Json>) -> spec_fn(Json) -> bool {
    |it: Json| kept_item(it) && overloaded(items, item_name(it)->Some_0)
}

pub open spec fn simple_pred(items: Seq<Json>) -> spec_fn(Json) -> bool {
    |it: Json| kept_item(it) && !overloaded(items, item_name(it)->Some_0)
}

pub open spec fn to_function_v() -> spec_fn(Json) -> FunctionV {
    |it: Json| function_v(it)
}

/// The kept items with overloaded names, grouped under their names in
/// first-occurrence order, each group's variants in item order.
pub open spec fn group_variants(ks: Seq<Json>) -> Seq<OverloadedFunctionV>
    decreases ks.len(),
{
    if ks.len() == 0 {
        Seq::empty()
    } else {
        add_variant(
            group_variants(ks.drop_last()),
            item_name(ks.last())->Some_0,
            variant_v(ks.last()),
        )
    }
}

/// The non-overloaded bucket of the finished module.
pub open spec fn simple_functions_v(items: Seq<Json>) -> Seq<FunctionV> {
    items.filter(simple_pred(items)).map_values(to_function_v())
}

/// The overloaded bucket of the finished module.
pub open spec fn overloaded_functions_v(items: Seq<Json>) -> Seq<OverloadedFunctionV> {
    group_variants(items.filter(ov_pred(items)))
}

proof fn lemma_group_variants_push(ks: Seq<Json>, k: Json)
    ensures
        group_variants(ks.push(k)) == add_variant(
            group_variants(ks),
            item_name(k)->Some_0,
            variant_v(k),
        ),
{
    assert(ks.push(k).drop_last() =~= ks);
    assert(ks.push(k).last() == k);
}

proof fn lemma_add_variant_new(l: Seq<OverloadedFunctionV>, name: Seq<char>, v: VariantV)
    requires
        forall|k: int| 0 <= k < l.len() ==> l[k].name != name,
    ensures
        add_variant(l, name, v) =~= l.push(
            OverloadedFunctionV { name, variants: seq![v] },
        ),
    decreases l.len(),
{
    if l.len() > 0 {
        lemma_add_variant_new(l.drop_first(), name, v);
    }
}

proof fn lemma_add_variant_at(
    l: Seq<OverloadedFunctionV>,
    name: Seq<char>,
    v: VariantV,
    idx: int,
)
    requires
        0 <= idx < l.len(),
        l[idx].name == name,
        forall|k: int| 0 <= k < idx ==> l[k].name != name,
    ensures
        add_variant(l, name, v) =~= l.update(
            idx,
            OverloadedFunctionV { name, variants: l[idx].variants.push(v) },
        ),
    decreases l.len(),
{
    if idx > 0 {
        lemma_add_variant_at(l.drop_first(), name, v, idx - 1);
        assert(seq![l[0]] + l.drop_first().update(
            idx - 1,
            OverloadedFunctionV { name, variants: l[idx].variants.push(v) },
        ) =~= l.update(idx, OverloadedFunctionV { name, variants: l[idx].variants.push(v) }));
    }
}

/// The whole translated module model as a function of the decoded input.
pub open spec fn module_v(items: Seq<Json>, name: Seq<char>, evm_id: Seq<char>) -> ModuleV {
    ModuleV {
        name,
        evm_id,
        functions: simple_functions_v(items),
        overloaded_functions: overloaded_functions_v(items),
    }
}

/// Law (selector determinism): the translated module model is a function of
/// the decoded input document, the module name and the EVM id alone, so two
/// runs of the translation on one input agree on every function, selector
/// and selector hash, and the rendered output of a deterministic renderer is
/// byte-identical.
pub proof fn lemma_translation_deterministic(
    items: Seq<Json>,
    name: Seq<char>,
    evm_id: Seq<char>,
    m1: ModuleV,
    m2: ModuleV,
)
    requires
        m1 == module_v(items, name, evm_id),
        m2 == module_v(items, name, evm_id),
    ensures
        m1 == m2,
{
}

/// Finds the group already opened under `name`, if any: the position of the
/// first group carrying the name.
fn find_group(ovs: &Vec<OverloadedFunction>, name: &str) -> (r: Option<usize>)
    ensures
        (match r {
            Some(idx) => idx < ovs@.len() && ovs@[idx as int].name@ == name@ && (forall|k: int|
                0 <= k < idx ==> ovs@[k].name@ != name@),
            None => forall|k: int| 0 <= k < ovs@.len() ==> ovs@[k].name@ != name@,
        }),
{
    let mut idx: usize = 0;
    #[verifier::loop_isolation(false)]
    while idx < ovs.len()
        invariant
            idx <= ovs@.len(),
            forall|k: int| 0 <= k < idx ==> ovs@[k].name@ != name@,
        decreases ovs@.len() - idx,
    {
        if str_eq(ovs[idx].name.as_str(), name) {
            return Some(idx);
        }
        idx = idx + 1;
    }
    None
}

/// Builds the module model from a decoded ABI document: filters the items,
/// splits names into the simple and the overloaded bucket, and computes a
/// selector and its 4-byte hash for every surviving signature.
pub fn build_module(doc: &Json, module_name: &str, evm_id: &str) -> (r: Result<Module, Error>)
    ensures
        (match r {
            Ok(m) => first_error(spec_members(*doc)) is None && m@ == module_v(
                spec_members(*doc),
                module_name@,
                evm_id@,
            ),
            Err(e) => first_error(spec_members(*doc)) == Some(e@),
        }),
        r matches Ok(m) ==> (forall|a: int|
            0 <= a < m@.functions.len() ==> (#[trigger] m@.functions[a]).selector_hash.len()
                == 8),
        r matches Ok(m) ==> (forall|a: int, b: int|
            0 <= a < m@.overloaded_functions.len() && 0 <= b
                < m@.overloaded_functions[a].variants.len() ==> (
            #[trigger] m@.overloaded_functions[a].variants[b]).selector_hash.len() == 8),
{
    broadcast use vstd::seq_lib::group_filter_ensures;

    let empty_items: Vec<Json> = Vec::new();
    let items: &Vec<Json> = match doc {
        Json::Array(v) => v,
        _ => &empty_items,
    };
    proof {
        assert(spec_members(*doc) == items@);
    }

    // First pass: overload status is a property of the set of items sharing
    // a name, so names must all be read before any signature is translated.
    let mut i: usize = 0;
    #[verifier::loop_isolation(false)]
    while i < items.len()
        invariant
            i <= items@.len(),
            forall|k: int|
                0 <= k < i ==> !(kept_item(items@[k]) && item_name(items@[k]) is None),
        decreases items@.len() - i,
    {
        if is_kept(&items[i]) {
            if items[i].field("name").as_str().is_none() {
                proof {
                    lemma_name_scan(items@, i as int);
                }
                return Err(Error::MalformedAbi { item: i, field: "name".to_owned() });
            }
        }
        i = i + 1;
    }
    proof {
        lemma_name_scan(items@, items@.len() as int);
    }

    // Second pass: translate every kept item and file it in its bucket.
    let ghost full = items@;
    let mut functions: Vec<Function> = Vec::new();
    let mut ovs: Vec<OverloadedFunction> = Vec::new();
    let mut i: usize = 0;
    #[verifier::loop_isolation(false)]
    while i < items.len()
        invariant
            i <= items@.len(),
            forall|k: int|
                0 <= k < i ==> (kept_item(items@[k]) ==> first_param_error(
                    param_fields(items@[k]),
                    k,
                    0,
                ) is None),
            function_views(functions@) == items@.take(i as int).filter(
                simple_pred(full),
            ).map_values(to_function_v()),
            overloaded_views(ovs@) == group_variants(items@.take(i as int).filter(ov_pred(full))),
            forall|a: int|
                0 <= a < functions@.len() ==> (#[trigger] functions@[a]).selector_hash@.len()
                    == 8,
            forall|a: int, b: int|
                0 <= a < ovs@.len() && 0 <= b < ovs@[a].variants@.len() ==> (
                #[trigger] ovs@[a].variants@[b]).selector_hash@.len() == 8,
        decreases items@.len() - i,
    {
        let it = &items[i];
        let ghost prefix = items@.take(i as int);
        proof {
            assert(items@.take(i + 1) =~= prefix.push(items@[i as int]));
            prefix.lemma_filter_push(items@[i as int], simple_pred(full));
            prefix.lemma_filter_push(items@[i as int], ov_pred(full));
        }
        if is_kept(it) {
            let name: String = match it.field("name").as_str() {
                Some(s) => s.clone(),
                None => {
                    proof {
                        lemma_no_name_error(items@, 0, i as int);
                        assert(false);
                    }
                    return vstd::pervasive::unreached();
                },
            };
            let inputs = match extract_inputs(it, i) {
                Ok(v) => v,
                Err(e) => {
                    proof {
                        lemma_input_scan(items@, i as int);
                    }
                    return Err(e);
                },
            };
            let selector = selector_string(name.as_str(), &inputs);
            let selector_hash = selector_hash_string(selector.as_str());
            if count_kept_named(items, name.as_str()) >= 2 {
                let v = Variant { inputs, output: "bool".to_owned(), selector, selector_hash };
                proof {
                    reveal_strlit("bool");
                    assert(v@ == variant_v(items@[i as int]));
                    lemma_group_variants_push(prefix.filter(ov_pred(full)), items@[i as int]);
                }
                let ghost prev_ovs = ovs@;
                match find_group(&ovs, name.as_str()) {
                    Some(idx) => {
                        let mut group = ovs.remove(idx);
                        group.variants.push(v);
                        let ghost new_group = group;
                        ovs.insert(idx, group);
                        proof {
                            assert(ovs@ =~= prev_ovs.update(idx as int, new_group));
                            assert(new_group@ =~~= (OverloadedFunctionV {
                                name: name@,
                                variants: overloaded_views(prev_ovs)[idx as int].variants.push(
                                    variant_v(items@[i as int]),
                                ),
                            }));
                            assert(overloaded_views(ovs@) =~~= overloaded_views(prev_ovs).update(
                                idx as int,
                                new_group@,
                            ));
                            lemma_add_variant_at(
                                overloaded_views(prev_ovs),
                                name@,
                                variant_v(items@[i as int]),
                                idx as int,
                            );
                            assert(overloaded_views(ovs@) =~~= group_variants(
                                items@.take(i + 1).filter(ov_pred(full)),
                            ));
                        }
                    },
                    None => {
                        let mut variants: Vec<Variant> = Vec::new();
                        variants.push(v);
                        ovs.push(OverloadedFunction { name, variants });
                        proof {
                            lemma_add_variant_new(
                                overloaded_views(prev_ovs),
                                name@,
                                variant_v(items@[i as int]),
                            );
                            assert(ovs@.last()@ =~~= (OverloadedFunctionV {
                                name: name@,
                                variants: seq![variant_v(items@[i as int])],
                            }));
                            assert(overloaded_views(ovs@) =~~= overloaded_views(prev_ovs).push(
                                ovs@.last()@,
                            ));
                            assert(overloaded_views(ovs@) =~~= group_variants(
                                items@.take(i + 1).filter(ov_pred(full)),
                            ));
                        }
                    },
                }
            } else {
                let ghost prev_fns = functions@;
                let f = Function {
                    name,
                    inputs,
                    output: "bool".to_owned(),
                    selector,
                    selector_hash,
                };
                proof {
                    reveal_strlit("bool");
                    assert(f@ == function_v(items@[i as int]));
                }
                functions.push(f);
                proof {
                    assert(function_views(functions@) =~= function_views(prev_fns).push(
                        function_v(items@[i as int]),
                    ));
                    assert(function_views(functions@) =~= items@.take(i + 1).filter(
                        simple_pred(full),
                    ).map_values(to_function_v()));
                }
            }
        }
        i = i + 1;
    }
    proof {
        assert(items@.take(items@.len() as int) =~= items@);
        lemma_input_scan(items@, items@.len() as int);
    }
    let m = Module {
        name: module_name.to_owned(),
        evm_id: evm_id.to_owned(),
        functions,
        overloaded_functions: ovs,
    };
    proof {
        assert(m@ =~~= module_v(items@, module_name@, evm_id@));
        assert forall|a: int|
            0 <= a < m@.functions.len() implies (#[trigger] m@.functions[a]).selector_hash.len()
            == 8 by {
            assert(m@.functions[a] == functions@[a]@);
        }
        assert forall|a: int, b: int|
            0 <= a < m@.overloaded_functions.len() && 0 <= b
                < m@.overloaded_functions[a].variants.len() implies (
        #[trigger] m@.overloaded_functions[a].variants[b]).selector_hash.len() == 8 by {
            assert(m@.overloaded_functions[a] == ovs@[a]@);
            assert(m@.overloaded_functions[a].variants[b] == ovs@[a].variants@[b]@);
        }
    }
    Ok(m)
}

/// Law (selector distinctness): under one shared name, the selector string
/// determines the joined raw argument type texts, so two signatures of one
/// overloaded group whose ABI type lists differ in text get distinct
/// selectors. (Two textually identical signatures share a selector, in the
/// source description as much as here.)
pub proof fn lemma_selector_distinct(name: Seq<char>, ins1: Seq<InputV>, ins2: Seq<InputV>)
    requires
        selector_v(name, ins1) == selector_v(name, ins2),
    ensures
        join_with(evm_types(ins1), ","@) == join_with(evm_types(ins2), ","@),
{
    reveal_strlit("(");
    reveal_strlit(")");
    let j1 = join_with(evm_types(ins1), ","@);
    let j2 = join_with(evm_types(ins2), ","@);
    let sel = selector_v(name, ins1);
    assert(sel.len() == name.len() + 1 + j1.len() + 1);
    assert(selector_v(name, ins2).len() == name.len() + 1 + j2.len() + 1);
    assert(j1.len() == j2.len());
    assert(j1 =~= sel.subrange(name.len() as int + 1, (name.len() + 1 + j1.len()) as int));
    assert(j2 =~= sel.subrange(name.len() as int + 1, (name.len() + 1 + j2.len()) as int));
}

pub open spec fn named_pred(n: Seq<char>) -> spec_fn(Json) -> bool {
    |it: Json| item_name(it)->Some_0 == n
}

/// How many of these items carry the name, read without the kept filter.
pub open spec fn count_named(ks: Seq<Json>, n: Seq<char>) -> nat {
    ks.filter(named_pred(n)).len()
}

/// Whether some group in the list carries the name.
pub open spec fn has_group(l: Seq<OverloadedFunctionV>, n: Seq<char>) -> bool
    decreases l.len(),
{
    if l.len() == 0 {
        false
    } else if l[0].name == n {
        true
    } else {
        has_group(l.drop_first(), n)
    }
}

/// The variant count of the first group carrying the name, or zero.
pub open spec fn group_len(l: Seq<OverloadedFunctionV>, n: Seq<char>) -> nat
    decreases l.len(),
{
    if l.len() == 0 {
        0
    } else if l[0].name == n {
        l[0].variants.len()
    } else {
        group_len(l.drop_first(), n)
    }
}

/// No two groups in the list carry the same name.
pub open spec fn distinct_names(l: Seq<OverloadedFunctionV>) -> bool {
    forall|a: int, b: int| 0 <= a < b < l.len() ==> l[a].name != l[b].name
}

proof fn lemma_has_group_index(l: Seq<OverloadedFunctionV>, n: Seq<char>)
    ensures
        has_group(l, n) == exists|gi: int| 0 <= gi < l.len() && l[gi].name == n,
    decreases l.len(),
{
    if l.len() > 0 {
        lemma_has_group_index(l.drop_first(), n);
        if l[0].name == n {
            assert(0 <= 0 < l.len() && l[0].name == n);
        } else {
            if has_group(l.drop_first(), n) {
                let gi = choose|gi: int| 0 <= gi < l.drop_first().len() && l.drop_first()[gi].name
                    == n;
                assert(l[gi + 1].name == n);
            }
            if exists|gi: int| 0 <= gi < l.len() && l[gi].name == n {
                let gi = choose|gi: int| 0 <= gi < l.len() && l[gi].name == n;
                assert(l.drop_first()[gi - 1].name == n);
            }
        }
    }
}

proof fn lemma_group_len_absent(l: Seq<OverloadedFunctionV>, n: Seq<char>)
    requires
        !has_group(l, n),
    ensures
        group_len(l, n) == 0,
    decreases l.len(),
{
    if l.len() > 0 {
        lemma_group_len_absent(l.drop_first(), n);
    }
}

proof fn lemma_add_variant_has(l: Seq<OverloadedFunctionV>, name: Seq<char>, v: VariantV)
    ensures
        has_group(add_variant(l, name, v), name),
    decreases l.len(),
{
    if l.len() == 0 {
    } else if l[0].name == name {
    } else {
        lemma_add_variant_has(l.drop_first(), name, v);
        assert((seq![l[0]] + add_variant(l.drop_first(), name, v))[0] == l[0]);
        assert((seq![l[0]] + add_variant(l.drop_first(), name, v)).drop_first() =~= add_variant(
            l.drop_first(),
            name,
            v,
        ));
    }
}

proof fn lemma_add_variant_has_other(
    l: Seq<OverloadedFunctionV>,
    name: Seq<char>,
    v: VariantV,
    n: Seq<char>,
)
    requires
        n != name,
    ensures
        has_group(add_variant(l, name, v), n) == has_group(l, n),
    decreases l.len(),
{
    let l2 = add_variant(l, name, v);
    if l.len() == 0 {
        assert(l2 =~= seq![OverloadedFunctionV { name, variants: seq![v] }]);
        assert(l2[0].name == name);
        assert(l2.drop_first().len() == 0);
        assert(!has_group(l2.drop_first(), n));
        assert(!has_group(l2, n));
    } else if l[0].name == name {
        assert(l2 =~= seq![OverloadedFunctionV { name, variants: l[0].variants.push(v) }]
            + l.drop_first());
        assert(l2[0].name == name);
        assert(l2.drop_first() =~= l.drop_first());
        assert(has_group(l2, n) == has_group(l.drop_first(), n));
        assert(has_group(l, n) == has_group(l.drop_first(), n));
    } else {
        lemma_add_variant_has_other(l.drop_first(), name, v, n);
        assert(l2 =~= seq![l[0]] + add_variant(l.drop_first(), name, v));
        assert(l2[0] == l[0]);
        assert(l2.drop_first() =~= add_variant(l.drop_first(), name, v));
        assert(has_group(l2, n) == if l[0].name == n {
            true
        } else {
            has_group(l.drop_first(), n)
        });
    }
}

proof fn lemma_add_variant_len(
    l: Seq<OverloadedFunctionV>,
    name: Seq<char>,
    v: VariantV,
    n: Seq<char>,
)
    ensures
        group_len(add_variant(l, name, v), n) == if n == name {
            group_len(l, n) + 1
        } else {
            group_len(l, n)
        },
    decreases l.len(),
{
    let l2 = add_variant(l, name, v);
    if l.len() == 0 {
        assert(l2 =~= seq![OverloadedFunctionV { name, variants: seq![v] }]);
        assert(l2[0].name == name);
        assert(l2[0].variants.len() == 1);
        assert(l2.drop_first().len() == 0);
        if n == name {
            assert(group_len(l2, n) == 1);
        } else {
            assert(group_len(l2, n) == group_len(l2.drop_first(), n));
        }
    } else if l[0].name == name {
        assert(l2 =~= seq![OverloadedFunctionV { name, variants: l[0].variants.push(v) }]
            + l.drop_first());
        assert(l2[0].name == name);
        assert(l2[0].variants.len() == l[0].variants.len() + 1);
        assert(l2.drop_first() =~= l.drop_first());
        if n != name {
            assert(group_len(l2, n) == group_len(l.drop_first(), n));
            assert(group_len(l, n) == group_len(l.drop_first(), n));
        }
    } else {
        lemma_add_variant_len(l.drop_first(), name, v, n);
        assert(l2 =~= seq![l[0]] + add_variant(l.drop_first(), name, v));
        assert(l2[0] == l[0]);
        assert(l2.drop_first() =~= add_variant(l.drop_first(), name, v));
        if l[0].name == n {
            assert(group_len(l2, n) == l[0].variants.len());
        } else {
            assert(group_len(l2, n) == group_len(add_variant(l.drop_first(), name, v), n));
        }
    }
}

proof fn lemma_add_variant_distinct(l: Seq<OverloadedFunctionV>, name: Seq<char>, v: VariantV)
    requires
        distinct_names(l),
    ensures
        distinct_names(add_variant(l, name, v)),
    decreases l.len(),
{
    let l2 = add_variant(l, name, v);
    if l.len() == 0 {
    } else if l[0].name == name {
        assert forall|a: int, b: int| 0 <= a < b < l2.len() implies l2[a].name != l2[b].name by {
            assert(l2[a].name == l[a].name);
            assert(l2[b].name == l[b].name);
        }
    } else {
        assert(forall|a: int, b: int|
            0 <= a < b < l.drop_first().len() ==> l.drop_first()[a].name
                != l.drop_first()[b].name);
        lemma_add_variant_distinct(l.drop_first(), name, v);
        let rec = add_variant(l.drop_first(), name, v);
        assert(l2 =~= seq![l[0]] + rec);
        lemma_has_group_index(l.drop_first(), l[0].name);
        assert(!has_group(l.drop_first(), l[0].name));
        lemma_add_variant_has_other(l.drop_first(), name, v, l[0].name);
        lemma_has_group_index(rec, l[0].name);
        assert forall|a: int, b: int| 0 <= a < b < l2.len() implies l2[a].name != l2[b].name by {
            if a == 0 {
                assert(l2[b].name == rec[b - 1].name);
                assert(rec[b - 1].name != l[0].name);
            } else {
                assert(l2[a].name == rec[a - 1].name);
                assert(l2[b].name == rec[b - 1].name);
            }
        }
    }
}


proof fn lemma_group_len_at(l: Seq<OverloadedFunctionV>, gi: int)
    requires
        distinct_names(l),
        0 <= gi < l.len(),
    ensures
        group_len(l, l[gi].name) == l[gi].variants.len(),
    decreases l.len(),
{
    if gi > 0 {
        assert(l[0].name != l[gi].name);
        assert(forall|a: int, b: int|
            0 <= a < b < l.drop_first().len() ==> l.drop_first()[a].name
                != l.drop_first()[b].name);
        lemma_group_len_at(l.drop_first(), gi - 1);
    }
}

/// The grouping invariant: group names never repeat, a group exists for a
/// name exactly where some item carries it, and each group holds exactly one
/// variant per item carrying its name.
proof fn lemma_group_variants_invariant(ks: Seq<Json>)
    ensures
        distinct_names(group_variants(ks)),
        forall|n: Seq<char>| #[trigger]
            has_group(group_variants(ks), n) == (count_named(ks, n) > 0),
        forall|n: Seq<char>| #[trigger] group_len(group_variants(ks), n) == count_named(ks, n),
    decreases ks.len(),
{
    broadcast use vstd::seq_lib::group_filter_ensures;

    if ks.len() == 0 {
        assert forall|n: Seq<char>| #[trigger] count_named(ks, n) == 0 by {
            assert(ks.filter(named_pred(n)) =~= ks);
        }
    } else {
        let prev_ks = ks.drop_last();
        lemma_group_variants_invariant(prev_ks);
        let prev = group_variants(prev_ks);
        let name = item_name(ks.last())->Some_0;
        let v = variant_v(ks.last());
        lemma_group_variants_push(prev_ks, ks.last());
        let cur = group_variants(ks);
        assert(cur == add_variant(prev, name, v));
        lemma_add_variant_distinct(prev, name, v);
        assert forall|n: Seq<char>| #[trigger]
            group_len(cur, n) == count_named(ks, n) by {
            lemma_add_variant_len(prev, name, v, n);
            assert(prev_ks.push(ks.last()) =~= ks);
            prev_ks.lemma_filter_push(ks.last(), named_pred(n));
            if n == name {
                assert(named_pred(n)(ks.last()));
                assert(count_named(ks, n) == count_named(prev_ks, n) + 1);
            } else {
                assert(!named_pred(n)(ks.last()));
                assert(count_named(ks, n) == count_named(prev_ks, n));
            }
        }
        assert forall|n: Seq<char>| #[trigger]
            has_group(cur, n) == (count_named(ks, n) > 0) by {
            assert(prev_ks.push(ks.last()) =~= ks);
            prev_ks.lemma_filter_push(ks.last(), named_pred(n));
            if n == name {
                lemma_add_variant_has(prev, name, v);
                assert(named_pred(n)(ks.last()));
            } else {
                lemma_add_variant_has_other(prev, name, v, n);
                assert(!named_pred(n)(ks.last()));
            }
        }
    }
}

pub open spec fn simple_named(items: Seq<Json>, n: Seq<char>) -> spec_fn(Json) -> bool {
    |it: Json| simple_pred(items)(it) && named_kept(n)(it)
}

pub open spec fn ov_named(items: Seq<Json>, n: Seq<char>) -> spec_fn(Json) -> bool {
    |it: Json| ov_pred(items)(it) && named_pred(n)(it)
}

/// Law (overload partitioning): in the translated module model, a function
/// name appears either among the simple functions, exactly once, or as the
/// name of exactly one overloaded group holding at least two signatures —
/// never both.
pub proof fn lemma_overload_partition(items: Seq<Json>)
    requires
        first_name_error(items, 0) is None,
    ensures
        forall|a: int, b: int|
            0 <= a < b < simple_functions_v(items).len() ==> simple_functions_v(items)[a].name
                != simple_functions_v(items)[b].name,
        forall|a: int, b: int|
            0 <= a < simple_functions_v(items).len() && 0 <= b < overloaded_functions_v(
                items,
            ).len() ==> simple_functions_v(items)[a].name != overloaded_functions_v(
                items,
            )[b].name,
        forall|a: int, b: int|
            0 <= a < b < overloaded_functions_v(items).len() ==> overloaded_functions_v(
                items,
            )[a].name != overloaded_functions_v(items)[b].name,
        forall|b: int|
            0 <= b < overloaded_functions_v(items).len() ==> overloaded_functions_v(
                items,
            )[b].variants.len() >= 2,
{
    broadcast use vstd::seq_lib::group_filter_ensures;

    let fs = items.filter(simple_pred(items));
    let ks = items.filter(ov_pred(items));
    let gs = group_variants(ks);
    lemma_group_variants_invariant(ks);

    // A name of a simple function is the name of a kept, non-overloaded
    // item; a second simple function with the same name would make the name
    // overloaded.
    assert forall|a: int, b: int|
        0 <= a < b < simple_functions_v(items).len() implies simple_functions_v(items)[a].name
        != simple_functions_v(items)[b].name by {
        if simple_functions_v(items)[a].name == simple_functions_v(items)[b].name {
            let n = simple_functions_v(items)[a].name;
            assert(simple_pred(items)(fs[a]));
            assert(simple_pred(items)(fs[b]));
            assert(fs.contains(fs[a]));
            assert(fs.contains(fs[b]));
            items.lemma_filter_contains_rev(simple_pred(items), fs[a]);
            items.lemma_filter_contains_rev(simple_pred(items), fs[b]);
            let ia = choose|ia: int| 0 <= ia < items.len() && items[ia] == fs[a];
            let ib = choose|ib: int| 0 <= ib < items.len() && items[ib] == fs[b];
            lemma_no_name_error(items, 0, ia);
            lemma_no_name_error(items, 0, ib);
            assert(named_kept(n)(fs[a]));
            assert(named_kept(n)(fs[b]));
            lemma_filter_witness_two(fs, named_kept(n), a, b);
            lemma_filter_filter(items, simple_pred(items), named_kept(n), simple_named(items, n));
            lemma_filter_implies_len(items, simple_named(items, n), named_kept(n));
            assert(overload_count(items, n) >= 2);
            assert(!overloaded(items, n));
            assert(false);
        }
    }

    // Every group's name is overloaded; every simple function's name is not.
    assert forall|b: int|
        0 <= b < gs.len() implies overloaded(items, gs[b].name) && gs[b].variants.len() >= 2 by {
        let m = gs[b].name;
        lemma_has_group_index(gs, m);
        assert(has_group(gs, m));
        assert(count_named(ks, m) > 0);
        let e = ks.filter(named_pred(m))[0];
        assert(named_pred(m)(e));
        assert(ks.filter(named_pred(m)).contains(e));
        ks.lemma_filter_contains_rev(named_pred(m), e);
        assert(ks.contains(e));
        let ke = choose|ke: int| 0 <= ke < ks.len() && ks[ke] == e;
        assert(ov_pred(items)(e));
        ks.lemma_filter_contains_rev(named_pred(m), e);
        items.lemma_filter_contains_rev(ov_pred(items), e);
        assert(overloaded(items, m));

        // The group holds one variant per item carrying the name, and the
        // name being overloaded means at least two kept items carry it.
        lemma_group_len_at(gs, b);
        assert(gs[b].variants.len() == count_named(ks, m));
        lemma_filter_filter(items, ov_pred(items), named_pred(m), ov_named(items, m));
        assert(count_named(ks, m) == items.filter(ov_named(items, m)).len());
        assert forall|x: Json| #[trigger] items.contains(x) && named_kept(m)(x) implies ov_named(
            items,
            m,
        )(x) by {
            let ix = choose|ix: int| 0 <= ix < items.len() && items[ix] == x;
            lemma_no_name_error(items, 0, ix);
        }
        lemma_filter_implies_len(items, named_kept(m), ov_named(items, m));
        assert(items.filter(named_kept(m)).len() >= 2);
        assert(items.filter(ov_named(items, m)).len() >= items.filter(named_kept(m)).len());
    }

    assert forall|a: int, b: int|
        0 <= a < simple_functions_v(items).len() && 0 <= b < gs.len() implies simple_functions_v(
        items,
    )[a].name != gs[b].name by {
        assert(simple_pred(items)(fs[a]));
        assert(!overloaded(items, simple_functions_v(items)[a].name));
    }
}


/// Parses one Solidity type string and renders its Ink-side translation:
/// the renderer's `convert_type` formatter. The position fields of a parse
/// fault are zero here, the caller knowing no surrounding item.
pub fn translate_type_text(raw: &str) -> (r: Result<String, Error>)
    ensures
        (match r {
            Ok(t) => is_ascii_chars(raw@) && !hazardous_type_text(raw@) && (parsed_param_type(
                raw@,
            ) matches Some(pt) && t@ == ink_type_text(pt)),
            Err(e) => (!is_ascii_chars(raw@) || hazardous_type_text(raw@) || parsed_param_type(
                raw@,
            ) is None) && (e@ matches ErrorV::AbiTypeParse { raw: er, item, index } && er == raw@
                && item == 0 && index == 0),
        }),
{
    if !raw.is_ascii() || is_hazardous_type_text(raw) {
        return Err(Error::AbiTypeParse { raw: raw.to_owned(), item: 0, index: 0 });
    }
    match read_param_type(raw) {
        Some(t) => Ok(convert_type(&t)),
        None => Err(Error::AbiTypeParse { raw: raw.to_owned(), item: 0, index: 0 }),
    }
}

} // verus!
