//! The Ink-to-EVM direction: translation of Ink types into Solidity-side
//! type texts, with a registry cache keyed by the source-side type id. The
//! renderer asks for one id at a time; the mapper recurses through the type
//! graph, registers every translated sub-type, and fails without leaving a
//! partial entry where a type cannot be expressed.

use crate::error::Error;
use crate::ink::{lemma_resolve_index, resolvable, spec_resolve, InkEntry, InkField, InkPrimitive,
    InkTypeDef, InkTypes, InkVariant};
use crate::json::str_eq;
use crate::text::{dec_str, dec_string, join_strings, join_with};
use std::collections::HashMap;
use vstd::prelude::*;

verus! {

broadcast use vstd::std_specs::hash::group_hash_axioms;

/// How a translated type is written on the Solidity side: how a value of it
/// is referred to, an optional declaration of the type, an optional location
/// qualifier, and an optional encoder fragment for the source-side codec.
#[derive(Debug, PartialEq, Eq, Clone)]
pub struct EvmType {
    /// How the type should be defined in the source, for structs and enums;
    /// absent for types that are expressible inline.
    pub definition: Option<String>,
    /// How the type is written where a type name is expected.
    pub reference: String,
    /// A location qualifier such as `memory`, where declarations need one.
    pub modifier: Option<String>,
    /// How a value of the type is encoded into the source-side wire codec.
    pub encoder: Option<String>,
}

/// The mathematical shape of an `EvmType`.
#[verifier::ext_equal]
pub struct EvmTypeV {
    pub definition: Option<Seq<char>>,
    pub reference: Seq<char>,
    pub modifier: Option<Seq<char>>,
    pub encoder: Option<Seq<char>>,
}

impl View for EvmType {
    type V = EvmTypeV;

    open spec fn view(&self) -> EvmTypeV {
        EvmTypeV {
            definition: (match self.definition {
                Some(d) => Some(d@),
                None => None,
            }),
            reference: self.reference@,
            modifier: (match self.modifier {
                Some(m) => Some(m@),
                None => None,
            }),
            encoder: (match self.encoder {
                Some(e) => Some(e@),
                None => None,
            }),
        }
    }
}

/// The translated types seen so far, keyed by source-side type id.
#[derive(Debug)]
pub struct EvmTypeRegistry {
    mapping: HashMap<u32, EvmType>,
}

impl View for EvmTypeRegistry {
    type V = Map<u32, EvmType>;

    closed spec fn view(&self) -> Map<u32, EvmType> {
        self.mapping@
    }
}

impl EvmTypeRegistry {
    /// An empty registry; entries appear on demand during mapping.
    pub fn new() -> (r: Self)
        ensures
            r@ == Map::<u32, EvmType>::empty(),
    {
        EvmTypeRegistry { mapping: HashMap::new() }
    }

    /// Reads the entry registered under an id.
    pub fn lookup(&self, id: u32) -> (r: Option<&EvmType>)
        ensures
            (match r {
                Some(t) => self@.contains_key(id) && *t == self@[id],
                None => !self@.contains_key(id),
            }),
    {
        self.mapping.get(&id)
    }

    /// Borrows the entry registered under an id mutably: afterwards the
    /// registry holds, under the id, whatever the borrow held when it ended.
    pub fn lookup_mut(&mut self, id: u32) -> (r: &mut EvmType)
        requires
            old(self)@.contains_key(id),
        ensures
            *r == old(self)@[id],
            final(self)@ == old(self)@.insert(id, *final(r)),
    {
        match self.mapping.entry(id) {
            std::collections::hash_map::Entry::Occupied(o) => o.into_mut(),
            std::collections::hash_map::Entry::Vacant(_) => {
                proof {
                    assert(false);
                }
                vstd::pervasive::unreached()
            },
        }
    }

    /// Registers a translated type under an id.
    pub fn insert(&mut self, id: u32, ty: EvmType)
        ensures
            final(self)@ == old(self)@.insert(id, ty),
    {
        self.mapping.insert(id, ty);
    }

    /// Whether an id is registered; the renderer's template predicate.
    pub fn has_mapping(&self, id: u32) -> (r: bool)
        ensures
            r == self@.contains_key(id),
    {
        self.mapping.contains_key(&id)
    }
}

/// The Solidity-side reference text of an Ink scalar. The character kind has
/// no Solidity counterpart and makes the mapper fail, so no text stands for
/// it here.
pub open spec fn primitive_reference(p: InkPrimitive) -> Seq<char> {
    match p {
        InkPrimitive::Bool => "bool"@,
        InkPrimitive::Char => Seq::empty(),
        InkPrimitive::Str => "string"@,
        InkPrimitive::U8 => "uint8"@,
        InkPrimitive::U16 => "uint16"@,
        InkPrimitive::U32 => "uint32"@,
        InkPrimitive::U64 => "uint64"@,
        InkPrimitive::U128 => "uint128"@,
        InkPrimitive::U256 => "uint256"@,
        InkPrimitive::I8 => "int8"@,
        InkPrimitive::I16 => "int16"@,
        InkPrimitive::I32 => "int32"@,
        InkPrimitive::I64 => "int64"@,
        InkPrimitive::I128 => "int128"@,
        InkPrimitive::I256 => "int256"@,
    }
}

/// Renders the reference text of a scalar.
fn primitive_reference_string(p: InkPrimitive) -> (r: String)
    requires
        !(p is Char),
    ensures
        r@ == primitive_reference(p),
{
    proof {
        reveal_strlit("bool");
        reveal_strlit("string");
        reveal_strlit("uint8");
        reveal_strlit("uint16");
        reveal_strlit("uint32");
        reveal_strlit("uint64");
        reveal_strlit("uint128");
        reveal_strlit("uint256");
        reveal_strlit("int8");
        reveal_strlit("int16");
        reveal_strlit("int32");
        reveal_strlit("int64");
        reveal_strlit("int128");
        reveal_strlit("int256");
    }
    match p {
        InkPrimitive::Bool => "bool".to_owned(),
        InkPrimitive::Char => vstd::pervasive::unreached(),
        InkPrimitive::Str => "string".to_owned(),
        InkPrimitive::U8 => "uint8".to_owned(),
        InkPrimitive::U16 => "uint16".to_owned(),
        InkPrimitive::U32 => "uint32".to_owned(),
        InkPrimitive::U64 => "uint64".to_owned(),
        InkPrimitive::U128 => "uint128".to_owned(),
        InkPrimitive::U256 => "uint256".to_owned(),
        InkPrimitive::I8 => "int8".to_owned(),
        InkPrimitive::I16 => "int16".to_owned(),
        InkPrimitive::I32 => "int32".to_owned(),
        InkPrimitive::I64 => "int64".to_owned(),
        InkPrimitive::I128 => "int128".to_owned(),
        InkPrimitive::I256 => "int256".to_owned(),
    }
}

/// The reference text of an array type: the byte-array special case
/// `bytesN` for byte arrays of at most 32 elements, and `elem[N]` otherwise.
pub open spec fn array_reference(elem_ref: Seq<char>, len: u32) -> Seq<char> {
    if elem_ref == "uint8"@ && len <= 32 {
        "bytes"@ + dec_str(len as nat)
    } else {
        elem_ref + "["@ + dec_str(len as nat) + "]"@
    }
}

/// Renders the reference text of an array type.
fn array_reference_string(elem_ref: &str, len: u32) -> (r: String)
    ensures
        r@ == array_reference(elem_ref@, len),
{
    if str_eq(elem_ref, "uint8") && len <= 32 {
        let mut s = "bytes".to_owned();
        s.append(dec_string(len as u64).as_str());
        s
    } else {
        let mut s = elem_ref.to_owned();
        s.append("[");
        s.append(dec_string(len as u64).as_str());
        s.append("]");
        s
    }
}

/// The path segments joined into one Solidity identifier.
pub open spec fn path_text(path: Seq<Seq<char>>) -> Seq<char> {
    join_with(path, "_"@)
}

/// Joins path segments with a separator: `_` yields a Solidity-side name,
/// `::` a Rust-side one.
pub fn format_path(segments: &Vec<String>, sep: &str) -> (r: String)
    ensures
        r@ == join_with(segments@.map_values(|s: String| s@), sep@),
{
    join_strings(segments, sep)
}

/// The name a struct member is written under: the field's own name, or
/// `f0, f1, …` by position for anonymous fields.
pub open spec fn member_name(f: InkField, k: int) -> Seq<char> {
    match f.name {
        Some(n) => n@,
        None => "f"@ + dec_str(k as nat),
    }
}

/// The members of a struct declaration: name and reference text per field,
/// read from the registry.
pub open spec fn member_list(fields: Seq<InkField>, reg: Map<u32, EvmType>) -> Seq<
    (Seq<char>, Seq<char>),
> {
    Seq::new(fields.len(), |k: int| (member_name(fields[k], k), reg[fields[k].ty]@.reference))
}

/// One declaration line per member of a struct definition.
pub open spec fn member_lines(members: Seq<(Seq<char>, Seq<char>)>) -> Seq<char>
    decreases members.len(),
{
    if members.len() == 0 {
        Seq::empty()
    } else {
        "    "@ + members[0].1 + " "@ + members[0].0 + ";\n"@ + member_lines(members.drop_first())
    }
}

proof fn lemma_member_lines_push(members: Seq<(Seq<char>, Seq<char>)>, m: (Seq<char>, Seq<char>))
    ensures
        member_lines(members.push(m)) == member_lines(members) + "    "@ + m.1 + " "@ + m.0
            + ";\n"@,
    decreases members.len(),
{
    if members.len() == 0 {
        assert(members.push(m) =~= seq![m]);
        assert(members.push(m).drop_first() =~= Seq::<(Seq<char>, Seq<char>)>::empty());
        assert(member_lines(Seq::<(Seq<char>, Seq<char>)>::empty()) =~= Seq::<char>::empty());
        assert(member_lines(members) =~= Seq::<char>::empty());
        assert(member_lines(members.push(m)) =~= member_lines(members) + "    "@ + m.1 + " "@ + m.0
            + ";\n"@);
    } else {
        assert(members.push(m).drop_first() =~= members.drop_first().push(m));
        lemma_member_lines_push(members.drop_first(), m);
        assert(member_lines(members.push(m)) =~= member_lines(members) + "    "@ + m.1 + " "@ + m.0
            + ";\n"@);
    }
}

/// The struct declaration a composite or tuple type is materialised as.
pub open spec fn struct_definition(
    path: Seq<Seq<char>>,
    members: Seq<(Seq<char>, Seq<char>)>,
) -> Seq<char> {
    "struct "@ + path_text(path) + " {\n"@ + member_lines(members) + "}"@
}

/// One encoding statement per member of an encoder fragment.
pub open spec fn encoder_lines(members: Seq<(Seq<char>, Seq<char>)>) -> Seq<char>
    decreases members.len(),
{
    if members.len() == 0 {
        Seq::empty()
    } else {
        "    buffer = abi.encodePacked(buffer, value."@ + members[0].0 + ");\n"@ + encoder_lines(
            members.drop_first(),
        )
    }
}

proof fn lemma_encoder_lines_push(members: Seq<(Seq<char>, Seq<char>)>, m: (Seq<char>, Seq<char>))
    ensures
        encoder_lines(members.push(m)) == encoder_lines(members)
            + "    buffer = abi.encodePacked(buffer, value."@ + m.0 + ");\n"@,
    decreases members.len(),
{
    if members.len() == 0 {
        assert(members.push(m) =~= seq![m]);
        assert(members.push(m).drop_first() =~= Seq::<(Seq<char>, Seq<char>)>::empty());
        assert(encoder_lines(Seq::<(Seq<char>, Seq<char>)>::empty()) =~= Seq::<char>::empty());
        assert(encoder_lines(members) =~= Seq::<char>::empty());
        assert(encoder_lines(members.push(m)) =~= encoder_lines(members)
            + "    buffer = abi.encodePacked(buffer, value."@ + m.0 + ");\n"@);
    } else {
        assert(members.push(m).drop_first() =~= members.drop_first().push(m));
        lemma_encoder_lines_push(members.drop_first(), m);
        assert(encoder_lines(members.push(m)) =~= encoder_lines(members)
            + "    buffer = abi.encodePacked(buffer, value."@ + m.0 + ");\n"@);
    }
}

/// The encoder fragment of a composite type: it packs every member into the
/// source-side byte buffer, in declaration order.
pub open spec fn encoder_definition(
    path: Seq<Seq<char>>,
    members: Seq<(Seq<char>, Seq<char>)>,
) -> Seq<char> {
    "function encode_"@ + path_text(path) + "("@ + path_text(path)
        + " memory value) internal pure returns (bytes memory) {\n    bytes memory buffer;\n"@
        + encoder_lines(members) + "    return buffer;\n}"@
}

/// The C-style enumeration a variant type is materialised as; the variants'
/// fields have no Solidity counterpart and are discarded.
pub open spec fn enum_definition(path: Seq<Seq<char>>, names: Seq<Seq<char>>) -> Seq<char> {
    "enum "@ + path_text(path) + " { "@ + join_with(names, ", "@) + " }"@
}

/// Renders the struct declaration of a composite or tuple type.
fn struct_definition_string(path: &Vec<String>, members: &Vec<(String, String)>) -> (r: String)
    ensures
        r@ == struct_definition(
            path@.map_values(|s: String| s@),
            members@.map_values(|m: (String, String)| (m.0@, m.1@)),
        ),
{
    let ghost mviews = members@.map_values(|m: (String, String)| (m.0@, m.1@));
    let mut s = "struct ".to_owned();
    s.append(format_path(path, "_").as_str());
    s.append(" {\n");
    let ghost header = s@;
    let mut k: usize = 0;
    #[verifier::loop_isolation(false)]
    while k < members.len()
        invariant
            k <= members@.len(),
            mviews == members@.map_values(|m: (String, String)| (m.0@, m.1@)),
            s@ == header + member_lines(mviews.take(k as int)),
        decreases members@.len() - k,
    {
        s.append("    ");
        s.append(members[k].1.as_str());
        s.append(" ");
        s.append(members[k].0.as_str());
        s.append(";\n");
        proof {
            assert(mviews.take(k + 1) =~= mviews.take(k as int).push(mviews[k as int]));
            lemma_member_lines_push(mviews.take(k as int), mviews[k as int]);
        }
        k = k + 1;
    }
    s.append("}");
    proof {
        assert(mviews.take(mviews.len() as int) =~= mviews);
    }
    s
}

/// Renders the encoder fragment of a composite type.
fn encoder_definition_string(path: &Vec<String>, members: &Vec<(String, String)>) -> (r: String)
    ensures
        r@ == encoder_definition(
            path@.map_values(|s: String| s@),
            members@.map_values(|m: (String, String)| (m.0@, m.1@)),
        ),
{
    let ghost mviews = members@.map_values(|m: (String, String)| (m.0@, m.1@));
    let path_str = format_path(path, "_");
    let mut s = "function encode_".to_owned();
    s.append(path_str.as_str());
    s.append("(");
    s.append(path_str.as_str());
    s.append(" memory value) internal pure returns (bytes memory) {\n    bytes memory buffer;\n");
    let ghost header = s@;
    let mut k: usize = 0;
    #[verifier::loop_isolation(false)]
    while k < members.len()
        invariant
            k <= members@.len(),
            mviews == members@.map_values(|m: (String, String)| (m.0@, m.1@)),
            s@ == header + encoder_lines(mviews.take(k as int)),
        decreases members@.len() - k,
    {
        s.append("    buffer = abi.encodePacked(buffer, value.");
        s.append(members[k].0.as_str());
        s.append(");\n");
        proof {
            assert(mviews.take(k + 1) =~= mviews.take(k as int).push(mviews[k as int]));
            lemma_encoder_lines_push(mviews.take(k as int), mviews[k as int]);
        }
        k = k + 1;
    }
    s.append("    return buffer;\n}");
    proof {
        assert(mviews.take(mviews.len() as int) =~= mviews);
    }
    s
}

/// The views of a list of strings.
pub open spec fn str_views(p: Seq<String>) -> Seq<Seq<char>> {
    p.map_values(|s: String| s@)
}

/// The ids a type definition refers to directly. A variant's fields are
/// discarded by the translation, so a variant refers to nothing.
pub open spec fn def_refs(def: InkTypeDef) -> Seq<u32> {
    match def {
        InkTypeDef::Primitive(_) => Seq::empty(),
        InkTypeDef::Array { len: _, elem } => seq![elem],
        InkTypeDef::Tuple(elems) => elems@,
        InkTypeDef::Composite { fields } => fields@.map_values(|f: InkField| f.ty),
        InkTypeDef::Variant { variants: _ } => Seq::empty(),
        InkTypeDef::Unsupported => Seq::empty(),
    }
}

/// Whether the declared discriminants are the contiguous prefix 0, 1, 2, …
pub open spec fn contiguous_indices(vs: Seq<InkVariant>) -> bool {
    forall|k: int| 0 <= k < vs.len() ==> (#[trigger] vs[k].index) as int == k
}

/// The declared variant names, in declaration order.
pub open spec fn variant_names(vs: Seq<InkVariant>) -> Seq<Seq<char>> {
    vs.map_values(|v: InkVariant| v.name@)
}

/// A type expressible inline: a reference text and nothing else.
pub open spec fn inline_type_v(reference: Seq<char>) -> EvmTypeV {
    EvmTypeV { definition: None, reference, modifier: None, encoder: None }
}

/// The translation of a composite type: a struct declaration, a reference by
/// the joined path, the `memory` location qualifier, and an encoder.
pub open spec fn composite_type_v(
    path: Seq<Seq<char>>,
    members: Seq<(Seq<char>, Seq<char>)>,
) -> EvmTypeV {
    EvmTypeV {
        definition: Some(struct_definition(path, members)),
        reference: path_text(path),
        modifier: Some("memory"@),
        encoder: Some(encoder_definition(path, members)),
    }
}

/// The translation of a tuple type: a struct declaration as for a composite,
/// with the location qualifier carried inline in the reference.
pub open spec fn tuple_type_v(
    path: Seq<Seq<char>>,
    members: Seq<(Seq<char>, Seq<char>)>,
) -> EvmTypeV {
    EvmTypeV {
        definition: Some(struct_definition(path, members)),
        reference: path_text(path) + " memory"@,
        modifier: None,
        encoder: None,
    }
}

/// The translation of a variant type: a C-style enumeration.
pub open spec fn variant_type_v(path: Seq<Seq<char>>, names: Seq<Seq<char>>) -> EvmTypeV {
    EvmTypeV {
        definition: Some(enum_definition(path, names)),
        reference: path_text(path),
        modifier: None,
        encoder: None,
    }
}

/// The members of a tuple's struct declaration: every element anonymous,
/// named by position.
pub open spec fn tuple_members(elems: Seq<u32>, reg: Map<u32, EvmType>) -> Seq<
    (Seq<char>, Seq<char>),
> {
    Seq::new(elems.len(), |k: int| ("f"@ + dec_str(k as nat), reg[elems[k]]@.reference))
}

/// Every path segment carries at least one character; a name joined from
/// such a path is never empty.
pub open spec fn path_segments_ok(p: Seq<String>) -> bool {
    forall|k: int| 0 <= k < p.len() ==> (#[trigger] p[k])@.len() > 0
}

/// Decides whether every path segment is non-empty.
fn segments_nonempty(path: &Vec<String>) -> (r: bool)
    ensures
        r == path_segments_ok(path@),
{
    let mut k: usize = 0;
    #[verifier::loop_isolation(false)]
    while k < path.len()
        invariant
            k <= path@.len(),
            forall|j: int| 0 <= j < k ==> (#[trigger] path@[j])@.len() > 0,
        decreases path@.len() - k,
    {
        if path[k].as_str().is_empty() {
            return false;
        }
        k = k + 1;
    }
    true
}

/// What a correct registry entry for `id` holds, with sub-type references
/// read from the registry: the content contract of the mapper.
pub open spec fn entry_value_ok(
    types: Seq<InkEntry>,
    reg: Map<u32, EvmType>,
    id: u32,
    t: EvmTypeV,
) -> bool {
    resolvable(types, id) && {
        let entry = spec_resolve(types, id)->Some_0;
        match entry.def {
            InkTypeDef::Primitive(p) => !(p is Char) && t == inline_type_v(
                primitive_reference(p),
            ),
            InkTypeDef::Array { len, elem } => reg.contains_key(elem) && t == inline_type_v(
                array_reference(reg[elem]@.reference, len),
            ),
            InkTypeDef::Tuple(elems) => (forall|k: int|
                0 <= k < elems@.len() ==> reg.contains_key(#[trigger] elems@[k])) && t
                == tuple_type_v(str_views(entry.path@), tuple_members(elems@, reg)),
            InkTypeDef::Composite { fields } => entry.path@.len() > 0 && path_segments_ok(
                entry.path@,
            ) && (forall|k: int|
                0 <= k < fields@.len() ==> reg.contains_key(#[trigger] fields@[k].ty)) && t
                == composite_type_v(str_views(entry.path@), member_list(fields@, reg)),
            InkTypeDef::Variant { variants } => entry.path@.len() > 0 && path_segments_ok(
                entry.path@,
            ) && contiguous_indices(variants@) && t == variant_type_v(
                str_views(entry.path@),
                variant_names(variants@),
            ),
            InkTypeDef::Unsupported => false,
        }
    }
}

/// The registry invariant: every registered entry is a correct translation
/// of its type, with every directly referenced id registered too. A fresh
/// registry satisfies it, and the translating methods preserve it; only
/// writing through `lookup_mut` can break it.
pub open spec fn reg_ok(types: Seq<InkEntry>, reg: Map<u32, EvmType>) -> bool {
    forall|id: u32| #[trigger] reg.contains_key(id) ==> entry_value_ok(types, reg, id, reg[id]@)
}

/// A correct entry stays correct when the registry grows around it.
proof fn lemma_entry_value_ok_mono(
    types: Seq<InkEntry>,
    reg1: Map<u32, EvmType>,
    reg2: Map<u32, EvmType>,
    id: u32,
    t: EvmTypeV,
)
    requires
        entry_value_ok(types, reg1, id, t),
        forall|k: u32| #[trigger]
            reg1.contains_key(k) ==> reg2.contains_key(k) && reg2[k] == reg1[k],
    ensures
        entry_value_ok(types, reg2, id, t),
{
    let entry = spec_resolve(types, id)->Some_0;
    match entry.def {
        InkTypeDef::Tuple(elems) => {
            assert(tuple_members(elems@, reg2) =~= tuple_members(elems@, reg1));
        },
        InkTypeDef::Composite { fields } => {
            assert(member_list(fields@, reg2) =~= member_list(fields@, reg1));
        },
        _ => {},
    }
}

/// Registering a correct entry keeps the whole registry correct.
proof fn lemma_reg_ok_insert(types: Seq<InkEntry>, reg: Map<u32, EvmType>, id: u32, t: EvmType)
    requires
        reg_ok(types, reg),
        !reg.contains_key(id),
        entry_value_ok(types, reg, id, t@),
    ensures
        reg_ok(types, reg.insert(id, t)),
{
    let reg2 = reg.insert(id, t);
    assert forall|k: u32| #[trigger] reg2.contains_key(k) implies entry_value_ok(
        types,
        reg2,
        k,
        reg2[k]@,
    ) by {
        if k == id {
            lemma_entry_value_ok_mono(types, reg, reg2, id, t@);
        } else {
            lemma_entry_value_ok_mono(types, reg, reg2, k, reg[k]@);
        }
    }
}

/// The recursion path: ids currently being translated, each declared once.
pub open spec fn wf_visiting(types: Seq<InkEntry>, vis: Seq<u32>) -> bool {
    vis.no_duplicates() && forall|k: int|
        0 <= k < vis.len() ==> resolvable(types, #[trigger] vis[k])
}

/// A duplicate-free path of declared ids is no longer than the registry, so
/// the remaining depth bounds the recursion.
proof fn lemma_visiting_bound(types: Seq<InkEntry>, vis: Seq<u32>)
    requires
        wf_visiting(types, vis),
    ensures
        vis.len() <= types.len(),
{
    broadcast use vstd::seq_lib::seq_to_set_is_finite;
    broadcast use vstd::set::group_set_axioms;

    let ids = types.map_values(|e: InkEntry| e.id);
    assert forall|v: u32| #[trigger] vis.to_set().contains(v) implies ids.to_set().contains(
        v,
    ) by {
        let k = choose|k: int| 0 <= k < vis.len() && vis[k] == v;
        lemma_resolve_index(types, v);
        let j = choose|j: int| 0 <= j < types.len() && types[j].id == v;
        assert(ids[j] == v);
        assert(ids.contains(v));
    }
    vis.unique_seq_to_set();
    ids.lemma_cardinality_of_set();
    vstd::set_lib::lemma_len_subset(vis.to_set(), ids.to_set());
}

/// A sufficient condition for the mapper to succeed on an id within the
/// given recursion budget: the id is either translated already (`done`), or
/// declared, expressible, well shaped, and so on recursively through every
/// type it refers to. `avoid` carries the ids further up the same chain of
/// references, so a condition that holds from an empty `avoid` rules out
/// circular references.
pub open spec fn mappable(
    types: Seq<InkEntry>,
    done: Set<u32>,
    avoid: Set<u32>,
    id: u32,
    fuel: nat,
) -> bool
    decreases fuel, 0int, 0int,
{
    !avoid.contains(id) && (done.contains(id) || (fuel > 0 && resolvable(types, id) && {
        let entry = spec_resolve(types, id)->Some_0;
        match entry.def {
            InkTypeDef::Primitive(p) => !(p is Char),
            InkTypeDef::Array { len: _, elem } => mappable(
                types,
                done,
                avoid.insert(id),
                elem,
                (fuel - 1) as nat,
            ),
            InkTypeDef::Tuple(elems) => mappable_all(
                types,
                done,
                avoid.insert(id),
                elems@,
                (fuel - 1) as nat,
            ),
            InkTypeDef::Composite { fields } => entry.path@.len() > 0 && path_segments_ok(
                entry.path@,
            ) && mappable_all(
                types,
                done,
                avoid.insert(id),
                fields@.map_values(|f: InkField| f.ty),
                (fuel - 1) as nat,
            ),
            InkTypeDef::Variant { variants } => entry.path@.len() > 0 && path_segments_ok(
                entry.path@,
            ) && contiguous_indices(variants@),
            InkTypeDef::Unsupported => false,
        }
    }))
}

/// `mappable`, over every id in a list.
pub open spec fn mappable_all(
    types: Seq<InkEntry>,
    done: Set<u32>,
    avoid: Set<u32>,
    ids: Seq<u32>,
    fuel: nat,
) -> bool
    decreases fuel, 1int, ids.len(),
{
    ids.len() == 0 || (mappable(types, done, avoid, ids[0], fuel) && mappable_all(
        types,
        done,
        avoid,
        ids.drop_first(),
        fuel,
    ))
}

/// A mappable id stays mappable as more types get translated.
proof fn lemma_mappable_mono(
    types: Seq<InkEntry>,
    d1: Set<u32>,
    d2: Set<u32>,
    avoid: Set<u32>,
    id: u32,
    fuel: nat,
)
    requires
        mappable(types, d1, avoid, id, fuel),
        d1.subset_of(d2),
    ensures
        mappable(types, d2, avoid, id, fuel),
    decreases fuel, 0int, 0int,
{
    if !d1.contains(id) && fuel > 0 && resolvable(types, id) {
        let entry = spec_resolve(types, id)->Some_0;
        match entry.def {
            InkTypeDef::Array { len: _, elem } => {
                lemma_mappable_mono(types, d1, d2, avoid.insert(id), elem, (fuel - 1) as nat);
            },
            InkTypeDef::Tuple(elems) => {
                lemma_mappable_all_mono(types, d1, d2, avoid.insert(id), elems@, (fuel - 1) as nat);
            },
            InkTypeDef::Composite { fields } => {
                lemma_mappable_all_mono(
                    types,
                    d1,
                    d2,
                    avoid.insert(id),
                    fields@.map_values(|f: InkField| f.ty),
                    (fuel - 1) as nat,
                );
            },
            _ => {},
        }
    }
}

proof fn lemma_mappable_all_mono(
    types: Seq<InkEntry>,
    d1: Set<u32>,
    d2: Set<u32>,
    avoid: Set<u32>,
    ids: Seq<u32>,
    fuel: nat,
)
    requires
        mappable_all(types, d1, avoid, ids, fuel),
        d1.subset_of(d2),
    ensures
        mappable_all(types, d2, avoid, ids, fuel),
    decreases fuel, 1int, ids.len(),
{
    if ids.len() > 0 {
        lemma_mappable_mono(types, d1, d2, avoid, ids[0], fuel);
        lemma_mappable_all_mono(types, d1, d2, avoid, ids.drop_first(), fuel);
    }
}

/// Every id of a mappable list is mappable.
proof fn lemma_mappable_all_index(
    types: Seq<InkEntry>,
    done: Set<u32>,
    avoid: Set<u32>,
    ids: Seq<u32>,
    fuel: nat,
    k: int,
)
    requires
        mappable_all(types, done, avoid, ids, fuel),
        0 <= k < ids.len(),
    ensures
        mappable(types, done, avoid, ids[k], fuel),
    decreases k,
{
    if k > 0 {
        lemma_mappable_all_index(types, done, avoid, ids.drop_first(), fuel, k - 1);
    }
}

/// Extending the path by a fresh declared id keeps it well formed.
proof fn lemma_wf_push(types: Seq<InkEntry>, vis: Seq<u32>, id: u32)
    requires
        wf_visiting(types, vis),
        !vis.contains(id),
        resolvable(types, id),
    ensures
        wf_visiting(types, vis.push(id)),
{
    let v2 = vis.push(id);
    assert forall|i: int, j: int|
        0 <= i < v2.len() && 0 <= j < v2.len() && i != j implies v2[i] != v2[j] by {
        if i < vis.len() && j < vis.len() {
            assert(vis[i] != vis[j]);
        } else if i < vis.len() {
            if vis[i] == id {
                assert(vis.contains(id));
            }
        } else {
            if vis[j] == id {
                assert(vis.contains(id));
            }
        }
    }
}

/// Decides whether an id lies on the current recursion path.
fn contains_id(vis: &Vec<u32>, id: u32) -> (r: bool)
    ensures
        r == vis@.contains(id),
{
    let mut k: usize = 0;
    #[verifier::loop_isolation(false)]
    while k < vis.len()
        invariant
            k <= vis@.len(),
            forall|j: int| 0 <= j < k ==> vis@[j] != id,
        decreases vis@.len() - k,
    {
        if vis[k] == id {
            return true;
        }
        k = k + 1;
    }
    false
}

/// Copies the recursion path and appends one id.
fn push_copy(vis: &Vec<u32>, id: u32) -> (r: Vec<u32>)
    ensures
        r@ == vis@.push(id),
{
    let mut r: Vec<u32> = Vec::new();
    let mut k: usize = 0;
    #[verifier::loop_isolation(false)]
    while k < vis.len()
        invariant
            k <= vis@.len(),
            r@ =~= vis@.take(k as int),
        decreases vis@.len() - k,
    {
        r.push(vis[k]);
        proof {
            assert(r@ =~= vis@.take(k + 1));
        }
        k = k + 1;
    }
    proof {
        assert(vis@.take(vis@.len() as int) =~= vis@);
    }
    r.push(id);
    r
}

/// Renders the enumeration declaration of a variant type.
fn enum_definition_string(path: &Vec<String>, names: &Vec<String>) -> (r: String)
    ensures
        r@ == enum_definition(
            path@.map_values(|s: String| s@),
            names@.map_values(|s: String| s@),
        ),
{
    let mut s = "enum ".to_owned();
    s.append(format_path(path, "_").as_str());
    s.append(" { ");
    s.append(join_strings(names, ", ").as_str());
    s.append(" }");
    s
}

/// The slot of a translated type that a template asks for.
#[derive(Debug, Clone, Copy, PartialEq, Eq, Structural)]
pub enum TypeSlot {
    Reference,
    Definition,
    Modifier,
    Encoder,
}

/// The text a template receives for one slot: absent slots read as empty.
pub open spec fn slot_text(t: EvmTypeV, slot: TypeSlot) -> Seq<char> {
    match slot {
        TypeSlot::Reference => t.reference,
        TypeSlot::Definition => (match t.definition {
            Some(d) => d,
            None => Seq::empty(),
        }),
        TypeSlot::Modifier => (match t.modifier {
            Some(m) => m,
            None => Seq::empty(),
        }),
        TypeSlot::Encoder => (match t.encoder {
            Some(e) => e,
            None => Seq::empty(),
        }),
    }
}

impl EvmTypeRegistry {
    /// Translates the type under an id and registers every translated
    /// sub-type on the way; the id's own entry is left for the caller to
    /// file. `visiting` is the recursion path: meeting an id again on it is
    /// a circular type reference and fails.
    fn convert_entry(&mut self, types: &InkTypes, id: u32, visiting: &Vec<u32>) -> (r: Result<
        EvmType,
        Error,
    >)
        requires
            reg_ok(types.types@, old(self)@),
            wf_visiting(types.types@, visiting@),
        ensures
            reg_ok(types.types@, final(self)@),
            forall|k: u32| #[trigger]
                old(self)@.contains_key(k) ==> final(self)@.contains_key(k) && final(self)@[k]
                    == old(self)@[k],
            forall|v: u32|
                (visiting@.contains(v) || v == id) && !old(self)@.contains_key(v) ==> !(
                #[trigger] final(self)@.contains_key(v)),
            r matches Ok(t) ==> entry_value_ok(types.types@, final(self)@, id, t@),
            r is Ok ==> !visiting@.contains(id),
            !resolvable(types.types@, id) ==> r is Err,
            visiting@.contains(id) ==> (r matches Err(e) && e is CyclicType),
            !visiting@.contains(id) ==> ((spec_resolve(types.types@, id) matches Some(entry)
                && entry.def is Unsupported) ==> (r matches Err(e) && e is Metadata)),
            !visiting@.contains(id) ==> ((spec_resolve(types.types@, id) matches Some(entry)
                && entry.def matches InkTypeDef::Primitive(p) && p is Char) ==> (r matches Err(e)
                && e is Metadata)),
            !visiting@.contains(id) ==> ((spec_resolve(types.types@, id) matches Some(entry)
                && entry.def matches InkTypeDef::Variant { variants } && !contiguous_indices(
                variants@,
            )) ==> (r matches Err(e) && e is Metadata)),
            mappable(
                types.types@,
                old(self)@.dom(),
                visiting@.to_set(),
                id,
                (types.types@.len() - visiting@.len()) as nat,
            ) ==> r is Ok,
            r matches Err(e) ==> (e is Metadata || e is CyclicType),
        decreases types.types@.len() - visiting@.len(), 0int,
    {
        let ghost done0 = old(self)@.dom();
        let ghost avoid0 = visiting@.to_set();
        let ghost fuel0 = (types.types@.len() - visiting@.len()) as nat;
        if contains_id(visiting, id) {
            proof {
                assert(avoid0.contains(id));
                assert(!mappable(types.types@, done0, avoid0, id, fuel0));
            }
            let ids = push_copy(visiting, id);
            return Err(Error::CyclicType { ids });
        }
        let entry = match types.resolve(id) {
            Some(e) => e,
            None => {
                proof {
                    if mappable(types.types@, done0, avoid0, id, fuel0) {
                        if done0.contains(id) {
                            assert(entry_value_ok(types.types@, old(self)@, id, old(self)@[id]@));
                        }
                        assert(false);
                    }
                }
                let mut m = "unknown type id ".to_owned();
                m.append(dec_string(id as u64).as_str());
                return Err(Error::Metadata(m));
            },
        };
        proof {
            lemma_wf_push(types.types@, visiting@, id);
            lemma_visiting_bound(types.types@, visiting@.push(id));
        }
        match &entry.def {
            InkTypeDef::Primitive(p) => {
                match p {
                    InkPrimitive::Char => {
                        proof {
                            if mappable(types.types@, done0, avoid0, id, fuel0) {
                                if done0.contains(id) {
                                    assert(entry_value_ok(
                                        types.types@,
                                        old(self)@,
                                        id,
                                        old(self)@[id]@,
                                    ));
                                }
                                assert(false);
                            }
                        }
                        Err(
                            Error::Metadata(
                                "the character type has no Solidity counterpart".to_owned(),
                            ),
                        )
                    },
                    _ => {
                        let t = EvmType {
                            definition: None,
                            reference: primitive_reference_string(*p),
                            modifier: None,
                            encoder: None,
                        };
                        proof {
                            assert(t@ =~~= inline_type_v(primitive_reference(*p)));
                        }
                        Ok(t)
                    },
                }
            },
            InkTypeDef::Array { len, elem } => {
                let extended = push_copy(visiting, id);
                proof {
                    assert forall|v: u32| visiting@.contains(v) || v == id implies extended@.contains(
                        v,
                    ) by {
                        if visiting@.contains(v) {
                            let k = choose|k: int| 0 <= k < visiting@.len() && visiting@[k] == v;
                            assert(extended@[k] == v);
                        } else {
                            assert(extended@[visiting@.len() as int] == v);
                        }
                    }
                }
                let ghost pre = self@;
                let elem_ref = match self.reference_of(types, *elem, &extended) {
                    Ok(s) => s,
                    Err(e) => {
                        proof {
                            if mappable(types.types@, done0, avoid0, id, fuel0) {
                                if done0.contains(id) {
                                    assert(entry_value_ok(
                                        types.types@,
                                        old(self)@,
                                        id,
                                        old(self)@[id]@,
                                    ));
                                    assert(pre.contains_key(*elem));
                                } else {
                                    visiting@.lemma_push_to_set_commute(id);
                                    assert(extended@.to_set() =~= avoid0.insert(id));
                                    assert(mappable(
                                        types.types@,
                                        pre.dom(),
                                        extended@.to_set(),
                                        *elem,
                                        (types.types@.len() - extended@.len()) as nat,
                                    ));
                                }
                                assert(false);
                            }
                        }
                        return Err(e);
                    },
                };
                let t = EvmType {
                    definition: None,
                    reference: array_reference_string(elem_ref.as_str(), *len),
                    modifier: None,
                    encoder: None,
                };
                proof {
                    assert(t@ =~~= inline_type_v(
                        array_reference(final(self)@[*elem]@.reference, *len),
                    ));
                }
                Ok(t)
            },
            InkTypeDef::Tuple(elems) => {
                let extended = push_copy(visiting, id);
                proof {
                    assert forall|v: u32| visiting@.contains(v) || v == id implies extended@.contains(
                        v,
                    ) by {
                        if visiting@.contains(v) {
                            let k = choose|k: int| 0 <= k < visiting@.len() && visiting@[k] == v;
                            assert(extended@[k] == v);
                        } else {
                            assert(extended@[visiting@.len() as int] == v);
                        }
                    }
                }
                let ghost reg0 = self@;
                let mut members: Vec<(String, String)> = Vec::new();
                let mut k: usize = 0;
                #[verifier::loop_isolation(false)]
                while k < elems.len()
                    invariant
                        k <= elems@.len(),
                        members@.len() == k,
                        reg_ok(types.types@, self@),
                        forall|kk: u32| #[trigger]
                            reg0.contains_key(kk) ==> self@.contains_key(kk) && self@[kk]
                                == reg0[kk],
                        forall|v: u32|
                            extended@.contains(v) && !reg0.contains_key(v) ==> !(#[trigger] self@.contains_key(v)),
                        forall|j: int|
                            0 <= j < k ==> self@.contains_key(#[trigger] elems@[j])
                                && members@[j].0@ == "f"@ + dec_str(j as nat) && members@[j].1@
                                == self@[elems@[j]]@.reference,
                    decreases elems@.len() - k,
                {
                    let ghost pre = self@;
                    let r = match self.reference_of(types, elems[k], &extended) {
                        Ok(s) => s,
                        Err(e) => {
                            proof {
                                if mappable(types.types@, done0, avoid0, id, fuel0) {
                                    if done0.contains(id) {
                                        assert(entry_value_ok(
                                            types.types@,
                                            old(self)@,
                                            id,
                                            old(self)@[id]@,
                                        ));
                                        assert(old(self)@.contains_key(elems@[k as int]));
                                        assert(pre.contains_key(elems@[k as int]));
                                    } else {
                                        visiting@.lemma_push_to_set_commute(id);
                                        assert(extended@.to_set() =~= avoid0.insert(id));
                                        lemma_mappable_all_index(
                                            types.types@,
                                            done0,
                                            extended@.to_set(),
                                            elems@,
                                            (fuel0 - 1) as nat,
                                            k as int,
                                        );
                                        assert(done0.subset_of(pre.dom()));
                                        lemma_mappable_mono(
                                            types.types@,
                                            done0,
                                            pre.dom(),
                                            extended@.to_set(),
                                            elems@[k as int],
                                            (fuel0 - 1) as nat,
                                        );
                                        assert(mappable(
                                            types.types@,
                                            pre.dom(),
                                            extended@.to_set(),
                                            elems@[k as int],
                                            (types.types@.len() - extended@.len()) as nat,
                                        ));
                                    }
                                    assert(false);
                                }
                            }
                            return Err(e);
                        },
                    };
                    let mut name = "f".to_owned();
                    name.append(dec_string(k as u64).as_str());
                    proof {
                        reveal_strlit("f");
                    }
                    members.push((name, r));
                    k = k + 1;
                }
                let mut reference = format_path(&entry.path, "_");
                reference.append(" memory");
                let definition = struct_definition_string(&entry.path, &members);
                let t = EvmType {
                    definition: Some(definition),
                    reference,
                    modifier: None,
                    encoder: None,
                };
                proof {
                    reveal_strlit(" memory");
                    reveal_strlit("_");
                    assert(members@.map_values(|m: (String, String)| (m.0@, m.1@)) =~= tuple_members(
                        elems@,
                        self@,
                    ));
                    assert(t@ =~~= tuple_type_v(
                        str_views(entry.path@),
                        tuple_members(elems@, self@),
                    ));
                }
                Ok(t)
            },
            InkTypeDef::Composite { fields } => {
                if entry.path.len() == 0 || !segments_nonempty(&entry.path) {
                    proof {
                        if mappable(types.types@, done0, avoid0, id, fuel0) {
                            if done0.contains(id) {
                                assert(entry_value_ok(
                                    types.types@,
                                    old(self)@,
                                    id,
                                    old(self)@[id]@,
                                ));
                            }
                            assert(false);
                        }
                    }
                    return Err(
                        Error::Metadata(
                            "a composite type has no path or an empty path segment".to_owned(),
                        ),
                    );
                }
                let extended = push_copy(visiting, id);
                proof {
                    assert forall|v: u32| visiting@.contains(v) || v == id implies extended@.contains(
                        v,
                    ) by {
                        if visiting@.contains(v) {
                            let k = choose|k: int| 0 <= k < visiting@.len() && visiting@[k] == v;
                            assert(extended@[k] == v);
                        } else {
                            assert(extended@[visiting@.len() as int] == v);
                        }
                    }
                }
                let ghost reg0 = self@;
                let mut members: Vec<(String, String)> = Vec::new();
                let mut k: usize = 0;
                #[verifier::loop_isolation(false)]
                while k < fields.len()
                    invariant
                        k <= fields@.len(),
                        members@.len() == k,
                        reg_ok(types.types@, self@),
                        forall|kk: u32| #[trigger]
                            reg0.contains_key(kk) ==> self@.contains_key(kk) && self@[kk]
                                == reg0[kk],
                        forall|v: u32|
                            extended@.contains(v) && !reg0.contains_key(v) ==> !(#[trigger] self@.contains_key(v)),
                        forall|j: int|
                            0 <= j < k ==> self@.contains_key(#[trigger] fields@[j].ty)
                                && members@[j].0@ == member_name(fields@[j], j) && members@[j].1@
                                == self@[fields@[j].ty]@.reference,
                    decreases fields@.len() - k,
                {
                    let ghost pre = self@;
                    let r = match self.reference_of(types, fields[k].ty, &extended) {
                        Ok(s) => s,
                        Err(e) => {
                            proof {
                                if mappable(types.types@, done0, avoid0, id, fuel0) {
                                    if done0.contains(id) {
                                        assert(entry_value_ok(
                                            types.types@,
                                            old(self)@,
                                            id,
                                            old(self)@[id]@,
                                        ));
                                        assert(old(self)@.contains_key(fields@[k as int].ty));
                                        assert(pre.contains_key(fields@[k as int].ty));
                                    } else {
                                        visiting@.lemma_push_to_set_commute(id);
                                        assert(extended@.to_set() =~= avoid0.insert(id));
                                        lemma_mappable_all_index(
                                            types.types@,
                                            done0,
                                            extended@.to_set(),
                                            fields@.map_values(|f: InkField| f.ty),
                                            (fuel0 - 1) as nat,
                                            k as int,
                                        );
                                        assert(fields@.map_values(|f: InkField| f.ty)[k as int]
                                            == fields@[k as int].ty);
                                        assert(done0.subset_of(pre.dom()));
                                        lemma_mappable_mono(
                                            types.types@,
                                            done0,
                                            pre.dom(),
                                            extended@.to_set(),
                                            fields@[k as int].ty,
                                            (fuel0 - 1) as nat,
                                        );
                                        assert(mappable(
                                            types.types@,
                                            pre.dom(),
                                            extended@.to_set(),
                                            fields@[k as int].ty,
                                            (types.types@.len() - extended@.len()) as nat,
                                        ));
                                    }
                                    assert(false);
                                }
                            }
                            return Err(e);
                        },
                    };
                    let name: String = match &fields[k].name {
                        Some(n) => n.clone(),
                        None => {
                            let mut nm = "f".to_owned();
                            nm.append(dec_string(k as u64).as_str());
                            proof {
                                reveal_strlit("f");
                            }
                            nm
                        },
                    };
                    members.push((name, r));
                    k = k + 1;
                }
                let t = EvmType {
                    definition: Some(struct_definition_string(&entry.path, &members)),
                    reference: format_path(&entry.path, "_"),
                    modifier: Some("memory".to_owned()),
                    encoder: Some(encoder_definition_string(&entry.path, &members)),
                };
                proof {
                    reveal_strlit("memory");
                    assert(members@.map_values(|m: (String, String)| (m.0@, m.1@)) =~= member_list(
                        fields@,
                        self@,
                    ));
                    assert(t@ =~~= composite_type_v(
                        str_views(entry.path@),
                        member_list(fields@, self@),
                    ));
                }
                Ok(t)
            },
            InkTypeDef::Variant { variants } => {
                if entry.path.len() == 0 || !segments_nonempty(&entry.path) {
                    proof {
                        if mappable(types.types@, done0, avoid0, id, fuel0) {
                            if done0.contains(id) {
                                assert(entry_value_ok(
                                    types.types@,
                                    old(self)@,
                                    id,
                                    old(self)@[id]@,
                                ));
                            }
                            assert(false);
                        }
                    }
                    return Err(
                        Error::Metadata(
                            "a variant type has no path or an empty path segment".to_owned(),
                        ),
                    );
                }
                let mut k: usize = 0;
                let mut names: Vec<String> = Vec::new();
                #[verifier::loop_isolation(false)]
                while k < variants.len()
                    invariant
                        k <= variants@.len(),
                        names@.len() == k,
                        forall|j: int|
                            0 <= j < k ==> (#[trigger] variants@[j].index) as int == j,
                        forall|j: int|
                            0 <= j < k ==> (#[trigger] names@[j])@ == variants@[j].name@,
                    decreases variants@.len() - k,
                {
                    if !(variants[k].index as usize == k) {
                        let mut m =
                            "variant discriminants are not the contiguous prefix: index ".to_owned();
                        m.append(dec_string(variants[k].index as u64).as_str());
                        m.append(" at position ");
                        m.append(dec_string(k as u64).as_str());
                        proof {
                            assert(!contiguous_indices(variants@));
                            if mappable(types.types@, done0, avoid0, id, fuel0) {
                                if done0.contains(id) {
                                    assert(entry_value_ok(
                                        types.types@,
                                        old(self)@,
                                        id,
                                        old(self)@[id]@,
                                    ));
                                }
                                assert(false);
                            }
                        }
                        return Err(Error::Metadata(m));
                    }
                    names.push(variants[k].name.clone());
                    k = k + 1;
                }
                let t = EvmType {
                    definition: Some(enum_definition_string(&entry.path, &names)),
                    reference: format_path(&entry.path, "_"),
                    modifier: None,
                    encoder: None,
                };
                proof {
                    assert(contiguous_indices(variants@));
                    assert(names@.map_values(|s: String| s@) =~= variant_names(variants@));
                    assert(t@ =~~= variant_type_v(
                        str_views(entry.path@),
                        variant_names(variants@),
                    ));
                }
                Ok(t)
            },
            InkTypeDef::Unsupported => {
                proof {
                    if mappable(types.types@, done0, avoid0, id, fuel0) {
                        if done0.contains(id) {
                            assert(entry_value_ok(types.types@, old(self)@, id, old(self)@[id]@));
                        }
                        assert(false);
                    }
                }
                Err(Error::Metadata("an unsupported type kind cannot be translated".to_owned()))
            },
        }
    }

    /// The reference text of the type under an id, translating and
    /// registering it first where the registry does not hold it yet.
    fn reference_of(&mut self, types: &InkTypes, id: u32, visiting: &Vec<u32>) -> (r: Result<
        String,
        Error,
    >)
        requires
            reg_ok(types.types@, old(self)@),
            wf_visiting(types.types@, visiting@),
        ensures
            reg_ok(types.types@, final(self)@),
            forall|k: u32| #[trigger]
                old(self)@.contains_key(k) ==> final(self)@.contains_key(k) && final(self)@[k]
                    == old(self)@[k],
            forall|v: u32|
                visiting@.contains(v) && !old(self)@.contains_key(v) ==> !(#[trigger] final(self)@.contains_key(v)),
            r matches Ok(s) ==> final(self)@.contains_key(id) && s@ == final(self)@[id]@.reference,
            r is Err ==> !final(self)@.contains_key(id),
            old(self)@.contains_key(id) ==> r is Ok,
            mappable(
                types.types@,
                old(self)@.dom(),
                visiting@.to_set(),
                id,
                (types.types@.len() - visiting@.len()) as nat,
            ) ==> r is Ok,
            r matches Err(e) ==> (e is Metadata || e is CyclicType),
        decreases types.types@.len() - visiting@.len(), 1int,
    {
        let cached: Option<String> = match self.lookup(id) {
            Some(t) => Some(t.reference.clone()),
            None => None,
        };
        if let Some(s) = cached {
            return Ok(s);
        }
        proof {
            lemma_visiting_bound(types.types@, visiting@);
        }
        let t = match self.convert_entry(types, id, visiting) {
            Ok(t) => t,
            Err(e) => {
                proof {
                    if mappable(
                        types.types@,
                        old(self)@.dom(),
                        visiting@.to_set(),
                        id,
                        (types.types@.len() - visiting@.len()) as nat,
                    ) {
                        assert(false);
                    }
                }
                return Err(e);
            },
        };
        let reference = t.reference.clone();
        proof {
            lemma_reg_ok_insert(types.types@, self@, id, t);
        }
        self.insert(id, t);
        Ok(reference)
    }

    /// Translates the type under an id into its Solidity-side form,
    /// registering every sub-type the translation rests on; the id's own
    /// entry is left for the caller to file. Translation fails — and the id
    /// stays unregistered — on an id the registry does not declare, on the
    /// character type, on an unsupported type kind, on a composite or
    /// variant without a path, on a variant whose discriminants are not the
    /// contiguous prefix 0, 1, 2, …, and on a circular type reference.
    pub fn convert_type(&mut self, types: &InkTypes, id: u32) -> (r: Result<EvmType, Error>)
        requires
            reg_ok(types.types@, old(self)@),
        ensures
            reg_ok(types.types@, final(self)@),
            forall|k: u32| #[trigger]
                old(self)@.contains_key(k) ==> final(self)@.contains_key(k) && final(self)@[k]
                    == old(self)@[k],
            !old(self)@.contains_key(id) ==> !final(self)@.contains_key(id),
            r matches Ok(t) ==> entry_value_ok(types.types@, final(self)@, id, t@),
            !resolvable(types.types@, id) ==> r is Err,
            (spec_resolve(types.types@, id) matches Some(entry) && entry.def is Unsupported)
                ==> (r matches Err(e) && e is Metadata),
            (spec_resolve(types.types@, id) matches Some(entry) && entry.def matches
                InkTypeDef::Primitive(p) && p is Char) ==> (r matches Err(e) && e is Metadata),
            (spec_resolve(types.types@, id) matches Some(entry) && entry.def matches
                InkTypeDef::Variant { variants } && !contiguous_indices(variants@)) ==> (
            r matches Err(e) && e is Metadata),
            old(self)@.contains_key(id) ==> r is Ok,
            mappable(
                types.types@,
                old(self)@.dom(),
                Set::empty(),
                id,
                types.types@.len() as nat,
            ) ==> r is Ok,
            r matches Err(e) ==> (e is Metadata || e is CyclicType),
    {
        let visiting: Vec<u32> = Vec::new();
        let r = self.convert_entry(types, id, &visiting);
        proof {
            assert(visiting@.to_set() =~= Set::<u32>::empty());
            if old(self)@.contains_key(id) {
                assert(mappable(
                    types.types@,
                    old(self)@.dom(),
                    Set::empty(),
                    id,
                    types.types@.len() as nat,
                ));
            }
        }
        r
    }

    /// The renderer's `type` callback: the requested slot of the type under
    /// an id, translating and registering the type first where the registry
    /// does not hold it yet. A failing translation leaves no entry behind.
    pub fn type_slot(&mut self, types: &InkTypes, id: u32, slot: TypeSlot) -> (r: Result<
        String,
        Error,
    >)
        requires
            reg_ok(types.types@, old(self)@),
        ensures
            reg_ok(types.types@, final(self)@),
            forall|k: u32| #[trigger]
                old(self)@.contains_key(k) ==> final(self)@.contains_key(k) && final(self)@[k]
                    == old(self)@[k],
            r matches Ok(s) ==> final(self)@.contains_key(id) && s@ == slot_text(
                final(self)@[id]@,
                slot,
            ),
            r is Err ==> !old(self)@.contains_key(id) && !final(self)@.contains_key(id),
            (old(self)@.contains_key(id) || mappable(
                types.types@,
                old(self)@.dom(),
                Set::empty(),
                id,
                types.types@.len() as nat,
            )) ==> r is Ok,
            r matches Err(e) ==> (e is Metadata || e is CyclicType),
    {
        if !self.has_mapping(id) {
            let t = match self.convert_type(types, id) {
                Ok(t) => t,
                Err(e) => {
                    return Err(e);
                },
            };
            proof {
                lemma_reg_ok_insert(types.types@, self@, id, t);
            }
            self.insert(id, t);
        }
        match self.lookup(id) {
            Some(t) => {
                match slot {
                    TypeSlot::Reference => Ok(t.reference.clone()),
                    TypeSlot::Definition => Ok(
                        match &t.definition {
                            Some(d) => d.clone(),
                            None => String::new(),
                        },
                    ),
                    TypeSlot::Modifier => Ok(
                        match &t.modifier {
                            Some(m) => m.clone(),
                            None => String::new(),
                        },
                    ),
                    TypeSlot::Encoder => Ok(
                        match &t.encoder {
                            Some(e) => e.clone(),
                            None => String::new(),
                        },
                    ),
                }
            },
            None => {
                proof {
                    assert(false);
                }
                vstd::pervasive::unreached()
            },
        }
    }
}


/// One direct type-reference step between two ids.
pub open spec fn ref_step(types: Seq<InkEntry>, a: u32, b: u32) -> bool {
    resolvable(types, a) && def_refs(spec_resolve(types, a)->Some_0.def).contains(b)
}

/// Every id a registered entry refers to directly is registered.
proof fn lemma_entry_refs_registered(types: Seq<InkEntry>, reg: Map<u32, EvmType>, id: u32)
    requires
        reg_ok(types, reg),
        reg.contains_key(id),
        resolvable(types, id),
    ensures
        forall|c: u32|
            def_refs(spec_resolve(types, id)->Some_0.def).contains(c) ==> #[trigger] reg.contains_key(c),
{
    let def = spec_resolve(types, id)->Some_0.def;
    assert forall|c: u32| def_refs(def).contains(c) implies #[trigger] reg.contains_key(c) by {
        match def {
            InkTypeDef::Array { len: _, elem } => {
                assert(def_refs(def) =~= seq![elem]);
                assert(c == elem);
            },
            InkTypeDef::Tuple(elems) => {
                let k = choose|k: int| 0 <= k < elems@.len() && elems@[k] == c;
                assert(reg.contains_key(elems@[k]));
            },
            InkTypeDef::Composite { fields } => {
                let refs = fields@.map_values(|f: InkField| f.ty);
                let k = choose|k: int| 0 <= k < refs.len() && refs[k] == c;
                assert(fields@[k].ty == c);
                assert(reg.contains_key(fields@[k].ty));
            },
            _ => {},
        }
    }
}

/// Law (registry closure): along any chain of direct type references that
/// starts at a registered id, every id is registered — so once mapping
/// succeeds, everything the rendered output refers to, transitively, has an
/// entry in the registry.
pub proof fn lemma_registry_closure(types: Seq<InkEntry>, reg: Map<u32, EvmType>, p: Seq<u32>)
    requires
        reg_ok(types, reg),
        p.len() > 0,
        reg.contains_key(p[0]),
        forall|k: int| 0 <= k < p.len() - 1 ==> ref_step(types, #[trigger] p[k], p[k + 1]),
    ensures
        forall|k: int| 0 <= k < p.len() ==> reg.contains_key(#[trigger] p[k]),
    decreases p.len(),
{
    if p.len() > 1 {
        lemma_entry_refs_registered(types, reg, p[0]);
        assert(ref_step(types, p[0], p[1]));
        assert(reg.contains_key(p[1]));
        let pd = p.drop_first();
        assert forall|k: int| 0 <= k < pd.len() - 1 implies ref_step(
            types,
            #[trigger] pd[k],
            pd[k + 1],
        ) by {
            assert(pd[k] == p[k + 1]);
            assert(pd[k + 1] == p[k + 2]);
        }
        lemma_registry_closure(types, reg, pd);
        assert forall|k: int| 0 <= k < p.len() implies reg.contains_key(#[trigger] p[k]) by {
            if k > 0 {
                assert(pd[k - 1] == p[k]);
                assert(reg.contains_key(pd[k - 1]));
            }
        }
    }
}

/// Law (non-empty references): every registered entry carries a non-empty
/// reference text — once mapping succeeds, no type of the emitted source is
/// left without a name to be written under.
pub proof fn lemma_reference_nonempty(types: Seq<InkEntry>, reg: Map<u32, EvmType>, id: u32)
    requires
        reg_ok(types, reg),
        reg.contains_key(id),
    ensures
        reg[id]@.reference.len() > 0,
{
    assert(entry_value_ok(types, reg, id, reg[id]@));
    let entry = spec_resolve(types, id)->Some_0;
    match entry.def {
        InkTypeDef::Primitive(p) => {
            reveal_strlit("bool");
            reveal_strlit("string");
            reveal_strlit("uint8");
            reveal_strlit("uint16");
            reveal_strlit("uint32");
            reveal_strlit("uint64");
            reveal_strlit("uint128");
            reveal_strlit("uint256");
            reveal_strlit("int8");
            reveal_strlit("int16");
            reveal_strlit("int32");
            reveal_strlit("int64");
            reveal_strlit("int128");
            reveal_strlit("int256");
            assert(primitive_reference(p).len() > 0);
        },
        InkTypeDef::Array { len, elem } => {
            reveal_strlit("bytes");
            reveal_strlit("[");
            reveal_strlit("]");
        },
        InkTypeDef::Tuple(_) => {
            reveal_strlit(" memory");
        },
        InkTypeDef::Composite { fields: _ } => {
            crate::text::lemma_join_with_first(str_views(entry.path@), "_"@);
            assert(str_views(entry.path@)[0] == entry.path@[0]@);
        },
        InkTypeDef::Variant { variants: _ } => {
            crate::text::lemma_join_with_first(str_views(entry.path@), "_"@);
            assert(str_views(entry.path@)[0] == entry.path@[0]@);
        },
        InkTypeDef::Unsupported => {},
    }
}

/// Law (byte-array special case): a registered array over the 8-bit
/// unsigned scalar reads `bytesN` where its length is at most 32, and
/// `uint8[N]` beyond that.
pub proof fn lemma_byte_array_reference(
    types: Seq<InkEntry>,
    reg: Map<u32, EvmType>,
    id: u32,
    len: u32,
    elem: u32,
)
    requires
        reg_ok(types, reg),
        reg.contains_key(id),
        spec_resolve(types, id) matches Some(e) && e.def == (InkTypeDef::Array { len, elem }),
        spec_resolve(types, elem) matches Some(pe) && pe.def == InkTypeDef::Primitive(
            InkPrimitive::U8,
        ),
    ensures
        len <= 32 ==> reg[id]@.reference == "bytes"@ + dec_str(len as nat),
        len > 32 ==> reg[id]@.reference == "uint8"@ + "["@ + dec_str(len as nat) + "]"@,
{
    assert(entry_value_ok(types, reg, id, reg[id]@));
    assert(entry_value_ok(types, reg, elem, reg[elem]@));
    assert(reg[elem]@.reference == "uint8"@);
}

} // verus!
