//! The crate's own decoded form of an Ink type registry: every portable type
//! as a numeric id, a path of identifier segments, and a tagged definition.
//! The surrounding application decodes the metadata document and hands the
//! engine this flat registry; type-def kinds the engine does not translate
//! decode as `Unsupported` and make the mapper fail on that id only.

use vstd::prelude::*;

verus! {

/// The scalar kinds of the Ink side.
#[derive(Debug, Clone, Copy, PartialEq, Eq, Structural)]
pub enum InkPrimitive {
    Bool,
    Char,
    Str,
    U8,
    U16,
    U32,
    U64,
    U128,
    U256,
    I8,
    I16,
    I32,
    I64,
    I128,
    I256,
}

/// One field of a composite type; a tuple-struct field has no name.
#[derive(Debug)]
pub struct InkField {
    pub name: Option<String>,
    pub ty: u32,
}

/// One arm of a variant type, with its declared discriminant.
#[derive(Debug)]
pub struct InkVariant {
    pub name: String,
    pub index: u8,
}

/// The definition of one Ink type, referring to other types by id.
#[derive(Debug)]
pub enum InkTypeDef {
    Primitive(InkPrimitive),
    Array { len: u32, elem: u32 },
    Tuple(Vec<u32>),
    Composite { fields: Vec<InkField> },
    Variant { variants: Vec<InkVariant> },
    Unsupported,
}

/// One entry of the portable registry.
#[derive(Debug)]
pub struct InkEntry {
    pub id: u32,
    pub path: Vec<String>,
    pub def: InkTypeDef,
}

/// The portable type registry of one Ink project.
#[derive(Debug)]
pub struct InkTypes {
    pub types: Vec<InkEntry>,
}

/// The first entry declared under this id, if any.
pub open spec fn spec_resolve(types: Seq<InkEntry>, id: u32) -> Option<InkEntry>
    decreases types.len(),
{
    if types.len() == 0 {
        None
    } else if types[0].id == id {
        Some(types[0])
    } else {
        spec_resolve(types.drop_first(), id)
    }
}

/// Whether the registry declares the id.
pub open spec fn resolvable(types: Seq<InkEntry>, id: u32) -> bool {
    spec_resolve(types, id) is Some
}

/// A resolvable id is the id of some entry.
pub proof fn lemma_resolve_index(types: Seq<InkEntry>, id: u32)
    requires
        resolvable(types, id),
    ensures
        exists|k: int| 0 <= k < types.len() && types[k].id == id,
    decreases types.len(),
{
    if types[0].id == id {
        assert(0 <= 0 < types.len() && types[0].id == id);
    } else {
        lemma_resolve_index(types.drop_first(), id);
        let k = choose|k: int| 0 <= k < types.drop_first().len() && types.drop_first()[k].id == id;
        assert(types[k + 1].id == id);
    }
}

impl InkTypes {
    /// Looks an id up in the portable registry.
    pub fn resolve(&self, id: u32) -> (r: Option<&InkEntry>)
        ensures
            (match r {
                Some(e) => spec_resolve(self.types@, id) == Some(*e),
                None => spec_resolve(self.types@, id) is None,
            }),
    {
        proof {
            assert(self.types@.skip(0) =~= self.types@);
        }
        let mut k: usize = 0;
        #[verifier::loop_isolation(false)]
        while k < self.types.len()
            invariant
                k <= self.types@.len(),
                spec_resolve(self.types@, id) == spec_resolve(self.types@.skip(k as int), id),
            decreases self.types@.len() - k,
        {
            if self.types[k].id == id {
                proof {
                    assert(self.types@.skip(k as int)[0] == self.types@[k as int]);
                }
                return Some(&self.types[k]);
            }
            proof {
                assert(self.types@.skip(k as int).drop_first() =~= self.types@.skip(k + 1));
            }
            k = k + 1;
        }
        None
    }
}

} // verus!
