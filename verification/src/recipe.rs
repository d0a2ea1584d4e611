use crate::address::ContentAddress;
use crate::bytes::same_bytes;
use crate::digest::{blake2b_256, digest_256};
use crate::framing::{field, lemma_parse_field_of_field, put_field};
use vstd::prelude::*;

verus! {

/// What an invitee needs to clone a network template and join the
/// resulting private network. A recipe never changes once made; its
/// address in the shared store is the digest of its payload.
#[derive(Debug, PartialEq, Eq)]
pub struct CloneDnaRecipe {
    /// The template that the recipe clones.
    pub original_dna_hash: ContentAddress,
    /// Everything else the clone needs, opaque to this library.
    pub parameters: Vec<u8>,
}

/// A [`CloneDnaRecipe`] as a mathematical value.
pub struct RecipeView {
    pub original_dna_hash: Seq<u8>,
    pub parameters: Seq<u8>,
}

impl View for CloneDnaRecipe {
    type V = RecipeView;

    open spec fn view(&self) -> RecipeView {
        RecipeView { original_dna_hash: self.original_dna_hash@, parameters: self.parameters@ }
    }
}

impl Clone for CloneDnaRecipe {
    fn clone(&self) -> (copy: Self)
        ensures
            copy@ == self@,
    {
        CloneDnaRecipe {
            original_dna_hash: self.original_dna_hash.clone(),
            parameters: self.parameters.clone(),
        }
    }
}

/// The bytes that are hashed to address a recipe: its two parts, each as
/// a field.
pub open spec fn recipe_payload(recipe: RecipeView) -> Seq<u8> {
    field(recipe.original_dna_hash) + field(recipe.parameters)
}

/// The address of a recipe in the shared store.
pub open spec fn recipe_address(recipe: RecipeView) -> Seq<u8> {
    blake2b_256(recipe_payload(recipe))
}

/// Two recipes with the same payload are the same recipe, as long as the
/// length of each part can be written down. So an address stands for one
/// recipe, short of a collision of digests.
pub proof fn lemma_recipe_payload_injective(a: RecipeView, b: RecipeView)
    requires
        a.original_dna_hash.len() <= u64::MAX,
        a.parameters.len() <= u64::MAX,
        b.original_dna_hash.len() <= u64::MAX,
        b.parameters.len() <= u64::MAX,
        recipe_payload(a) == recipe_payload(b),
    ensures
        a == b,
{
    lemma_parse_field_of_field(a.original_dna_hash, field(a.parameters));
    lemma_parse_field_of_field(b.original_dna_hash, field(b.parameters));
    assert(field(a.parameters) =~= field(a.parameters) + Seq::<u8>::empty());
    assert(field(b.parameters) =~= field(b.parameters) + Seq::<u8>::empty());
    lemma_parse_field_of_field(a.parameters, Seq::empty());
    lemma_parse_field_of_field(b.parameters, Seq::empty());
}

impl CloneDnaRecipe {
    /// Whether two recipes are equal part by part.
    pub fn same_as(&self, other: &CloneDnaRecipe) -> (same: bool)
        ensures
            same == (self@ == other@),
    {
        self.original_dna_hash.same_as(&other.original_dna_hash) && same_bytes(
            &self.parameters,
            &other.parameters,
        )
    }

    /// Serializes the recipe for hashing.
    pub fn payload(&self) -> (bytes: Vec<u8>)
        ensures
            bytes@ == recipe_payload(self@),
    {
        let mut bytes: Vec<u8> = Vec::new();
        put_field(&mut bytes, &self.original_dna_hash.bytes);
        put_field(&mut bytes, &self.parameters);
        assert(bytes@ =~= recipe_payload(self@));
        bytes
    }

    /// Computes the recipe's address from its content alone, so that two
    /// recipes with the same parts always get the same address.
    pub fn address(&self) -> (address: ContentAddress)
        ensures
            address@ == recipe_address(self@),
    {
        let payload = self.payload();
        ContentAddress::new(digest_256(&payload))
    }
}

} // verus!
