//! Identity records: a named entity with a permission tier and the public
//! key that authenticates it. Entities are immutable values; a reload
//! replaces them wholesale and never mutates one in place.

use vstd::prelude::*;

verus! {

/// Permission tier of an entity. Elevated entities may trigger a registry
/// reload; standard entities may not.
#[derive(Clone, Copy, PartialEq, Eq, Structural, Debug)]
pub enum Role {
    Standard,
    Elevated,
}

/// An identity record: display name, permission tier, and the opaque,
/// byte-comparable public-key material that authenticates it.
pub struct Entity {
    pub name: String,
    pub role: Role,
    pub key: Vec<u8>,
}

/// Mathematical value of an [`Entity`]: the same three fields, with the
/// name as a character sequence and the key as a byte sequence.
pub struct EntityV {
    pub name: Seq<char>,
    pub role: Role,
    pub key: Seq<u8>,
}

impl View for Entity {
    type V = EntityV;

    open spec fn view(&self) -> EntityV {
        EntityV { name: self.name@, role: self.role, key: self.key@ }
    }
}

impl Clone for Entity {
    /// Entities are compared and copied by value, never by location, so a
    /// clone is interchangeable with its source.
    fn clone(&self) -> (r: Entity)
        ensures
            r@ == self@,
    {
        Entity { name: self.name.clone(), role: self.role, key: self.key.clone() }
    }
}

impl Entity {
    pub fn new(name: String, role: Role, key: Vec<u8>) -> (r: Entity)
        ensures
            r@ == (EntityV { name: name@, role: role, key: key@ }),
    {
        Entity { name, role, key }
    }
}

} // verus!
