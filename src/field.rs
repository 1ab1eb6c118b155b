//! The three fields of a serialized transform.
use vstd::prelude::*;

verus! {

/// One field of the wire record.
#[derive(Clone, Copy, Debug, PartialEq, Eq, Structural)]
pub enum WireField {
    /// The translation: three components x, y, z.
    Translation,
    /// The rotation quaternion: four components w, x, y, z.
    Rotation,
    /// The scale: three components x, y, z.
    Scale,
}

impl WireField {
    /// The key under which the field is written.
    pub open spec fn key(self) -> Seq<char> {
        match self {
            WireField::Translation => "translation"@,
            WireField::Rotation => "rotation"@,
            WireField::Scale => "scale"@,
        }
    }

    /// How many numbers the field holds.
    pub open spec fn spec_arity(self) -> nat {
        match self {
            WireField::Rotation => 4,
            _ => 3,
        }
    }

    /// The field at a position of the canonical order.
    pub open spec fn spec_at(i: int) -> Option<WireField> {
        if i == 0 {
            Some(WireField::Translation)
        } else if i == 1 {
            Some(WireField::Rotation)
        } else if i == 2 {
            Some(WireField::Scale)
        } else {
            None
        }
    }

    /// The field whose key is `s`, if any.
    pub open spec fn spec_from_key(s: Seq<char>) -> Option<WireField> {
        if s == WireField::Translation.key() {
            Some(WireField::Translation)
        } else if s == WireField::Rotation.key() {
            Some(WireField::Rotation)
        } else if s == WireField::Scale.key() {
            Some(WireField::Scale)
        } else {
            None
        }
    }

    /// The key of the field.
    pub fn name(self) -> (r: &'static str)
        ensures
            r@ == self.key(),
    {
        match self {
            WireField::Translation => "translation",
            WireField::Rotation => "rotation",
            WireField::Scale => "scale",
        }
    }

    /// The number of components of the field.
    pub fn arity(self) -> (r: usize)
        ensures
            r == self.spec_arity(),
    {
        match self {
            WireField::Rotation => 4,
            _ => 3,
        }
    }

    /// The field at position `i` of the canonical order (translation,
    /// rotation, scale); `None` past the last field.
    pub fn at(i: usize) -> (r: Option<WireField>)
        ensures
            r == WireField::spec_at(i as int),
    {
        if i == 0 {
            Some(WireField::Translation)
        } else if i == 1 {
            Some(WireField::Rotation)
        } else if i == 2 {
            Some(WireField::Scale)
        } else {
            None
        }
    }

    /// The field written under `key`; `None` for any other key.
    pub fn from_key(key: &str) -> (r: Option<WireField>)
        ensures
            r == WireField::spec_from_key(key@),
    {
        let k = key.to_owned();
        if k == "translation".to_owned() {
            Some(WireField::Translation)
        } else if k == "rotation".to_owned() {
            Some(WireField::Rotation)
        } else if k == "scale".to_owned() {
            Some(WireField::Scale)
        } else {
            None
        }
    }
}

/// Distinct fields have distinct keys, so a key names at most one field and
/// each field is found again from its own key.
pub proof fn lemma_key_round_trip(f: WireField)
    ensures
        WireField::spec_from_key(f.key()) == Some(f),
{
    reveal_strlit("translation");
    reveal_strlit("rotation");
    reveal_strlit("scale");
    assert("translation"@.len() == 11);
    assert("rotation"@.len() == 8);
    assert("scale"@.len() == 5);
}

} // verus!
