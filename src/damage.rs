use vstd::prelude::*;

verus! {

/// Damage categories, in a fixed order: the classification predicates are
/// ranges over this order.
#[derive(Clone, Copy, Debug, PartialEq, Eq, Structural, Hash, PartialOrd, Ord)]
pub enum Type {
    Base,
    Faction,
    Eclipse,
    Xata,
    Impact,
    Puncture,
    Slash,
    Heat,
    Cold,
    Electric,
    Toxin,
    Blast,
    Corrosive,
    Magnetic,
    Gas,
    Radiation,
    Viral,
}

/// Number of damage types.
pub const TYPE_COUNT: usize = 17;

/// Position of the first physical type; all types below it are multiplicative.
pub const FIRST_PHYSICAL: usize = 4;

/// Weapon and modifier attributes.
#[derive(Clone, Copy, Debug, PartialEq, Eq, Structural, Hash)]
pub enum Attribute {
    CritChance,
    CritDamage,
    StatusChance,
}

/// The type at position `i` of the declaration order.
pub open spec fn type_at(i: int) -> Type {
    if i <= 0 {
        Type::Base
    } else if i == 1 {
        Type::Faction
    } else if i == 2 {
        Type::Eclipse
    } else if i == 3 {
        Type::Xata
    } else if i == 4 {
        Type::Impact
    } else if i == 5 {
        Type::Puncture
    } else if i == 6 {
        Type::Slash
    } else if i == 7 {
        Type::Heat
    } else if i == 8 {
        Type::Cold
    } else if i == 9 {
        Type::Electric
    } else if i == 10 {
        Type::Toxin
    } else if i == 11 {
        Type::Blast
    } else if i == 12 {
        Type::Corrosive
    } else if i == 13 {
        Type::Magnetic
    } else if i == 14 {
        Type::Gas
    } else if i == 15 {
        Type::Radiation
    } else {
        Type::Viral
    }
}

impl Type {
    /// Position of the type in the declaration order.
    pub open spec fn ord(self) -> int {
        match self {
            Type::Base => 0,
            Type::Faction => 1,
            Type::Eclipse => 2,
            Type::Xata => 3,
            Type::Impact => 4,
            Type::Puncture => 5,
            Type::Slash => 6,
            Type::Heat => 7,
            Type::Cold => 8,
            Type::Electric => 9,
            Type::Toxin => 10,
            Type::Blast => 11,
            Type::Corrosive => 12,
            Type::Magnetic => 13,
            Type::Gas => 14,
            Type::Radiation => 15,
            Type::Viral => 16,
        }
    }

    pub open spec fn is_dot(self) -> bool {
        self == Type::Slash || self == Type::Heat || self == Type::Electric || self == Type::Gas
    }

    pub open spec fn is_mult(self) -> bool {
        self.ord() < 4
    }

    pub open spec fn is_ips(self) -> bool {
        4 <= self.ord() <= 6
    }

    pub open spec fn is_elem(self) -> bool {
        self.ord() >= 7
    }

    pub open spec fn is_mix(self) -> bool {
        self.ord() >= 11
    }

    /// Position of the type in the declaration order.
    pub fn ordinal(self) -> (r: usize)
        ensures
            r as int == self.ord(),
            r < TYPE_COUNT,
    {
        match self {
            Type::Base => 0,
            Type::Faction => 1,
            Type::Eclipse => 2,
            Type::Xata => 3,
            Type::Impact => 4,
            Type::Puncture => 5,
            Type::Slash => 6,
            Type::Heat => 7,
            Type::Cold => 8,
            Type::Electric => 9,
            Type::Toxin => 10,
            Type::Blast => 11,
            Type::Corrosive => 12,
            Type::Magnetic => 13,
            Type::Gas => 14,
            Type::Radiation => 15,
            Type::Viral => 16,
        }
    }

    /// The type at position `i` of the declaration order.
    pub fn from_ordinal(i: usize) -> (r: Type)
        requires
            i < TYPE_COUNT,
        ensures
            r == type_at(i as int),
            r.ord() == i as int,
    {
        match i {
            0 => Type::Base,
            1 => Type::Faction,
            2 => Type::Eclipse,
            3 => Type::Xata,
            4 => Type::Impact,
            5 => Type::Puncture,
            6 => Type::Slash,
            7 => Type::Heat,
            8 => Type::Cold,
            9 => Type::Electric,
            10 => Type::Toxin,
            11 => Type::Blast,
            12 => Type::Corrosive,
            13 => Type::Magnetic,
            14 => Type::Gas,
            15 => Type::Radiation,
            _ => Type::Viral,
        }
    }

    /// Whether a status proc of this type deals damage over time.
    pub fn dot(self) -> (r: bool)
        ensures
            r == self.is_dot(),
    {
        self == Type::Slash || self == Type::Heat || self == Type::Electric || self == Type::Gas
    }

    /// Whether the type is a multiplier-only bucket (Base, Faction, Eclipse, Xata).
    pub fn mult(self) -> (r: bool)
        ensures
            r == self.is_mult(),
    {
        self.ordinal() < FIRST_PHYSICAL
    }

    /// Whether the type is physical (Impact, Puncture, Slash).
    pub fn ips(self) -> (r: bool)
        ensures
            r == self.is_ips(),
    {
        let o = self.ordinal();
        FIRST_PHYSICAL <= o && o <= 6
    }

    /// Whether the type is Heat or any type after it.
    pub fn elem(self) -> (r: bool)
        ensures
            r == self.is_elem(),
    {
        self.ordinal() >= 7
    }

    /// Whether the type is a combined type (Blast and after).
    pub fn mix(self) -> (r: bool)
        ensures
            r == self.is_mix(),
    {
        self.ordinal() >= 11
    }

    /// All types, in declaration order.
    pub fn all() -> (r: Vec<Type>)
        ensures
            r@.len() == TYPE_COUNT,
            forall|i: int| 0 <= i < TYPE_COUNT ==> #[trigger] r@[i] == type_at(i),
    {
        let mut r: Vec<Type> = Vec::new();
        let mut i: usize = 0;
        while i < TYPE_COUNT
            invariant
                i <= TYPE_COUNT,
                r@.len() == i,
                forall|j: int| 0 <= j < i ==> #[trigger] r@[j] == type_at(j),
            decreases TYPE_COUNT - i,
        {
            r.push(Type::from_ordinal(i));
            i = i + 1;
        }
        r
    }
}

/// Each type is the one found at its own position.
pub proof fn lemma_type_at_ord(t: Type)
    ensures
        type_at(t.ord()) == t,
        0 <= t.ord() < TYPE_COUNT,
{
}

/// The type at a position sits at that position.
pub proof fn lemma_ord_type_at(i: int)
    requires
        0 <= i < TYPE_COUNT,
    ensures
        type_at(i).ord() == i,
{
}

/// The four classes partition the types: each type is exactly one of
/// multiplicative, physical, or elemental (which includes the combined types),
/// and every combined type is elemental.
pub proof fn lemma_classes_partition(t: Type)
    ensures
        (t.is_mult() as int) + (t.is_ips() as int) + ((t.is_elem() && !t.is_ips()
            && !t.is_mult()) as int) == 1,
        t.is_mix() ==> t.is_elem(),
{
}

} // verus!
