use vstd::prelude::*;

use crate::fraction::{fold_gcd, gcd_of, lemma_fold_gcd_divides, lemma_reduce_exact, reduce};
use crate::damage::{lemma_ord_type_at, lemma_type_at_ord, type_at, Attribute, Type, TYPE_COUNT};
use crate::mods::{pow, scaled_mult, Mods, ATTR_BOUND, MAX_FACTORS, MULT_ONE};

verus! {

/// Largest magnitude of a stored base-damage numerator. With `DEN_BOUND` and
/// the percentage bounds of the modifiers, it is chosen so that every exact
/// product the queries form fits in an `i128`.
pub const NUM_BOUND: i128 = 1_000_000_000;

/// Largest common denominator of the stored base damage; one of the joint
/// bounds that keep every exact product in `i128`.
pub const DEN_BOUND: i128 = 1_000_000_000;

/// An exact fraction `num / den`.
#[derive(Clone, Copy, Debug, PartialEq, Eq, Structural)]
pub struct Ratio {
    pub num: i128,
    pub den: i128,
}

/// The numerator stored for a slot, absent meaning zero.
pub open spec fn num_of(e: Option<i128>) -> int {
    match e {
        Some(v) => v as int,
        None => 0,
    }
}

/// Sum of the numerators of the first `n` slots.
pub open spec fn base_sum(d: Seq<Option<i128>>, n: nat) -> int
    decreases n,
{
    if n == 0 {
        0
    } else {
        base_sum(d, (n - 1) as nat) + num_of(d[n - 1])
    }
}

/// Largest magnitude of a multiplier scaled by `MULT_ONE`.
pub open spec fn mult_bound() -> int {
    pow(1100, MAX_FACTORS as nat)
}

/// Largest magnitude of the damage numerator of one type.
pub open spec fn type_damage_bound() -> int {
    TYPE_COUNT * NUM_BOUND * mult_bound()
}

/// A weapon: base damage per type as numerators over one common denominator
/// `den`, three base attributes in whole percents, and at most one attached
/// modifier set. Damage is entered in whole units; fractional values arise
/// only from spreading, and are kept exact.
pub struct Weapon {
    pub name: String,
    /// Base-damage numerator per type, indexed by the type's position.
    pub damage: Vec<Option<i128>>,
    pub den: i128,
    pub crit_chance: i64,
    pub crit_damage: i64,
    pub status_chance: i64,
    pub mods: Option<Mods>,
}

impl Weapon {
    pub open spec fn wf(&self) -> bool {
        &&& self.damage@.len() == TYPE_COUNT
        &&& forall|i: int| 0 <= i < 4 ==> #[trigger] self.damage@[i] == None::<i128>
        &&& forall|i: int|
            0 <= i < TYPE_COUNT ==> -NUM_BOUND <= #[trigger] num_of(self.damage@[i]) <= NUM_BOUND
        &&& 1 <= self.den <= DEN_BOUND
        &&& -ATTR_BOUND <= self.crit_chance <= ATTR_BOUND
        &&& -ATTR_BOUND <= self.crit_damage <= ATTR_BOUND
        &&& -ATTR_BOUND <= self.status_chance <= ATTR_BOUND
        &&& (self.mods matches Some(m) ==> m.wf())
    }

    /// Base damage numerator (over `den`) of a type, or of all types.
    pub open spec fn base_spec(&self, ty: Option<Type>) -> int {
        match ty {
            Some(t) => num_of(self.damage@[t.ord()]),
            None => base_sum(self.damage@, TYPE_COUNT as nat),
        }
    }

    /// Whether `t` is a live damage type: not multiplicative, and present in the
    /// weapon's or the attached modifiers' table.
    pub open spec fn has_spec(&self, t: Type) -> bool {
        !t.is_mult() && (self.damage@[t.ord()] is Some || (self.mods matches Some(m)
            && m.damage@[t.ord()] is Some))
    }

    /// The pool a type's damage is drawn from: a physical type's own entry if
    /// present, otherwise the total base damage.
    pub open spec fn pool_spec(&self, t: Type) -> int {
        if t.is_ips() && self.damage@[t.ord()] is Some {
            num_of(self.damage@[t.ord()])
        } else {
            self.base_spec(None)
        }
    }

    /// Damage numerator (over `den * MULT_ONE`) of one type.
    pub open spec fn type_damage_spec(&self, t: Type, dot: bool) -> int {
        match self.mods {
            None => self.base_spec(Some(t)) * MULT_ONE,
            Some(m) => if t.is_mult() || !self.has_spec(t) {
                0
            } else {
                self.pool_spec(t) * scaled_mult(m.damage@, Some(t), dot)
            },
        }
    }

    /// Sum of the direct-hit damage of the live types among the first `n`.
    pub open spec fn live_sum(&self, n: nat) -> int
        decreases n,
    {
        if n == 0 {
            0
        } else {
            self.live_sum((n - 1) as nat) + if self.has_spec(type_at(n - 1)) {
                self.type_damage_spec(type_at(n - 1), false)
            } else {
                0
            }
        }
    }

    /// Damage numerator (over `den * MULT_ONE`) of a type, or of the whole hit.
    pub open spec fn damage_spec(&self, ty: Option<Type>, dot: bool) -> int {
        match ty {
            Some(t) => self.type_damage_spec(t, dot),
            None => match self.mods {
                None => self.base_spec(None) * MULT_ONE,
                Some(_) => self.live_sum(TYPE_COUNT as nat),
            },
        }
    }

    /// Sum of the base damage of the types present among the first `n`.
    pub open spec fn present_sum(&self, n: nat) -> int
        decreases n,
    {
        if n == 0 {
            0
        } else {
            self.present_sum((n - 1) as nat) + if self.damage@[n - 1] is Some {
                self.base_spec(Some(type_at(n - 1)))
            } else {
                0
            }
        }
    }

    /// Live damage-over-time types among the first `n`, in type order.
    pub open spec fn dot_prefix(&self, n: nat) -> Seq<Type>
        decreases n,
    {
        if n == 0 {
            seq![]
        } else {
            let prev = self.dot_prefix((n - 1) as nat);
            if type_at(n - 1).is_dot() && self.has_spec(type_at(n - 1)) {
                prev.push(type_at(n - 1))
            } else {
                prev
            }
        }
    }

    /// Live types among the first `n`, in type order.
    pub open spec fn valid_prefix(&self, n: nat) -> Seq<Type>
        decreases n,
    {
        if n == 0 {
            seq![]
        } else {
            let prev = self.valid_prefix((n - 1) as nat);
            if self.has_spec(type_at(n - 1)) {
                prev.push(type_at(n - 1))
            } else {
                prev
            }
        }
    }

    /// An attribute numerator, over 100: the base value times
    /// `(pct + 100) / 100` of the attached modifiers.
    pub open spec fn attr_spec(&self, attr: Attribute) -> int {
        let base: int = match attr {
            Attribute::CritChance => self.crit_chance as int,
            Attribute::CritDamage => self.crit_damage as int,
            Attribute::StatusChance => self.status_chance as int,
        };
        match self.mods {
            None => base * 100,
            Some(m) => base * (match attr {
                Attribute::CritChance => m.crit_chance as int,
                Attribute::CritDamage => m.crit_damage as int,
                Attribute::StatusChance => m.status_chance as int,
            } + 100),
        }
    }

    /// A weapon without damage entries or modifiers.
    pub fn new(name: &str, crit_chance: i64, crit_damage: i64, status_chance: i64) -> (r: Weapon)
        requires
            -ATTR_BOUND <= crit_chance <= ATTR_BOUND,
            -ATTR_BOUND <= crit_damage <= ATTR_BOUND,
            -ATTR_BOUND <= status_chance <= ATTR_BOUND,
        ensures
            r.wf(),
            r.name@ == name@,
            forall|i: int| 0 <= i < TYPE_COUNT ==> #[trigger] r.damage@[i] == None::<i128>,
            r.den == 1,
            r.crit_chance == crit_chance,
            r.crit_damage == crit_damage,
            r.status_chance == status_chance,
            r.mods is None,
    {
        let mut damage: Vec<Option<i128>> = Vec::new();
        let mut i: usize = 0;
        while i < TYPE_COUNT
            invariant
                i <= TYPE_COUNT,
                damage@.len() == i,
                forall|j: int| 0 <= j < i ==> #[trigger] damage@[j] == None::<i128>,
            decreases TYPE_COUNT - i,
        {
            damage.push(None);
            i = i + 1;
        }
        Weapon {
            name: name.to_owned(),
            damage,
            den: 1,
            crit_chance,
            crit_damage,
            status_chance,
            mods: None,
        }
    }

    /// Attaches a modifier set, replacing any attached before.
    pub fn attach_mods(&mut self, mods: Mods)
        requires
            old(self).wf(),
            mods.wf(),
        ensures
            final(self).wf(),
            final(self).mods == Some(mods),
            final(self).name == old(self).name,
            final(self).damage@ == old(self).damage@,
            final(self).den == old(self).den,
            final(self).crit_chance == old(self).crit_chance,
            final(self).crit_damage == old(self).crit_damage,
            final(self).status_chance == old(self).status_chance,
    {
        self.mods = Some(mods);
    }

    /// Sum of the base-damage numerators.
    fn base_total(&self) -> (r: i128)
        requires
            self.wf(),
        ensures
            r as int == base_sum(self.damage@, TYPE_COUNT as nat),
            -(TYPE_COUNT * NUM_BOUND) <= r <= TYPE_COUNT * NUM_BOUND,
    {
        let mut s: i128 = 0;
        let mut i: usize = 0;
        while i < TYPE_COUNT
            invariant
                self.wf(),
                i <= TYPE_COUNT,
                s as int == base_sum(self.damage@, i as nat),
                -(i * NUM_BOUND) <= s <= i * NUM_BOUND,
            decreases TYPE_COUNT - i,
        {
            assert(-NUM_BOUND <= num_of(self.damage@[i as int]) <= NUM_BOUND);
            match self.damage[i] {
                Some(v) => {
                    s = s + v;
                },
                None => {},
            }
            i = i + 1;
        }
        s
    }

    /// Base damage of a type (zero when absent), or of all types together, as a
    /// fraction over `den`.
    pub fn get_base_damage(&self, damage_type: Option<Type>) -> (r: Ratio)
        requires
            self.wf(),
        ensures
            r.num == self.base_spec(damage_type),
            r.den == self.den,
    {
        match damage_type {
            Some(t) => {
                let o = t.ordinal();
                let n: i128 = match self.damage[o] {
                    Some(v) => v,
                    None => 0,
                };
                Ratio { num: n, den: self.den }
            },
            None => Ratio { num: self.base_total(), den: self.den },
        }
    }
    /// Factor every numerator is multiplied by when `amount` is spread over the
    /// base damage: `T + amount * den` for a total numerator `T`, with the sign
    /// chosen so that the new denominator is positive.
    pub open spec fn spread_factor(&self, amount: int) -> int {
        let t = self.base_spec(None);
        if t > 0 {
            t + amount * self.den
        } else {
            -(t + amount * self.den)
        }
    }

    /// Common denominator after spreading: `den * |T|`.
    pub open spec fn spread_den(&self) -> int {
        let t = self.base_spec(None);
        if t > 0 {
            self.den * t
        } else {
            -(self.den * t)
        }
    }

    /// Numerators after spreading, before reduction: each times the factor.
    pub open spec fn spread_nums(&self, amount: int) -> Seq<int> {
        Seq::new(
            TYPE_COUNT as nat,
            |i: int| num_of(self.damage@[i]) * self.spread_factor(amount),
        )
    }

    /// Common divisor of the new denominator and all new numerators.
    pub open spec fn spread_gcd(&self, amount: int) -> int {
        fold_gcd(self.spread_den() as nat, self.spread_nums(amount), TYPE_COUNT as nat) as int
    }

    /// The table after spreading, reduced by `spread_gcd`.
    pub open spec fn spread_table(&self, amount: int) -> Seq<Option<i128>> {
        Seq::new(
            TYPE_COUNT as nat,
            |i: int|
                match self.damage@[i] {
                    Some(_) => Some(
                        reduce(self.spread_nums(amount)[i], self.spread_gcd(amount)) as i128,
                    ),
                    None => None,
                },
        )
    }

    /// Whether spreading `amount` is defined (a nonzero total) and its reduced
    /// result stays within the storage bounds.
    pub open spec fn spread_fits(&self, amount: int) -> bool {
        &&& self.base_spec(None) != 0
        &&& self.spread_den() / self.spread_gcd(amount) <= DEN_BOUND
        &&& forall|i: int|
            0 <= i < TYPE_COUNT ==> -NUM_BOUND <= #[trigger] reduce(
                self.spread_nums(amount)[i],
                self.spread_gcd(amount),
            ) <= NUM_BOUND
    }

    /// Stores `value` as the base damage of `dmg_type`, replacing any entry.
    /// Refused, leaving the weapon unchanged, for a multiplicative type or a
    /// value out of the storage bounds.
    pub fn insert_damage(&mut self, dmg_type: Type, value: i64) -> (r: bool)
        requires
            old(self).wf(),
        ensures
            final(self).wf(),
            r == (!dmg_type.is_mult() && -NUM_BOUND <= value * old(self).den <= NUM_BOUND),
            r ==> final(self).damage@ == old(self).damage@.update(
                dmg_type.ord(),
                Some((value * old(self).den) as i128),
            ),
            !r ==> final(self).damage@ == old(self).damage@,
            final(self).name == old(self).name,
            final(self).den == old(self).den,
            final(self).mods == old(self).mods,
            final(self).crit_chance == old(self).crit_chance,
            final(self).crit_damage == old(self).crit_damage,
            final(self).status_chance == old(self).status_chance,
    {
        if dmg_type.mult() {
            return false;
        }
        proof {
            lemma_mul_bound(value as int, self.den as int, 9223372036854775808, DEN_BOUND as int);
        }
        let n: i128 = value as i128 * self.den;
        if n < -NUM_BOUND || n > NUM_BOUND {
            return false;
        }
        let o = dmg_type.ordinal();
        self.damage.set(o, Some(n));
        assert forall|i: int| 0 <= i < TYPE_COUNT implies -NUM_BOUND <= #[trigger] num_of(
            self.damage@[i],
        ) <= NUM_BOUND by {
            if i != o as int {
                assert(self.damage@[i] == old(self).damage@[i]);
            }
        }
        assert(forall|i: int| 0 <= i < 4 ==> #[trigger] self.damage@[i] == old(self).damage@[i]);
        true
    }

    /// Spreads a flat `amount` over the existing base damage in proportion to
    /// each entry's share: every value `v` becomes `v + v / total * amount`,
    /// exactly, and the stored fraction is then reduced by the common divisor of
    /// the denominator and all numerators. Returns false, leaving the weapon
    /// unchanged, when the total is zero or the reduced result would leave the
    /// storage bounds.
    pub fn add_base_damage(&mut self, amount: i64) -> (r: bool)
        requires
            old(self).wf(),
        ensures
            final(self).wf(),
            r == old(self).spread_fits(amount as int),
            r ==> final(self).damage@ == old(self).spread_table(amount as int) && final(self).den
                == old(self).spread_den() / old(self).spread_gcd(amount as int),
            r ==> forall|i: int|
                0 <= i < TYPE_COUNT ==> #[trigger] num_of(final(self).damage@[i]) * (old(self).den
                    * old(self).base_spec(None)) == final(self).den * num_of(old(self).damage@[i]) * (
                old(self).base_spec(None) + amount * old(self).den),
            r ==> final(self).base_spec(None) * old(self).den == final(self).den * (old(self).base_spec(
                None,
            ) + amount * old(self).den),
            !r ==> final(self).damage@ == old(self).damage@ && final(self).den == old(self).den,
            final(self).name == old(self).name,
            final(self).mods == old(self).mods,
            final(self).crit_chance == old(self).crit_chance,
            final(self).crit_damage == old(self).crit_damage,
            final(self).status_chance == old(self).status_chance,
    {
        let total = self.base_total();
        if total == 0 {
            return false;
        }
        proof {
            lemma_mul_bound(amount as int, self.den as int, 9223372036854775808, DEN_BOUND as int);
        }
        let grown = total + amount as i128 * self.den;
        let f: i128 = if total > 0 {
            grown
        } else {
            -grown
        };
        proof {
            lemma_mul_bound(self.den as int, total as int, DEN_BOUND as int, TYPE_COUNT * NUM_BOUND);
        }
        let dd: i128 = if total > 0 {
            self.den * total
        } else {
            -(self.den * total)
        };
        proof {
            lemma_spread_den_positive(*self);
        }
        let ghost ns = self.spread_nums(amount as int);
        assert(ns.len() == TYPE_COUNT);
        let ghost fb: int = TYPE_COUNT * NUM_BOUND + 9223372036854775808 * DEN_BOUND;
        assert(-fb <= f <= fb);
        let mut nums: Vec<i128> = Vec::new();
        let mut i: usize = 0;
        while i < TYPE_COUNT
            invariant
                self.wf(),
                i <= TYPE_COUNT,
                f as int == self.spread_factor(amount as int),
                ns == self.spread_nums(amount as int),
                -fb <= f <= fb,
                fb == TYPE_COUNT * NUM_BOUND + 9223372036854775808 * DEN_BOUND,
                nums@.len() == i,
                ns.len() == TYPE_COUNT,
                forall|j: int| 0 <= j < i ==> #[trigger] nums@[j] as int == ns[j],
                forall|j: int| 0 <= j < i ==> -10_000_000_000_000_000_000_000_000_000_000_000_000 <= #[trigger] nums@[j] <= 10_000_000_000_000_000_000_000_000_000_000_000_000,
            decreases TYPE_COUNT - i,
        {
            assert(-NUM_BOUND <= num_of(self.damage@[i as int]) <= NUM_BOUND);
            let v: i128 = match self.damage[i] {
                Some(v) => v,
                None => 0,
            };
            proof {
                lemma_mul_bound(v as int, f as int, NUM_BOUND as int, fb);
            }
            nums.push(v * f);
            i = i + 1;
        }
        let mut g: i128 = dd;
        let mut i: usize = 0;
        while i < TYPE_COUNT
            invariant
                i <= TYPE_COUNT,
                dd >= 1,
                nums@.len() == TYPE_COUNT,
                forall|j: int| 0 <= j < TYPE_COUNT ==> #[trigger] nums@[j] as int == ns[j],
                forall|j: int|
                    0 <= j < TYPE_COUNT ==> -10_000_000_000_000_000_000_000_000_000_000_000_000
                        <= #[trigger] nums@[j] <= 10_000_000_000_000_000_000_000_000_000_000_000_000,
                g as int == fold_gcd(dd as nat, ns, i as nat),
            decreases TYPE_COUNT - i,
        {
            let n = nums[i];
            let m: i128 = if n < 0 {
                -n
            } else {
                n
            };
            g = gcd_of(g, m);
            i = i + 1;
        }
        proof {
            lemma_fold_gcd_divides(dd as nat, ns, TYPE_COUNT as nat);
        }
        let nd = dd / g;
        if nd > DEN_BOUND {
            return false;
        }
        let mut i: usize = 0;
        while i < TYPE_COUNT
            invariant
                i <= TYPE_COUNT,
                self.wf(),
                g > 0,
                g as int == self.spread_gcd(amount as int),
                ns == self.spread_nums(amount as int),
                ns.len() == TYPE_COUNT,
                nums@.len() == TYPE_COUNT,
                forall|j: int|
                    0 <= j < TYPE_COUNT ==> -10_000_000_000_000_000_000_000_000_000_000_000_000
                        <= #[trigger] nums@[j] <= 10_000_000_000_000_000_000_000_000_000_000_000_000,
                forall|j: int| 0 <= j < TYPE_COUNT ==> #[trigger] nums@[j] as int == ns[j],
                forall|j: int|
                    0 <= j < i ==> -NUM_BOUND <= #[trigger] reduce(ns[j], g as int) <= NUM_BOUND,
            decreases TYPE_COUNT - i,
        {
            let n = nums[i];
            let q: i128 = if n >= 0 {
                n / g
            } else {
                -((-n) / g)
            };
            assert(q as int == reduce(ns[i as int], g as int));
            if q < -NUM_BOUND || q > NUM_BOUND {
                assert(!self.spread_fits(amount as int));
                return false;
            }
            i = i + 1;
        }
        let ghost d0 = self.damage@;
        let ghost table = self.spread_table(amount as int);
        let mut i: usize = 0;
        while i < TYPE_COUNT
            invariant
                i <= TYPE_COUNT,
                old(self).wf(),
                d0 == old(self).damage@,
                table == old(self).spread_table(amount as int),
                g as int == old(self).spread_gcd(amount as int),
                g > 0,
                ns == old(self).spread_nums(amount as int),
                ns.len() == TYPE_COUNT,
                forall|j: int|
                    0 <= j < TYPE_COUNT ==> -10_000_000_000_000_000_000_000_000_000_000_000_000
                        <= #[trigger] nums@[j] <= 10_000_000_000_000_000_000_000_000_000_000_000_000,
                self.den == old(self).den,
                self.name == old(self).name,
                self.mods == old(self).mods,
                self.crit_chance == old(self).crit_chance,
                self.crit_damage == old(self).crit_damage,
                self.status_chance == old(self).status_chance,
                self.damage@.len() == TYPE_COUNT,
                nums@.len() == TYPE_COUNT,
                forall|j: int| 0 <= j < TYPE_COUNT ==> #[trigger] nums@[j] as int == ns[j],
                forall|j: int|
                    0 <= j < TYPE_COUNT ==> -NUM_BOUND <= #[trigger] reduce(ns[j], g as int) <= NUM_BOUND,
                forall|j: int| 0 <= j < i ==> #[trigger] self.damage@[j] == table[j],
                forall|j: int| i <= j < TYPE_COUNT ==> #[trigger] self.damage@[j] == d0[j],
            decreases TYPE_COUNT - i,
        {
            assert(-NUM_BOUND <= reduce(ns[i as int], g as int) <= NUM_BOUND);
            if self.damage[i].is_some() {
                let n = nums[i];
                let q: i128 = if n >= 0 {
                    n / g
                } else {
                    -((-n) / g)
                };
                self.damage.set(i, Some(q));
            }
            i = i + 1;
        }
        self.den = nd;
        assert(self.damage@ =~= table);
        proof {
            lemma_reduce_exact(dd as int, g as int);
            assert(forall|j: int| 0 <= j < 4 ==> #[trigger] d0[j] == None::<i128>);
            assert forall|j: int| 0 <= j < TYPE_COUNT implies -NUM_BOUND <= #[trigger] num_of(
                self.damage@[j],
            ) <= NUM_BOUND by {
                assert(-NUM_BOUND <= reduce(ns[j], g as int) <= NUM_BOUND);
            }
            assert(nd >= 1) by (nonlinear_arith)
                requires
                    nd * g == dd,
                    dd >= 1,
                    g >= 1,
            ;
            assert forall|j: int| 0 <= j < TYPE_COUNT implies #[trigger] num_of(self.damage@[j]) * (
            old(self).den * old(self).base_spec(None)) == self.den * num_of(old(self).damage@[j]) * (
            old(self).base_spec(None) + amount * old(self).den) by {
                lemma_spread_entry(*old(self), amount as int, j);
            }
            let t = old(self).base_spec(None);
            let fa = t + amount * old(self).den;
            lemma_sum_scaled(self.damage@, old(self).damage@, old(self).den * t, nd as int, fa, TYPE_COUNT as nat);
            let x = self.base_spec(None);
            let od = old(self).den as int;
            assert(x * od == nd * fa) by (nonlinear_arith)
                requires
                    x * (od * t) == nd * t * fa,
                    t != 0,
            ;
        }
        true
    }

    /// An attribute as a fraction over 100: the base value times
    /// `(pct + 100) / 100` of the attached modifiers' percentage.
    pub fn get_attr(&self, attr: Attribute) -> (r: Ratio)
        requires
            self.wf(),
        ensures
            r.num == self.attr_spec(attr),
            r.den == 100,
            -(ATTR_BOUND * (ATTR_BOUND + 100)) <= r.num <= ATTR_BOUND * (ATTR_BOUND + 100),
    {
        let base: i128 = match attr {
            Attribute::CritChance => self.crit_chance as i128,
            Attribute::CritDamage => self.crit_damage as i128,
            Attribute::StatusChance => self.status_chance as i128,
        };
        let pct: i128 = match &self.mods {
            None => 0,
            Some(m) => match attr {
                Attribute::CritChance => m.crit_chance as i128,
                Attribute::CritDamage => m.crit_damage as i128,
                Attribute::StatusChance => m.status_chance as i128,
            },
        };
        proof {
            lemma_mul_bound(base as int, pct + 100, ATTR_BOUND as int, ATTR_BOUND + 100);
        }
        Ratio { num: base * (pct + 100), den: 100 }
    }

    /// Expected critical multiplier: crit chance / 100 times crit damage, as a
    /// fraction over 1 000 000.
    pub fn get_crit_mult(&self) -> (r: Ratio)
        requires
            self.wf(),
        ensures
            r.num == self.attr_spec(Attribute::CritChance) * self.attr_spec(Attribute::CritDamage),
            r.den == 1_000_000,
    {
        let cc = self.get_attr(Attribute::CritChance);
        let cd = self.get_attr(Attribute::CritDamage);
        proof {
            lemma_mul_bound(cc.num as int, cd.num as int, 101000000, 101000000);
        }
        Ratio { num: cc.num * cd.num, den: 1_000_000 }
    }

    /// Percentage share of `dmg_type` in the whole hit: its direct-hit damage
    /// over the whole hit's, times 100. None when the whole hit deals no damage.
    pub fn get_status_weight(&self, dmg_type: Type) -> (r: Option<Ratio>)
        requires
            self.wf(),
        ensures
            r is None <==> self.damage_spec(None, false) == 0,
            r is Some ==> r == Some(
                Ratio {
                    num: (self.damage_spec(Some(dmg_type), false) * 100) as i128,
                    den: self.damage_spec(None, false) as i128,
                },
            ),
    {
        proof {
            lemma_mult_bound();
        }
        let total = self.get_damage(None, false);
        if total.num == 0 {
            return None;
        }
        let d = self.type_damage(dmg_type, false);
        Some(Ratio { num: d * 100, den: total.num })
    }

    /// Expected status chance of `dmg_type`: status chance / 100 times its
    /// status weight, which reduces to `status * damage / (100 * total)` with the
    /// status chance over 100. None when the whole hit deals no damage.
    pub fn get_status_chance(&self, dmg_type: Type) -> (r: Option<Ratio>)
        requires
            self.wf(),
        ensures
            r is None <==> self.damage_spec(None, false) == 0,
            r is Some ==> r == Some(
                Ratio {
                    num: (self.attr_spec(Attribute::StatusChance) * self.damage_spec(
                        Some(dmg_type),
                        false,
                    )) as i128,
                    den: (100 * self.damage_spec(None, false)) as i128,
                },
            ),
    {
        proof {
            lemma_mult_bound();
        }
        let total = self.get_damage(None, false);
        if total.num == 0 {
            return None;
        }
        let d = self.type_damage(dmg_type, false);
        let sc = self.get_attr(Attribute::StatusChance);
        proof {
            lemma_mul_bound(sc.num as int, d as int, 101000000, 30116537000000000000000000000);
        }
        Some(Ratio { num: sc.num * d, den: 100 * total.num })
    }

    /// Whether `dmg_type` is live for this weapon and its modifiers.
    pub fn has_dmg(&self, dmg_type: Type) -> (r: bool)
        requires
            self.wf(),
        ensures
            r == self.has_spec(dmg_type),
            dmg_type.is_mult() ==> !r,
    {
        let o = dmg_type.ordinal();
        if dmg_type.mult() {
            return false;
        }
        if self.damage[o].is_some() {
            return true;
        }
        match &self.mods {
            Some(m) => m.damage[o].is_some(),
            None => false,
        }
    }

    /// The live damage types, in type order.
    pub fn valid_dmg_list(&self) -> (r: Vec<Type>)
        requires
            self.wf(),
        ensures
            r@ == self.valid_prefix(TYPE_COUNT as nat),
    {
        let mut items: Vec<Type> = Vec::new();
        let mut i: usize = 0;
        while i < TYPE_COUNT
            invariant
                self.wf(),
                i <= TYPE_COUNT,
                items@ == self.valid_prefix(i as nat),
            decreases TYPE_COUNT - i,
        {
            let t = Type::from_ordinal(i);
            if self.has_dmg(t) {
                items.push(t);
            }
            i = i + 1;
        }
        items
    }

    /// The live damage-over-time types, in type order.
    pub fn dot_types(&self) -> (r: Vec<Type>)
        requires
            self.wf(),
        ensures
            r@ == self.dot_prefix(TYPE_COUNT as nat),
    {
        let mut items: Vec<Type> = Vec::new();
        let mut i: usize = 0;
        while i < TYPE_COUNT
            invariant
                self.wf(),
                i <= TYPE_COUNT,
                items@ == self.dot_prefix(i as nat),
            decreases TYPE_COUNT - i,
        {
            let t = Type::from_ordinal(i);
            if t.dot() && self.has_dmg(t) {
                items.push(t);
            }
            i = i + 1;
        }
        items
    }

    /// The three factors of the expected damage-over-time of `dmg_type`, whose
    /// product is that expectation: its damage in a damage-over-time context,
    /// the expected critical multiplier, and its status chance over 100.
    /// None when the whole hit deals no damage.
    pub fn get_dot_factors(&self, dmg_type: Type) -> (r: Option<(Ratio, Ratio, Ratio)>)
        requires
            self.wf(),
        ensures
            r is None <==> self.damage_spec(None, false) == 0,
            r matches Some((d, c, s)) ==> {
                &&& d.num == self.damage_spec(Some(dmg_type), true)
                &&& d.den == self.den * MULT_ONE
                &&& c.num == self.attr_spec(Attribute::CritChance) * self.attr_spec(
                    Attribute::CritDamage,
                )
                &&& c.den == 1_000_000
                &&& s.num == self.attr_spec(Attribute::StatusChance) * self.damage_spec(
                    Some(dmg_type),
                    false,
                )
                &&& s.den == self.damage_spec(None, false) * 10000
            },
    {
        proof {
            lemma_mult_bound();
        }
        let total = self.get_damage(None, false);
        if total.num == 0 {
            return None;
        }
        let d = self.get_damage(Some(dmg_type), true);
        let c = self.get_crit_mult();
        let t = self.type_damage(dmg_type, false);
        let sc = self.get_attr(Attribute::StatusChance);
        proof {
            lemma_mul_bound(sc.num as int, t as int, 101000000, 30116537000000000000000000000);
        }
        Some((d, c, Ratio { num: sc.num * t, den: total.num * 10000 }))
    }

    /// Damage numerator (over `den * MULT_ONE`) of one type.
    fn type_damage(&self, t: Type, dot: bool) -> (r: i128)
        requires
            self.wf(),
        ensures
            r as int == self.type_damage_spec(t, dot),
            -type_damage_bound() <= r <= type_damage_bound(),
    {
        proof {
            lemma_type_at_ord(t);
            lemma_mult_bound();
        }
        let o = t.ordinal();
        assert(-NUM_BOUND <= num_of(self.damage@[o as int]) <= NUM_BOUND);
        match &self.mods {
            None => {
                let n: i128 = match self.damage[o] {
                    Some(v) => v,
                    None => 0,
                };
                proof {
                    lemma_mul_bound(n as int, MULT_ONE as int, TYPE_COUNT * NUM_BOUND, mult_bound());
                }
                n * MULT_ONE
            },
            Some(m) => {
                if t.mult() || !self.has_dmg(t) {
                    0
                } else {
                    let pool: i128 = if t.ips() && self.damage[o].is_some() {
                        match self.damage[o] {
                            Some(v) => v,
                            None => 0,
                        }
                    } else {
                        self.base_total()
                    };
                    let k = m.get_dmg_mult(Some(t), dot);
                    proof {
                        lemma_mul_bound(pool as int, k as int, TYPE_COUNT * NUM_BOUND, mult_bound());
                    }
                    pool * k
                }
            },
        }
    }

    /// Damage of a type, or of the whole hit when `dmg_type` is absent, as a
    /// fraction over `den * MULT_ONE`. Without modifiers this is the base damage.
    /// With modifiers a type's damage is its pool times its multiplier (zero for
    /// a type that is not live), and the whole hit sums the direct-hit damage of
    /// every live type.
    pub fn get_damage(&self, dmg_type: Option<Type>, dot: bool) -> (r: Ratio)
        requires
            self.wf(),
        ensures
            r.num == self.damage_spec(dmg_type, dot),
            r.den == self.den * MULT_ONE,
            -511981129000000000000000000000 <= r.num <= 511981129000000000000000000000,
    {
        proof {
            lemma_mult_bound();
        }
        let den = self.den * MULT_ONE;
        match dmg_type {
            Some(t) => Ratio { num: self.type_damage(t, dot), den },
            None => {
                if self.mods.is_none() {
                    let b = self.base_total();
                    return Ratio { num: b * MULT_ONE, den };
                }
                let mut s: i128 = 0;
                let mut i: usize = 0;
                while i < TYPE_COUNT
                    invariant
                        self.wf(),
                        self.mods is Some,
                        i <= TYPE_COUNT,
                        s as int == self.live_sum(i as nat),
                        -(i * 30116537000000000000000000000) <= s <= i * 30116537000000000000000000000,
                        type_damage_bound() == 30116537000000000000000000000,
                    decreases TYPE_COUNT - i,
                {
                    let t = Type::from_ordinal(i);
                    if self.has_dmg(t) {
                        let d = self.type_damage(t, false);
                        s = s + d;
                    }
                    i = i + 1;
                }
                Ratio { num: s, den }
            },
        }
    }
}

proof fn lemma_mult_bound()
    ensures
        mult_bound() == 1771561000000000000,
        MULT_ONE <= mult_bound(),
        type_damage_bound() == 30116537000000000000000000000,
{
    reveal_with_fuel(pow, 7);
}

proof fn lemma_mul_bound(a: int, b: int, x: int, y: int)
    requires
        -x <= a <= x,
        -y <= b <= y,
    ensures
        -(x * y) <= a * b <= x * y,
{
    assert(-(x * y) <= a * b <= x * y) by (nonlinear_arith)
        requires
            -x <= a <= x,
            -y <= b <= y,
    ;
}

proof fn lemma_present_prefix(w: Weapon, n: nat)
    requires
        w.wf(),
        n <= TYPE_COUNT,
    ensures
        base_sum(w.damage@, n) == w.present_sum(n),
    decreases n,
{
    if n > 0 {
        lemma_present_prefix(w, (n - 1) as nat);
        lemma_ord_type_at(n - 1);
    }
}

/// The total base damage equals the sum of the base damage of every type
/// present in the weapon's table.
pub proof fn lemma_base_total_sums_present(w: Weapon)
    requires
        w.wf(),
    ensures
        w.base_spec(None) == w.present_sum(TYPE_COUNT as nat),
{
    lemma_present_prefix(w, TYPE_COUNT as nat);
}

proof fn lemma_spread_den_positive(w: Weapon)
    requires
        w.wf(),
        w.base_spec(None) != 0,
    ensures
        w.spread_den() >= 1,
{
    let t = w.base_spec(None);
    assert(w.spread_den() >= 1) by (nonlinear_arith)
        requires
            w.spread_den() == (if t > 0 { w.den * t } else { -(w.den * t) }),
            w.den >= 1,
            t != 0,
    ;
}

/// One entry of a spread: reduced numerator over reduced denominator equals
/// `v * (T + amount * den) / (den * T)`.
proof fn lemma_spread_entry(w: Weapon, amount: int, i: int)
    requires
        w.wf(),
        w.spread_fits(amount),
        0 <= i < TYPE_COUNT,
    ensures
        num_of(w.spread_table(amount)[i]) * (w.den * w.base_spec(None)) == (w.spread_den()
            / w.spread_gcd(amount)) * num_of(w.damage@[i]) * (w.base_spec(None) + amount * w.den),
{
    let t = w.base_spec(None);
    let ns = w.spread_nums(amount);
    let dd = w.spread_den();
    let g = w.spread_gcd(amount);
    lemma_spread_den_positive(w);
    lemma_fold_gcd_divides(dd as nat, ns, TYPE_COUNT as nat);
    lemma_reduce_exact(ns[i], g);
    lemma_reduce_exact(dd, g);
    let v = num_of(w.damage@[i]);
    let f = w.spread_factor(amount);
    let ri = num_of(w.spread_table(amount)[i]);
    assert(ri == reduce(ns[i], g)) by {
        if w.damage@[i] is Some {
            assert(-NUM_BOUND <= reduce(ns[i], g) <= NUM_BOUND);
        } else {
            assert(ns[i] == 0 * f);
        }
    }
    let nd = dd / g;
    assert(nd == reduce(dd, g));
    assert(ri * (w.den * t) == nd * v * (t + amount * w.den)) by (nonlinear_arith)
        requires
            ri * g == v * f,
            nd * g == dd,
            g > 0,
            (t > 0 && f == t + amount * w.den && dd == w.den * t) || (t < 0 && f == -(t + amount
                * w.den) && dd == -(w.den * t)),
    ;
}

proof fn lemma_sum_scaled(a: Seq<Option<i128>>, b: Seq<Option<i128>>, k: int, m: int, f: int, n: nat)
    requires
        n <= a.len(),
        n <= b.len(),
        forall|i: int| 0 <= i < n ==> #[trigger] num_of(a[i]) * k == m * num_of(b[i]) * f,
    ensures
        base_sum(a, n) * k == m * base_sum(b, n) * f,
    decreases n,
{
    if n > 0 {
        lemma_sum_scaled(a, b, k, m, f, (n - 1) as nat);
        let sa = base_sum(a, (n - 1) as nat);
        let sb = base_sum(b, (n - 1) as nat);
        let x = num_of(a[n - 1]);
        let y = num_of(b[n - 1]);
        assert((sa + x) * k == m * (sb + y) * f) by (nonlinear_arith)
            requires
                sa * k == m * sb * f,
                x * k == m * y * f,
        ;
    } else {
        assert(0 * k == m * 0 * f) by (nonlinear_arith);
    }
}

} // verus!
