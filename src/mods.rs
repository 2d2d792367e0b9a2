use vstd::prelude::*;

use crate::damage::{lemma_type_at_ord, type_at, Type, TYPE_COUNT};

verus! {

/// Largest magnitude of an accumulated damage percentage (whole percents).
/// Together with `ATTR_BOUND` and the base-damage bounds of the weapon, it is
/// chosen so that every exact product the queries form fits in an `i128`.
pub const PCT_BOUND: i64 = 1000;

/// Largest magnitude of an attribute value or attribute percentage (whole
/// percents); one of the joint bounds that keep every exact product in `i128`.
pub const ATTR_BOUND: i64 = 10000;

/// Largest number of factors a multiplier is built from.
pub const MAX_FACTORS: usize = 6;

/// Fixed-point scale of a damage multiplier: a multiplier of 1 is `MULT_ONE`.
pub const MULT_ONE: i128 = 1_000_000_000_000;

/// `b` raised to the power `n`.
pub open spec fn pow(b: int, n: nat) -> int
    decreases n,
{
    if n == 0 {
        1
    } else {
        pow(b, (n - 1) as nat) * b
    }
}

/// The percentage stored for a slot, absent meaning zero.
pub open spec fn pct_of(e: Option<i64>) -> int {
    match e {
        Some(v) => v as int,
        None => 0,
    }
}

/// The table after adding `amount` to the entry of `t`.
pub open spec fn accumulate(p: Seq<Option<i64>>, t: Type, amount: int) -> Seq<Option<i64>> {
    p.update(t.ord(), Some((pct_of(p[t.ord()]) + amount) as i64))
}

/// Percentages applied from the multiplicative entries among the first `n`
/// slots, in type order; a Faction entry is applied twice in a damage-over-time
/// context.
pub open spec fn bucket_factors(p: Seq<Option<i64>>, n: nat, dot: bool) -> Seq<int>
    decreases n,
{
    if n == 0 {
        seq![]
    } else {
        let prev = bucket_factors(p, (n - 1) as nat, dot);
        match p[n - 1] {
            Some(v) => if n - 1 == 1 && dot {
                prev.push(v as int).push(v as int)
            } else {
                prev.push(v as int)
            },
            None => prev,
        }
    }
}

/// The percentage of the requested type's own entry, if it applies: Slash and
/// Gas skip their own entry in a damage-over-time context.
pub open spec fn own_factor(p: Seq<Option<i64>>, t: Type, dot: bool) -> Seq<int> {
    match p[t.ord()] {
        Some(v) => if (t == Type::Slash || t == Type::Gas) && dot {
            seq![]
        } else {
            seq![v as int]
        },
        None => seq![],
    }
}

/// All percentages that make up the multiplier for `ty`.
pub open spec fn mult_factors(p: Seq<Option<i64>>, ty: Option<Type>, dot: bool) -> Seq<int> {
    let b = bucket_factors(p, 4, dot);
    match ty {
        Some(t) => b + own_factor(p, t, dot),
        None => b,
    }
}

/// Product of `(pct + 100)` over the percentages.
pub open spec fn factor_product(s: Seq<int>) -> int
    decreases s.len(),
{
    if s.len() == 0 {
        1
    } else {
        factor_product(s.drop_last()) * (s.last() + 100)
    }
}

/// The multiplier `product of (pct + 100) / 100` scaled by `MULT_ONE`: since at
/// most `MAX_FACTORS` factors apply, it is an exact integer.
pub open spec fn scaled_mult(p: Seq<Option<i64>>, ty: Option<Type>, dot: bool) -> int {
    let f = mult_factors(p, ty, dot);
    factor_product(f) * pow(100, (MAX_FACTORS - f.len()) as nat)
}

/// A set of modifiers: a percentage per damage type and three attribute
/// percentages, all in whole percents.
pub struct Mods {
    pub combination_name: String,
    /// Accumulated percentage per type, indexed by the type's position.
    pub damage: Vec<Option<i64>>,
    pub crit_chance: i64,
    pub crit_damage: i64,
    pub status_chance: i64,
}

impl Mods {
    pub open spec fn wf(&self) -> bool {
        &&& self.damage@.len() == TYPE_COUNT
        &&& forall|i: int|
            0 <= i < TYPE_COUNT ==> -PCT_BOUND <= #[trigger] pct_of(self.damage@[i]) <= PCT_BOUND
        &&& -ATTR_BOUND <= self.crit_chance <= ATTR_BOUND
        &&& -ATTR_BOUND <= self.crit_damage <= ATTR_BOUND
        &&& -ATTR_BOUND <= self.status_chance <= ATTR_BOUND
    }

    /// An empty modifier set with the given attribute percentages.
    pub fn new(combination_name: &str, crit_chance: i64, crit_damage: i64, status_chance: i64) -> (r: Mods)
        requires
            -ATTR_BOUND <= crit_chance <= ATTR_BOUND,
            -ATTR_BOUND <= crit_damage <= ATTR_BOUND,
            -ATTR_BOUND <= status_chance <= ATTR_BOUND,
        ensures
            r.wf(),
            r.combination_name@ == combination_name@,
            forall|i: int| 0 <= i < TYPE_COUNT ==> #[trigger] r.damage@[i] == None::<i64>,
            r.crit_chance == crit_chance,
            r.crit_damage == crit_damage,
            r.status_chance == status_chance,
    {
        let mut damage: Vec<Option<i64>> = Vec::new();
        let mut i: usize = 0;
        while i < TYPE_COUNT
            invariant
                i <= TYPE_COUNT,
                damage@.len() == i,
                forall|j: int| 0 <= j < i ==> #[trigger] damage@[j] == None::<i64>,
            decreases TYPE_COUNT - i,
        {
            damage.push(None);
            i = i + 1;
        }
        Mods {
            combination_name: combination_name.to_owned(),
            damage,
            crit_chance,
            crit_damage,
            status_chance,
        }
    }

    /// Adds `amount` percent to the entry of `dmg_type`, creating it if absent.
    pub fn add_damage(&mut self, dmg_type: Type, amount: i64)
        requires
            old(self).wf(),
            -PCT_BOUND <= pct_of(old(self).damage@[dmg_type.ord()]) + amount <= PCT_BOUND,
        ensures
            final(self).wf(),
            final(self).damage@ == accumulate(old(self).damage@, dmg_type, amount as int),
            final(self).combination_name == old(self).combination_name,
            final(self).crit_chance == old(self).crit_chance,
            final(self).crit_damage == old(self).crit_damage,
            final(self).status_chance == old(self).status_chance,
    {
        let o = dmg_type.ordinal();
        let cur: i64 = match self.damage[o] {
            Some(v) => v,
            None => 0,
        };
        self.damage.set(o, Some(cur + amount));
        assert forall|i: int| 0 <= i < TYPE_COUNT implies -PCT_BOUND <= #[trigger] pct_of(
            self.damage@[i],
        ) <= PCT_BOUND by {
            if i != o as int {
                assert(self.damage@[i] == old(self).damage@[i]);
            }
        }
    }
    /// The damage multiplier for `dmg_type` (or for the undifferentiated base pool
    /// when absent), scaled by `MULT_ONE`: the product of `(pct + 100) / 100` over
    /// every multiplicative entry (Faction twice when `dot`), then over the
    /// requested type's own entry, which Slash and Gas skip when `dot`.
    pub fn get_dmg_mult(&self, dmg_type: Option<Type>, dot: bool) -> (r: i128)
        requires
            self.wf(),
        ensures
            r as int == scaled_mult(self.damage@, dmg_type, dot),
            -pow(1100, MAX_FACTORS as nat) <= r <= pow(1100, MAX_FACTORS as nat),
    {
        proof {
            lemma_pow_1100_6();
        }
        let ghost p = self.damage@;
        let mut prod: i128 = 1;
        let mut count: usize = 0;
        let mut i: usize = 0;
        while i < 4
            invariant
                self.wf(),
                p == self.damage@,
                i <= 4,
                count as int == bucket_factors(p, i as nat, dot).len(),
                prod as int == factor_product(bucket_factors(p, i as nat, dot)),
                count as int <= i + (if i >= 2 { 1int } else { 0int }),
                -pow(1100, count as nat) <= prod <= pow(1100, count as nat),
                pow(1100, MAX_FACTORS as nat) == 1771561000000000000,
            decreases 4 - i,
        {
            let ghost prev = bucket_factors(p, i as nat, dot);
            assert(-PCT_BOUND <= pct_of(self.damage@[i as int]) <= PCT_BOUND);
            match self.damage[i] {
                Some(v) => {
                    proof {
                        lemma_factor_step(prod as int, count as nat, v as int);
                        lemma_pow_mono(1100, (count + 1) as nat, MAX_FACTORS as nat);
                        lemma_product_push(prev, v as int);
                    }
                    prod = prod * (v as i128 + 100);
                    count = count + 1;
                    if i == 1 && dot {
                        proof {
                            lemma_factor_step(prod as int, count as nat, v as int);
                            lemma_pow_mono(1100, (count + 1) as nat, MAX_FACTORS as nat);
                            lemma_product_push(prev.push(v as int), v as int);
                        }
                        prod = prod * (v as i128 + 100);
                        count = count + 1;
                    }
                },
                None => {},
            }
            i = i + 1;
        }
        let ghost b = bucket_factors(p, 4, dot);
        if let Some(t) = dmg_type {
            let o = t.ordinal();
            assert(-PCT_BOUND <= pct_of(self.damage@[o as int]) <= PCT_BOUND);
            match self.damage[o] {
                Some(v) => {
                    if !((t == Type::Slash || t == Type::Gas) && dot) {
                        proof {
                            lemma_factor_step(prod as int, count as nat, v as int);
                            lemma_pow_mono(1100, (count + 1) as nat, MAX_FACTORS as nat);
                            lemma_product_push(b, v as int);
                            assert(b + seq![v as int] =~= b.push(v as int));
                        }
                        prod = prod * (v as i128 + 100);
                        count = count + 1;
                    } else {
                        assert(b + seq![] =~= b);
                    }
                },
                None => {
                    assert(b + seq![] =~= b);
                },
            }
        }
        let ghost f = mult_factors(p, dmg_type, dot);
        assert(count as int == f.len());
        assert(prod as int == factor_product(f) * pow(100, (count - f.len()) as nat));
        while count < MAX_FACTORS
            invariant
                f.len() <= count <= MAX_FACTORS,
                prod as int == factor_product(f) * pow(100, (count - f.len()) as nat),
                -pow(1100, count as nat) <= prod <= pow(1100, count as nat),
                pow(1100, MAX_FACTORS as nat) == 1771561000000000000,
            decreases MAX_FACTORS - count,
        {
            proof {
                lemma_factor_step(prod as int, count as nat, 0);
                lemma_pow_mono(1100, (count + 1) as nat, MAX_FACTORS as nat);
                assert(pow(100, (count + 1 - f.len()) as nat) == pow(100, (count - f.len()) as nat)
                    * 100);
                assert(factor_product(f) * pow(100, (count - f.len()) as nat) * 100 == factor_product(
                    f,
                ) * (pow(100, (count - f.len()) as nat) * 100)) by (nonlinear_arith);
            }
            prod = prod * 100;
            count = count + 1;
        }
        prod
    }
}

/// Appending a percentage multiplies the product by its factor.
pub proof fn lemma_product_push(s: Seq<int>, v: int)
    ensures
        factor_product(s.push(v)) == factor_product(s) * (v + 100),
{
    assert(s.push(v).drop_last() =~= s);
}

proof fn lemma_factor_step(a: int, k: nat, v: int)
    requires
        -pow(1100, k) <= a <= pow(1100, k),
        -PCT_BOUND <= v <= PCT_BOUND,
    ensures
        -pow(1100, k + 1) <= a * (v + 100) <= pow(1100, k + 1),
{
    let b = pow(1100, k);
    assert(pow(1100, k + 1) == b * 1100);
    assert(-(b * 1100) <= a * (v + 100) <= b * 1100) by (nonlinear_arith)
        requires
            -b <= a <= b,
            -1100 <= v + 100 <= 1100,
    ;
}

proof fn lemma_pow_mono(b: int, m: nat, n: nat)
    requires
        b >= 1,
        m <= n,
    ensures
        1 <= pow(b, m) <= pow(b, n),
    decreases n,
{
    if m < n {
        lemma_pow_mono(b, m, (n - 1) as nat);
        let x = pow(b, (n - 1) as nat);
        assert(x <= x * b) by (nonlinear_arith)
            requires
                x >= 1,
                b >= 1,
        ;
    } else if n > 0 {
        lemma_pow_mono(b, (n - 1) as nat, (n - 1) as nat);
        let x = pow(b, (n - 1) as nat);
        assert(1 <= x * b) by (nonlinear_arith)
            requires
                x >= 1,
                b >= 1,
        ;
    }
}

proof fn lemma_pow_1100_6()
    ensures
        pow(1100, MAX_FACTORS as nat) == 1771561000000000000,
        pow(100, MAX_FACTORS as nat) == MULT_ONE,
{
    reveal_with_fuel(pow, 7);
}

/// Whether adding `amount` to the entry of `t` keeps it within `PCT_BOUND`.
pub fn pct_bound_ok(mods: &Mods, t: Type, amount: i64) -> (r: bool)
    requires
        mods.wf(),
    ensures
        r == (-PCT_BOUND <= pct_of(mods.damage@[t.ord()]) + amount <= PCT_BOUND),
{
    let cur: i64 = match mods.damage[t.ordinal()] {
        Some(v) => v,
        None => 0,
    };
    let s: i128 = cur as i128 + amount as i128;
    -(PCT_BOUND as i128) <= s && s <= PCT_BOUND as i128
}

/// At most one factor per multiplicative slot, plus the repeated Faction one.
pub proof fn lemma_bucket_len(p: Seq<Option<i64>>, n: nat, dot: bool)
    requires
        n <= p.len(),
    ensures
        bucket_factors(p, n, dot).len() <= n + (if n >= 2 { 1int } else { 0int }),
    decreases n,
{
    if n > 0 {
        lemma_bucket_len(p, (n - 1) as nat, dot);
    }
}

/// Scaling after one more factor: the scaled value gains the factor
/// `(v + 100) / 100`.
pub proof fn lemma_scaled_push(f: Seq<int>, v: int)
    requires
        f.len() < MAX_FACTORS,
    ensures
        factor_product(f.push(v)) * pow(100, (MAX_FACTORS - f.len() - 1) as nat) * 100
            == factor_product(f) * pow(100, (MAX_FACTORS - f.len()) as nat) * (v + 100),
{
    lemma_product_push(f, v);
    let q = pow(100, (MAX_FACTORS - f.len() - 1) as nat);
    assert(pow(100, (MAX_FACTORS - f.len()) as nat) == q * 100);
    let a = factor_product(f);
    assert(a * (v + 100) * q * 100 == a * (q * 100) * (v + 100)) by (nonlinear_arith);
}

/// With no entries the multiplier is exactly one, for any type and context.
pub proof fn lemma_empty_mult_is_one(p: Seq<Option<i64>>, ty: Option<Type>, dot: bool)
    requires
        p.len() == TYPE_COUNT,
        forall|i: int| 0 <= i < TYPE_COUNT ==> #[trigger] p[i] == None::<i64>,
    ensures
        scaled_mult(p, ty, dot) == MULT_ONE,
{
    reveal_with_fuel(bucket_factors, 5);
    assert(p[0] == None::<i64> && p[1] == None::<i64> && p[2] == None::<i64> && p[3] == None::<i64>);
    if let Some(t) = ty {
        lemma_type_at_ord(t);
        assert(p[t.ord()] == None::<i64>);
    }
    assert(mult_factors(p, ty, dot) =~= seq![]);
    lemma_pow_1100_6();
}

/// Two additions to one entry equal a single addition of their sum, so every
/// multiplier is the same either way.
pub proof fn lemma_accumulate_additive(p: Seq<Option<i64>>, t: Type, a: int, b: int)
    requires
        p.len() == TYPE_COUNT,
        -PCT_BOUND <= pct_of(p[t.ord()]) + a <= PCT_BOUND,
        -PCT_BOUND <= pct_of(p[t.ord()]) + a + b <= PCT_BOUND,
    ensures
        accumulate(accumulate(p, t, a), t, b) == accumulate(p, t, a + b),
        forall|ty: Option<Type>, dot: bool|
            scaled_mult(#[trigger] accumulate(accumulate(p, t, a), t, b), ty, dot) == scaled_mult(
                accumulate(p, t, a + b),
                ty,
                dot,
            ),
{
    lemma_type_at_ord(t);
    assert(accumulate(accumulate(p, t, a), t, b) =~= accumulate(p, t, a + b));
}

/// Additions to one entry commute: the order of two additions does not
/// change the table, hence not any multiplier.
pub proof fn lemma_accumulate_commutes(p: Seq<Option<i64>>, t: Type, a: int, b: int)
    requires
        p.len() == TYPE_COUNT,
        -PCT_BOUND <= pct_of(p[t.ord()]) + a <= PCT_BOUND,
        -PCT_BOUND <= pct_of(p[t.ord()]) + b <= PCT_BOUND,
        -PCT_BOUND <= pct_of(p[t.ord()]) + a + b <= PCT_BOUND,
    ensures
        accumulate(accumulate(p, t, a), t, b) == accumulate(accumulate(p, t, b), t, a),
{
    lemma_accumulate_additive(p, t, a, b);
    lemma_accumulate_additive(p, t, b, a);
    assert(a + b == b + a);
}

/// For Slash and Gas the requested type's own entry is skipped in a
/// damage-over-time context; otherwise a present entry of the requested type
/// contributes exactly its factor `(v + 100) / 100`.
pub proof fn lemma_own_factor(p: Seq<Option<i64>>, t: Type, v: i64, dot: bool)
    requires
        p.len() == TYPE_COUNT,
    ensures
        (t == Type::Slash || t == Type::Gas) ==> scaled_mult(p, Some(t), true) == scaled_mult(
            p,
            None,
            true,
        ),
        (p[t.ord()] == Some(v) && !((t == Type::Slash || t == Type::Gas) && dot)) ==> scaled_mult(
            p,
            Some(t),
            dot,
        ) * 100 == scaled_mult(p, None, dot) * (v + 100),
{
    let b = bucket_factors(p, 4, dot);
    lemma_bucket_len(p, 4, dot);
    if t == Type::Slash || t == Type::Gas {
        let bt = bucket_factors(p, 4, true);
        assert(mult_factors(p, Some(t), true) =~= bt + own_factor(p, t, true));
        assert(own_factor(p, t, true) =~= seq![]);
        assert(bt + seq![] =~= bt);
    }
    if p[t.ord()] == Some(v) && !((t == Type::Slash || t == Type::Gas) && dot) {
        assert(mult_factors(p, Some(t), dot) =~= b.push(v as int));
        lemma_scaled_push(b, v as int);
    }
}

proof fn lemma_faction_bucket(p: Seq<Option<i64>>, n: nat)
    requires
        2 <= n <= p.len(),
    ensures
        p[1] is None ==> bucket_factors(p, n, true) == bucket_factors(p, n, false),
        p[1] is Some ==> bucket_factors(p, n, true).len() == bucket_factors(p, n, false).len() + 1
            && factor_product(bucket_factors(p, n, true)) == factor_product(
            bucket_factors(p, n, false),
        ) * (pct_of(p[1]) + 100),
    decreases n,
{
    let t = bucket_factors(p, (n - 1) as nat, true);
    let f = bucket_factors(p, (n - 1) as nat, false);
    if n == 2 {
        reveal_with_fuel(bucket_factors, 2);
        assert(t == f);
        if let Some(v) = p[1] {
            lemma_product_push(f, v as int);
            lemma_product_push(f.push(v as int), v as int);
        }
    } else {
        lemma_faction_bucket(p, (n - 1) as nat);
        if let Some(w) = p[n - 1] {
            lemma_product_push(t, w as int);
            lemma_product_push(f, w as int);
            if let Some(v) = p[1] {
                let a = factor_product(f);
                assert(a * (v + 100) * (w + 100) == a * (w + 100) * (v + 100)) by (nonlinear_arith);
            }
        }
    }
}

/// A Faction entry applies twice in a damage-over-time context and once
/// otherwise; without one both contexts agree.
pub proof fn lemma_faction_twice(p: Seq<Option<i64>>)
    requires
        p.len() == TYPE_COUNT,
    ensures
        p[1] is None ==> scaled_mult(p, None, true) == scaled_mult(p, None, false),
        p[1] is Some ==> scaled_mult(p, None, true) * 100 == scaled_mult(p, None, false) * (
        pct_of(p[1]) + 100),
{
    lemma_faction_bucket(p, 4);
    lemma_bucket_len(p, 4, false);
    lemma_bucket_len(p, 4, true);
    let f = bucket_factors(p, 4, false);
    let t = bucket_factors(p, 4, true);
    if p[1] is Some {
        let v = pct_of(p[1]);
        let q = pow(100, (MAX_FACTORS - f.len() - 1) as nat);
        assert(pow(100, (MAX_FACTORS - f.len()) as nat) == q * 100);
        assert(t.len() == f.len() + 1);
        let a = factor_product(f);
        assert(a * (v + 100) * q * 100 == a * (q * 100) * (v + 100)) by (nonlinear_arith);
    }
}

} // verus!
