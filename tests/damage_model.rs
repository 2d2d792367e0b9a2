use warframe::damage::{Attribute, Type, TYPE_COUNT};
use warframe::mods::{pct_bound_ok, Mods, MULT_ONE, PCT_BOUND};
use warframe::weapon::{Ratio, Weapon};

fn value(r: Ratio) -> f64 {
    r.num as f64 / r.den as f64
}

fn close(a: f64, b: f64) -> bool {
    (a - b).abs() < 1e-9
}

fn ips_weapon() -> Weapon {
    let mut w = Weapon::new("Whipclaw", 25, 2, 20);
    assert!(w.insert_damage(Type::Impact, 100));
    assert!(w.insert_damage(Type::Puncture, 100));
    assert!(w.insert_damage(Type::Slash, 100));
    w
}

#[test]
fn classes_partition_every_type() {
    for t in Type::all() {
        let n = t.mult() as u8 + t.ips() as u8 + (t.elem() && !t.ips() && !t.mult()) as u8;
        assert_eq!(n, 1);
        if t.mix() {
            assert!(t.elem());
        }
    }
}

#[test]
fn declaration_order_is_pinned() {
    let all = Type::all();
    assert_eq!(all.len(), TYPE_COUNT);
    for (i, t) in all.iter().enumerate() {
        assert_eq!(t.ordinal(), i);
        assert_eq!(Type::from_ordinal(i), *t);
        assert_eq!(t.mult(), i < 4);
        assert_eq!(t.ips(), (4..=6).contains(&i));
        assert_eq!(t.elem(), i >= 7);
        assert_eq!(t.mix(), i >= 11);
    }
    assert_eq!(all[0], Type::Base);
    assert_eq!(all[4], Type::Impact);
    assert_eq!(all[7], Type::Heat);
    assert_eq!(all[11], Type::Blast);
    assert_eq!(all[16], Type::Viral);
}

#[test]
fn dot_types() {
    let dots: Vec<Type> = Type::all().into_iter().filter(|t| t.dot()).collect();
    assert_eq!(dots, vec![Type::Slash, Type::Heat, Type::Electric, Type::Gas]);
}

#[test]
fn empty_mods_multiplier_is_one() {
    let m = Mods::new("empty", 0, 0, 0);
    for dot in [false, true] {
        assert_eq!(m.get_dmg_mult(None, dot), MULT_ONE);
        for t in Type::all() {
            assert_eq!(m.get_dmg_mult(Some(t), dot), MULT_ONE);
        }
    }
}

#[test]
fn add_damage_accumulates() {
    let mut a = Mods::new("a", 0, 0, 0);
    a.add_damage(Type::Heat, 30);
    a.add_damage(Type::Heat, 45);
    let mut b = Mods::new("b", 0, 0, 0);
    b.add_damage(Type::Heat, 75);
    assert_eq!(a.damage, b.damage);
    for dot in [false, true] {
        assert_eq!(a.get_dmg_mult(Some(Type::Heat), dot), b.get_dmg_mult(Some(Type::Heat), dot));
    }
    assert_eq!(a.get_dmg_mult(Some(Type::Heat), false), 1_750_000_000_000);
}

#[test]
fn slash_and_gas_skip_own_entry_in_dot() {
    let mut m = Mods::new("m", 0, 0, 0);
    m.add_damage(Type::Slash, 100);
    m.add_damage(Type::Gas, 50);
    m.add_damage(Type::Heat, 50);
    m.add_damage(Type::Base, 100);
    assert_eq!(m.get_dmg_mult(Some(Type::Slash), true), 2 * MULT_ONE);
    assert_eq!(m.get_dmg_mult(Some(Type::Slash), false), 4 * MULT_ONE);
    assert_eq!(m.get_dmg_mult(Some(Type::Gas), true), 2 * MULT_ONE);
    assert_eq!(m.get_dmg_mult(Some(Type::Gas), false), 3 * MULT_ONE);
    assert_eq!(m.get_dmg_mult(Some(Type::Heat), true), 3 * MULT_ONE);
    assert_eq!(m.get_dmg_mult(Some(Type::Heat), false), 3 * MULT_ONE);
}

#[test]
fn faction_applies_twice_in_dot() {
    let mut m = Mods::new("m", 0, 0, 0);
    m.add_damage(Type::Faction, 50);
    assert_eq!(m.get_dmg_mult(None, false), 1_500_000_000_000);
    assert_eq!(m.get_dmg_mult(None, true), 2_250_000_000_000);
    m.add_damage(Type::Eclipse, 100);
    assert_eq!(m.get_dmg_mult(None, false), 3_000_000_000_000);
    assert_eq!(m.get_dmg_mult(None, true), 4_500_000_000_000);
}

#[test]
fn requested_multiplicative_type_applies_again() {
    let mut m = Mods::new("m", 0, 0, 0);
    m.add_damage(Type::Base, 100);
    assert_eq!(m.get_dmg_mult(None, false), 2 * MULT_ONE);
    assert_eq!(m.get_dmg_mult(Some(Type::Base), false), 4 * MULT_ONE);
}

#[test]
fn negative_percent_is_a_penalty() {
    let mut m = Mods::new("m", 0, 0, 0);
    m.add_damage(Type::Cold, -40);
    assert_eq!(m.get_dmg_mult(Some(Type::Cold), false), 600_000_000_000);
}

#[test]
fn base_total_is_sum_of_present() {
    let mut w = ips_weapon();
    assert!(w.insert_damage(Type::Toxin, 35));
    let mut sum: i128 = 0;
    for t in Type::all() {
        sum += w.get_base_damage(Some(t)).num;
    }
    assert_eq!(w.get_base_damage(None).num, sum);
    assert_eq!(value(w.get_base_damage(None)), 335.0);
    assert_eq!(w.get_base_damage(Some(Type::Heat)).num, 0);
}

#[test]
fn add_base_damage_spreads_proportionally() {
    let mut w = ips_weapon();
    assert!(w.add_base_damage(100));
    for t in [Type::Impact, Type::Puncture, Type::Slash] {
        let r = w.get_base_damage(Some(t));
        assert!(close(value(r), 100.0 + 100.0 / 300.0 * 100.0));
        assert!((value(r) - 133.33).abs() < 0.01);
    }
    let total = w.get_base_damage(None);
    assert_eq!(total.num, 400 * total.den);
    assert_eq!(value(total), 400.0);
}

#[test]
fn add_base_damage_uneven_shares() {
    let mut w = Weapon::new("w", 0, 0, 0);
    assert!(w.insert_damage(Type::Impact, 30));
    assert!(w.insert_damage(Type::Heat, 10));
    assert!(w.add_base_damage(20));
    assert!(close(value(w.get_base_damage(Some(Type::Impact))), 45.0));
    assert!(close(value(w.get_base_damage(Some(Type::Heat))), 15.0));
}

#[test]
fn add_base_damage_on_empty_pool_is_refused() {
    let mut w = Weapon::new("w", 0, 0, 0);
    assert!(!w.add_base_damage(100));
    assert_eq!(w.den, 1);
    assert_eq!(w.get_base_damage(None).num, 0);
}

#[test]
fn insert_damage_refuses_multiplicative_and_oversized() {
    let mut w = Weapon::new("w", 0, 0, 0);
    assert!(!w.insert_damage(Type::Base, 10));
    assert!(!w.insert_damage(Type::Faction, 10));
    assert!(!w.insert_damage(Type::Heat, 2_000_000_000));
    assert_eq!(w.get_base_damage(None).num, 0);
    assert!(w.insert_damage(Type::Heat, 7));
    assert!(w.insert_damage(Type::Heat, 9));
    assert_eq!(w.get_base_damage(Some(Type::Heat)).num, 9);
}

#[test]
fn base_percent_sums_to_net_multiplier() {
    let mut m = Mods::new("Stack Stick Set", 770, 150, 500);
    m.add_damage(Type::Base, 165 + 180 + 350 - 60);
    assert_eq!(m.damage[Type::Base.ordinal()], Some(635));
    assert_eq!(m.get_dmg_mult(None, false), 7_350_000_000_000);
    let mut n = Mods::new("separate", 0, 0, 0);
    for p in [165, 180, 350, -60] {
        n.add_damage(Type::Base, p);
    }
    assert_eq!(n.get_dmg_mult(None, false), 7_350_000_000_000);
}

#[test]
fn slash_only_weapon_without_mods() {
    let mut w = Weapon::new("w", 2, 20, 0);
    assert!(w.insert_damage(Type::Slash, 100));
    assert_eq!(value(w.get_damage(Some(Type::Slash), false)), 100.0);
    assert_eq!(value(w.get_damage(None, false)), 100.0);
    assert_eq!(value(w.get_damage(Some(Type::Heat), false)), 0.0);
    assert!(close(value(w.get_crit_mult()), 0.4));
}

#[test]
fn multiplicative_types_never_live() {
    let mut w = ips_weapon();
    let mut m = Mods::new("m", 0, 0, 0);
    for t in [Type::Base, Type::Faction, Type::Eclipse, Type::Xata, Type::Heat] {
        m.add_damage(t, 10);
    }
    w.attach_mods(m);
    assert!(!w.has_dmg(Type::Base));
    assert!(!w.has_dmg(Type::Faction));
    assert!(!w.has_dmg(Type::Eclipse));
    assert!(!w.has_dmg(Type::Xata));
    assert!(w.has_dmg(Type::Heat));
    assert!(!w.has_dmg(Type::Cold));
    assert_eq!(w.get_damage(Some(Type::Base), false).num, 0);
    assert_eq!(
        w.valid_dmg_list(),
        vec![Type::Impact, Type::Puncture, Type::Slash, Type::Heat]
    );
}

#[test]
fn queries_repeat_identically() {
    let mut w = ips_weapon();
    let mut m = Mods::new("m", 100, 50, 100);
    m.add_damage(Type::Slash, 120);
    m.add_damage(Type::Faction, 30);
    w.attach_mods(m);
    assert_eq!(w.get_damage(None, false), w.get_damage(None, false));
    assert_eq!(w.get_damage(Some(Type::Slash), true), w.get_damage(Some(Type::Slash), true));
    assert_eq!(w.get_base_damage(None), w.get_base_damage(None));
    assert_eq!(w.get_attr(Attribute::CritChance), w.get_attr(Attribute::CritChance));
    assert_eq!(w.get_crit_mult(), w.get_crit_mult());
    assert_eq!(w.get_status_weight(Type::Slash), w.get_status_weight(Type::Slash));
    assert_eq!(w.get_status_chance(Type::Slash), w.get_status_chance(Type::Slash));
    assert_eq!(w.valid_dmg_list(), w.valid_dmg_list());
}

#[test]
fn elemental_damage_draws_on_total_pool() {
    let mut w = Weapon::new("w", 0, 0, 0);
    assert!(w.insert_damage(Type::Impact, 100));
    assert!(w.insert_damage(Type::Puncture, 50));
    let mut m = Mods::new("m", 0, 0, 0);
    m.add_damage(Type::Heat, 100);
    m.add_damage(Type::Base, 100);
    w.attach_mods(m);
    assert_eq!(value(w.get_damage(Some(Type::Heat), false)), 600.0);
    assert_eq!(value(w.get_damage(Some(Type::Impact), false)), 200.0);
    assert_eq!(value(w.get_damage(None, false)), 200.0 + 100.0 + 600.0);
}

#[test]
fn whole_hit_ignores_dot_context() {
    let mut w = ips_weapon();
    let mut m = Mods::new("m", 0, 0, 0);
    m.add_damage(Type::Slash, 100);
    m.add_damage(Type::Faction, 100);
    w.attach_mods(m);
    assert_eq!(w.get_damage(None, true), w.get_damage(None, false));
    assert_eq!(value(w.get_damage(None, false)), 200.0 + 200.0 + 400.0);
    assert_eq!(value(w.get_damage(Some(Type::Slash), true)), 400.0);
}

#[test]
fn attributes_scale_by_mods() {
    let mut w = Weapon::new("w", 25, 2, 20);
    assert!(close(value(w.get_attr(Attribute::CritChance)), 25.0));
    w.attach_mods(Mods::new("m", 150, 50, 100));
    assert!(close(value(w.get_attr(Attribute::CritChance)), 62.5));
    assert!(close(value(w.get_attr(Attribute::CritDamage)), 3.0));
    assert!(close(value(w.get_attr(Attribute::StatusChance)), 40.0));
    assert!(close(value(w.get_crit_mult()), 0.625 * 3.0));
}

#[test]
fn status_weight_and_chance() {
    let mut w = Weapon::new("w", 0, 0, 20);
    assert!(w.insert_damage(Type::Impact, 100));
    assert!(w.insert_damage(Type::Slash, 100));
    let mut m = Mods::new("m", 0, 0, 100);
    m.add_damage(Type::Slash, 100);
    w.attach_mods(m);
    let weight = w.get_status_weight(Type::Slash).unwrap();
    assert!(close(value(weight), 200.0 / 300.0 * 100.0));
    let chance = w.get_status_chance(Type::Slash).unwrap();
    assert!(close(value(chance), 40.0 / 100.0 * (200.0 / 300.0 * 100.0)));
    assert!(close(value(w.get_status_weight(Type::Impact).unwrap()), 100.0 / 3.0));
    assert_eq!(value(w.get_status_weight(Type::Heat).unwrap()), 0.0);
}

#[test]
fn status_weight_undefined_without_damage() {
    let w = Weapon::new("w", 0, 0, 20);
    assert_eq!(w.get_status_weight(Type::Slash), None);
    assert_eq!(w.get_status_chance(Type::Slash), None);
}

#[test]
fn percentage_bound_check() {
    let mut m = Mods::new("m", 0, 0, 0);
    assert!(pct_bound_ok(&m, Type::Heat, PCT_BOUND));
    assert!(!pct_bound_ok(&m, Type::Heat, PCT_BOUND + 1));
    m.add_damage(Type::Heat, 600);
    assert!(pct_bound_ok(&m, Type::Heat, 400));
    assert!(!pct_bound_ok(&m, Type::Heat, 401));
    assert!(pct_bound_ok(&m, Type::Cold, -PCT_BOUND));
}

#[test]
fn spread_keeps_lowest_terms_and_repeats() {
    let mut w = ips_weapon();
    assert!(w.add_base_damage(100));
    assert_eq!(w.den, 3);
    assert_eq!(w.damage[Type::Slash.ordinal()], Some(400));
    assert!(w.add_base_damage(0));
    assert_eq!(w.den, 3);
    assert_eq!(w.damage[Type::Slash.ordinal()], Some(400));
    assert!(w.add_base_damage(100));
    assert_eq!(value(w.get_base_damage(None)), 500.0);
    assert!(close(value(w.get_base_damage(Some(Type::Impact))), 500.0 / 3.0));
    for _ in 0..10 {
        assert!(w.add_base_damage(7));
    }
    assert!(close(value(w.get_base_damage(None)), 570.0));
    assert!(close(value(w.get_base_damage(Some(Type::Puncture))), 190.0));
}

#[test]
fn additions_commute() {
    let mut a = Mods::new("a", 0, 0, 0);
    a.add_damage(Type::Toxin, 90);
    a.add_damage(Type::Toxin, -30);
    let mut b = Mods::new("b", 0, 0, 0);
    b.add_damage(Type::Toxin, -30);
    b.add_damage(Type::Toxin, 90);
    assert_eq!(a.damage, b.damage);
    assert_eq!(a.get_dmg_mult(Some(Type::Toxin), false), b.get_dmg_mult(Some(Type::Toxin), false));
}

#[test]
fn dot_types_and_expected_dot() {
    let mut w = Weapon::new("w", 50, 2, 20);
    assert!(w.insert_damage(Type::Impact, 100));
    assert!(w.insert_damage(Type::Slash, 100));
    let mut m = Mods::new("m", 0, 0, 100);
    m.add_damage(Type::Slash, 100);
    m.add_damage(Type::Heat, 50);
    m.add_damage(Type::Faction, 100);
    w.attach_mods(m);
    assert_eq!(w.dot_types(), vec![Type::Slash, Type::Heat]);
    let (d, c, s) = w.get_dot_factors(Type::Slash).unwrap();
    // Slash in a damage-over-time context: its own +100% is skipped, Faction applies twice.
    assert_eq!(value(d), 400.0);
    assert!(close(value(c), 1.0));
    // direct hits: Impact 200, Slash 400, Heat 200 * 3 = 600, total 1200.
    assert!(close(value(s), 40.0 / 100.0 * (400.0 / 1200.0 * 100.0) / 100.0));
    assert_eq!(w.get_dot_factors(Type::Cold).map(|(d, _, _)| d.num), Some(0));
    assert_eq!(Weapon::new("e", 0, 0, 0).get_dot_factors(Type::Slash), None);
}
