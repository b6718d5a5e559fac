use turnfight::interp::{damage_amount, pay_cost, job_gain, job_drain};
use turnfight::store::Job;
use turnfight::target::clamp_selection;

#[test]
fn neutral_ratio_at_equal_attack_and_defense() {
    // attack == defense: the offense/defense ratio is exactly 1.0.
    assert_eq!(damage_amount(20, 20, 100, 150, false), 20);
}

#[test]
fn ratio_clamps_to_half_at_half_defense() {
    // attack at half the defense (or below): the ratio clamps to 0.5.
    assert_eq!(damage_amount(10, 20, 100, 150, false), 5);
    assert_eq!(damage_amount(5, 20, 100, 150, false), 2);
}

#[test]
fn the_product_is_floored_once() {
    // attack 1 vs defense 2 at x3.0: floor(1 * 0.5 * 3.0) = 1, not
    // floor(floor(0.5) * 3.0) = 0.
    assert_eq!(damage_amount(1, 2, 300, 150, false), 1);
    // attack 3 vs defense 6 at x1.0 critting x1.5: floor(2.25) = 2.
    assert_eq!(damage_amount(3, 6, 100, 150, true), 2);
}

#[test]
fn the_middle_ratio_band_is_exact() {
    // attack 2 vs defense 3: ratio 2/3, damage floor(2 * 2/3) = 1.
    assert_eq!(damage_amount(2, 3, 100, 150, false), 1);
    // attack 3 vs defense 4: floor(3 * 3/4) = 2.
    assert_eq!(damage_amount(3, 4, 100, 150, false), 2);
    // and with the crit folded into the same single floor:
    // 3 * 3/4 * 1.5 = 3.375 -> 3.
    assert_eq!(damage_amount(3, 4, 100, 150, true), 3);
}

#[test]
fn ratio_clamps_to_one_above_defense() {
    assert_eq!(damage_amount(40, 20, 100, 150, false), 40);
}

#[test]
fn zero_defense_takes_the_full_ratio() {
    assert_eq!(damage_amount(20, 0, 100, 150, false), 20);
}

#[test]
fn crit_multiplies_after_the_ratio() {
    assert_eq!(damage_amount(20, 20, 100, 150, true), 30);
    assert_eq!(damage_amount(20, 20, 200, 150, true), 60);
}

#[test]
fn multiplier_scales_damage() {
    assert_eq!(damage_amount(20, 20, 50, 150, false), 10);
    assert_eq!(damage_amount(20, 20, 200, 150, false), 40);
}

#[test]
fn cost_of_nothing_is_always_payable() {
    assert_eq!(pay_cost(Job::NoJob, Job::NoJob), Some(Job::NoJob));
    assert_eq!(
        pay_cost(Job::Gunslinger { ammo: 3 }, Job::NoJob),
        Some(Job::Gunslinger { ammo: 3 })
    );
}

#[test]
fn cost_deducts_from_matching_pool() {
    assert_eq!(
        pay_cost(Job::Gunslinger { ammo: 3 }, Job::Gunslinger { ammo: 2 }),
        Some(Job::Gunslinger { ammo: 1 })
    );
    assert_eq!(
        pay_cost(Job::Gunslinger { ammo: 1 }, Job::Gunslinger { ammo: 2 }),
        None
    );
    assert_eq!(
        pay_cost(Job::Technopriest { prayers: 4 }, Job::Gunslinger { ammo: 1 }),
        None
    );
}

#[test]
fn netrunner_cost_needs_both_amounts() {
    assert_eq!(
        pay_cost(Job::Netrunner { ram: 4, heat: 2 }, Job::Netrunner { ram: 2, heat: 2 }),
        Some(Job::Netrunner { ram: 2, heat: 0 })
    );
    assert_eq!(
        pay_cost(Job::Netrunner { ram: 4, heat: 1 }, Job::Netrunner { ram: 2, heat: 2 }),
        None
    );
}

#[test]
fn gain_saturates_and_ignores_mismatched_variants() {
    assert_eq!(
        job_gain(Job::Gunslinger { ammo: 250 }, Job::Gunslinger { ammo: 10 }),
        Job::Gunslinger { ammo: 255 }
    );
    assert_eq!(
        job_gain(Job::Gunslinger { ammo: 1 }, Job::Nanovampire { battery: 5 }),
        Job::Gunslinger { ammo: 1 }
    );
}

#[test]
fn drain_saturates_at_zero() {
    assert_eq!(
        job_drain(Job::Nanovampire { battery: 3 }, Job::Nanovampire { battery: 10 }),
        Job::Nanovampire { battery: 0 }
    );
}

#[test]
fn selection_clamps_into_the_list() {
    assert_eq!(clamp_selection(Some(5), 3), Some(2));
    assert_eq!(clamp_selection(Some(1), 3), Some(1));
    assert_eq!(clamp_selection(Some(0), 0), None);
    assert_eq!(clamp_selection(None, 3), None);
}
