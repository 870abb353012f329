use leg_creature::weapon::{FireError, ReloadError, Weapon, WeaponCharacteristics};
use leg_creature::weapon_inventory::{SwapError, WeaponInventory};

fn kind(empties: bool) -> WeaponCharacteristics {
    WeaponCharacteristics {
        max_loaded: 6,
        max_ammo: 30,
        fire_cd: 500,
        reload_time: 2000,
        equip_time: 300,
        unequip_time: 200,
        reloading_empties_mag: empties,
    }
}

fn rifle() -> Weapon {
    Weapon::new(kind(false), 10, true, "rifle".to_string())
}

#[test]
fn new_weapon_is_loaded_or_empty() {
    let w = rifle();
    assert_eq!(w.ammo_loaded, 6);
    assert_eq!(w.ammo_left, 10);
    assert_eq!(w.visual_identifier, "rifle");
    assert_eq!(w.last_fire_time, None);
    assert_eq!(w.last_reload_time, None);
    assert!(w.is_full());
    assert!(!w.is_empty());
    let e = Weapon::new(kind(false), 10, false, String::new());
    assert_eq!(e.ammo_loaded, 0);
    assert!(e.is_empty());
    assert_eq!(e.get_equip_time(), 300);
    assert_eq!(e.get_unequip_time(), 200);
}

#[test]
fn weapon_fires_at_its_rate() {
    let mut w = rifle();
    assert_eq!(w.try_fire(1000), Ok(()));
    assert_eq!(w.ammo_loaded, 5);
    assert_eq!(w.last_fire_time, Some(1000));
    assert_eq!(w.try_fire(1499), Err(FireError::FireRate));
    assert_eq!(w.ammo_loaded, 5);
    assert_eq!(w.can_fire(1499), Err(FireError::FireRate));
    assert_eq!(w.can_fire(1500), Ok(()));
    assert_eq!(w.try_fire(1500), Ok(()));
    assert_eq!(w.ammo_loaded, 4);
    assert_eq!(w.try_fire(0), Err(FireError::FireRate));
}

#[test]
fn empty_weapon_does_not_fire() {
    let mut w = Weapon::new(kind(false), 10, false, String::new());
    assert_eq!(w.try_fire(0), Err(FireError::EmptyMag));
    w.last_fire_time = Some(0);
    assert_eq!(w.try_fire(100), Err(FireError::FireRate));
    assert_eq!(w.try_fire(500), Err(FireError::EmptyMag));
}

#[test]
fn reloading_weapon_does_not_fire() {
    let mut w = rifle();
    assert_eq!(w.try_fire(0), Ok(()));
    assert_eq!(w.try_reload(100), Ok(()));
    assert!(w.is_reloading(100));
    assert!(w.is_reloading(2099));
    assert!(!w.is_reloading(2100));
    assert_eq!(w.try_fire(400), Err(FireError::FireRate));
    assert_eq!(w.try_fire(2099), Err(FireError::Reloading));
    assert_eq!(w.try_fire(2100), Ok(()));
}

#[test]
fn fire_time_at_the_end_of_time() {
    let mut w = rifle();
    assert_eq!(w.try_fire(u64::MAX), Ok(()));
    assert_eq!(w.try_fire(u64::MAX), Err(FireError::FireRate));
    w.characteristics.fire_cd = 0;
    assert_eq!(w.try_fire(u64::MAX), Ok(()));
}

#[test]
fn reload_tops_the_magazine_up() {
    let mut w = rifle();
    assert_eq!(w.try_reload(0), Err(ReloadError::FullMag));
    assert_eq!(w.can_reload(0), Err(ReloadError::FullMag));
    w.ammo_loaded = 2;
    assert_eq!(w.can_reload(0), Ok(()));
    assert_eq!(w.try_reload(0), Ok(()));
    assert_eq!(w.ammo_loaded, 6);
    assert_eq!(w.ammo_left, 6);
    assert_eq!(w.last_reload_time, Some(0));
    w.ammo_loaded = 0;
    assert_eq!(w.try_reload(1999), Err(ReloadError::AlreadyReloading));
    assert_eq!(w.try_reload(2000), Ok(()));
    assert_eq!(w.ammo_loaded, 6);
    assert_eq!(w.ammo_left, 0);
    w.ammo_loaded = 1;
    assert_eq!(w.try_reload(5000), Err(ReloadError::NoMoreAmmo));
    w.ammo_left = 3;
    assert_eq!(w.try_reload(5000), Ok(()));
    assert_eq!(w.ammo_loaded, 4);
    assert_eq!(w.ammo_left, 0);
}

#[test]
fn reload_that_empties_the_reserve() {
    let mut w = Weapon::new(kind(true), 10, false, String::new());
    assert_eq!(w.try_reload(0), Ok(()));
    assert_eq!(w.ammo_loaded, 10);
    assert_eq!(w.ammo_left, 0);
    assert_eq!(w.try_reload(3000), Err(ReloadError::NoMoreAmmo));
    w.ammo_left = 4;
    assert_eq!(w.try_reload(3000), Ok(()));
    assert_eq!(w.ammo_loaded, 4);
    assert_eq!(w.ammo_left, 0);
}

#[test]
fn inventory_changes_the_weapon_in_hand() {
    let mut inv = WeaponInventory::new(vec![rifle()]);
    assert_eq!(inv.equipped_weapon_index, None);
    assert!(!inv.is_swapping(0));
    assert_eq!(inv.try_fire(0), Err(FireError::WeaponUnavailable));
    assert_eq!(inv.try_reload(0), Err(ReloadError::WeaponUnavailable));
    assert_eq!(inv.swap_weapon(1000, 2), Err(SwapError::WeaponUnavailable));
    assert_eq!(inv.swap_weapon(1000, 1), Err(SwapError::WeaponUnavailable));
    assert_eq!(inv.equipped_weapon_index, None);
    assert_eq!(inv.swap_weapon(1000, 0), Ok(()));
    assert_eq!(inv.equipped_weapon_index, Some(0));
    assert_eq!(inv.last_swap_start, Some(1000));
    assert_eq!(inv.last_swap_duration, Some(300));
    assert!(inv.is_swapping(1299));
    assert!(!inv.is_swapping(1300));
    assert_eq!(inv.try_fire(1299), Err(FireError::SwappingWeapons));
    assert_eq!(inv.try_reload(1299), Err(ReloadError::SwappingWeapons));
    assert_eq!(inv.try_fire(1300), Ok(()));
    assert_eq!(inv.weapons[0].ammo_loaded, 5);
    assert_eq!(inv.try_reload(1400), Ok(()));
    assert_eq!(inv.weapons[0].ammo_loaded, 6);
    assert_eq!(inv.weapons[0].ammo_left, 9);
    assert_eq!(inv.swap_weapon(1500, 0), Err(SwapError::SameWeapon));
    inv.add_weapon(Weapon::new(kind(true), 3, false, "pistol".to_string()));
    assert_eq!(inv.weapons.len(), 2);
    assert_eq!(inv.swap_weapon(1200, 1), Err(SwapError::AlreadySwapping));
    assert_eq!(inv.swap_weapon(1500, 1), Ok(()));
    assert_eq!(inv.last_swap_duration, Some(500));
    assert_eq!(inv.try_fire(2000), Err(FireError::EmptyMag));
    assert_eq!(inv.try_reload(2000), Ok(()));
    assert_eq!(inv.weapons[1].ammo_loaded, 3);
    assert_eq!(inv.weapons[0].ammo_loaded, 6);
}

#[test]
fn swap_order_of_objections() {
    let mut inv = WeaponInventory::new(vec![rifle()]);
    inv.equipped_weapon_index = Some(1);
    assert_eq!(inv.swap_weapon(0, 1), Err(SwapError::SameWeapon));
    inv.equipped_weapon_index = Some(5);
    assert_eq!(inv.try_fire(0), Err(FireError::WeaponUnavailable));
    assert_eq!(inv.swap_weapon(0, 0), Ok(()));
    assert_eq!(inv.last_swap_duration, Some(300));
    inv.weapons[0].characteristics.unequip_time = u64::MAX;
    inv.add_weapon(rifle());
    assert_eq!(inv.swap_weapon(300, 1), Ok(()));
    assert_eq!(inv.last_swap_duration, Some(u64::MAX));
    assert!(inv.is_swapping(u64::MAX));
}
