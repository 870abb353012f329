//! The weapons a character carries, one of them in hand.

use crate::weapon::{is_within_span, within_span, FireError, ReloadError, Weapon};
use vstd::prelude::*;

verus! {

/// Why the weapon in hand is not changed.
#[derive(Copy, Clone, PartialEq, Eq, Structural, Debug)]
pub enum SwapError {
    SameWeapon,
    AlreadySwapping,
    WeaponUnavailable,
}

pub struct WeaponInventory {
    pub weapons: Vec<Weapon>,
    /// Which weapon is in hand.
    pub equipped_weapon_index: Option<usize>,
    /// When the last change of weapon began.
    pub last_swap_start: Option<u64>,
    /// How long the last change of weapon takes.
    pub last_swap_duration: Option<u64>,
}

/// The sum of two times, or the largest time where the sum is beyond it.
pub open spec fn capped_sum(a: u64, b: u64) -> u64 {
    if a + b <= u64::MAX {
        (a + b) as u64
    } else {
        u64::MAX
    }
}

impl WeaponInventory {
    /// Every weapon is well-formed.
    pub open spec fn wf(&self) -> bool {
        forall|i: int| 0 <= i < self.weapons@.len() ==> (#[trigger] self.weapons@[i]).wf()
    }

    /// Tells whether every weapon is well-formed.
    pub fn is_wf(&self) -> (b: bool)
        ensures
            b == self.wf(),
    {
        let mut i: usize = 0;
        while i < self.weapons.len()
            invariant
                i <= self.weapons@.len(),
                forall|j: int| 0 <= j < i ==> (#[trigger] self.weapons@[j]).wf(),
            decreases self.weapons@.len() - i,
        {
            if !self.weapons[i].is_wf() {
                return false;
            }
            i = i + 1;
        }
        true
    }

    /// A change of weapon is going on at `time`.
    pub open spec fn swapping(&self, time: u64) -> bool {
        self.last_swap_duration is Some && within_span(
            self.last_swap_start,
            self.last_swap_duration->0,
            time,
        )
    }

    /// The place of the weapon in hand, where there is one.
    pub open spec fn equipped(&self) -> Option<int> {
        if self.equipped_weapon_index is Some && self.equipped_weapon_index->0
            < self.weapons@.len() {
            Some(self.equipped_weapon_index->0 as int)
        } else {
            None
        }
    }

    /// Why the weapon at `index` is not taken in hand at `time`, if it is
    /// not: there is no such place, or else it is in hand already, or else
    /// a change is going on, or else there is no weapon at that place.
    pub open spec fn swap_obstacle(&self, time: u64, index: usize) -> Option<SwapError> {
        if index > self.weapons@.len() {
            Some(SwapError::WeaponUnavailable)
        } else if self.equipped_weapon_index == Some(index) {
            Some(SwapError::SameWeapon)
        } else if self.swapping(time) {
            Some(SwapError::AlreadySwapping)
        } else if index >= self.weapons@.len() {
            Some(SwapError::WeaponUnavailable)
        } else {
            None
        }
    }

    /// How long it takes to put away the weapon in hand and take up the one
    /// at `index`.
    pub open spec fn swap_duration(&self, index: usize) -> u64 {
        capped_sum(
            match self.equipped() {
                Some(i) => self.weapons@[i].characteristics.unequip_time,
                None => 0,
            },
            self.weapons@[index as int].characteristics.equip_time,
        )
    }

    /// An inventory with no weapon in hand.
    pub fn new(weapons: Vec<Weapon>) -> (r: WeaponInventory)
        ensures
            r.weapons == weapons,
            r.equipped_weapon_index is None,
            r.last_swap_start is None,
            r.last_swap_duration is None,
    {
        WeaponInventory {
            weapons,
            equipped_weapon_index: None,
            last_swap_start: None,
            last_swap_duration: None,
        }
    }

    pub fn add_weapon(&mut self, weapon: Weapon)
        ensures
            final(self).weapons@ == old(self).weapons@.push(weapon),
            final(self).equipped_weapon_index == old(self).equipped_weapon_index,
            final(self).last_swap_start == old(self).last_swap_start,
            final(self).last_swap_duration == old(self).last_swap_duration,
            old(self).wf() && weapon.wf() ==> final(self).wf(),
    {
        self.weapons.push(weapon);
    }

    /// Begins to take the weapon at `index` in hand at `time`, unless
    /// [`WeaponInventory::swap_obstacle`] names a reason not to.
    pub fn swap_weapon(&mut self, time: u64, index: usize) -> (r: Result<(), SwapError>)
        ensures
            r is Err <==> old(self).swap_obstacle(time, index) is Some,
            r is Err ==> r->Err_0 == old(self).swap_obstacle(time, index)->0 && *final(self)
                == *old(self),
            r is Ok ==> {
                &&& final(self).weapons == old(self).weapons
                &&& final(self).equipped_weapon_index == Some(index)
                &&& final(self).last_swap_start == Some(time)
                &&& final(self).last_swap_duration == Some(old(self).swap_duration(index))
            },
    {
        if index > self.weapons.len() {
            return Err(SwapError::WeaponUnavailable);
        }
        match self.equipped_weapon_index {
            Some(current_index) => {
                if index == current_index {
                    return Err(SwapError::SameWeapon);
                }
            },
            None => {},
        }
        if self.is_swapping(time) {
            return Err(SwapError::AlreadySwapping);
        }
        let unequip_time: u64 = match self.equipped_weapon_index {
            Some(i) => {
                if i < self.weapons.len() {
                    self.weapons[i].get_unequip_time()
                } else {
                    0
                }
            },
            None => 0,
        };
        if index >= self.weapons.len() {
            return Err(SwapError::WeaponUnavailable);
        }
        let equip_time: u64 = self.weapons[index].get_equip_time();
        let total: u64 = if unequip_time > u64::MAX - equip_time {
            u64::MAX
        } else {
            unequip_time + equip_time
        };
        self.last_swap_duration = Some(total);
        self.last_swap_start = Some(time);
        self.equipped_weapon_index = Some(index);
        Ok(())
    }

    /// Fires the weapon in hand at `time`. Nothing fires while a change of
    /// weapon is going on or no weapon is in hand; otherwise the weapon
    /// decides.
    pub fn try_fire(&mut self, time: u64) -> (r: Result<(), FireError>)
        ensures
            final(self).weapons@.len() == old(self).weapons@.len(),
            final(self).equipped_weapon_index == old(self).equipped_weapon_index,
            final(self).last_swap_start == old(self).last_swap_start,
            final(self).last_swap_duration == old(self).last_swap_duration,
            old(self).swapping(time) ==> r == Err::<(), FireError>(FireError::SwappingWeapons)
                && final(self).weapons == old(self).weapons,
            !old(self).swapping(time) && old(self).equipped() is None ==> r == Err::<
                (),
                FireError,
            >(FireError::WeaponUnavailable) && final(self).weapons == old(self).weapons,
            !old(self).swapping(time) && old(self).equipped() is Some ==> {
                let i = old(self).equipped()->0;
                let before = old(self).weapons@[i];
                let after = final(self).weapons@[i];
                &&& forall|j: int|
                    0 <= j < old(self).weapons@.len() && j != i ==> final(self).weapons@[j] == old(
                        self,
                    ).weapons@[j]
                &&& r is Err <==> before.fire_obstacle(time) is Some
                &&& r is Err ==> r->Err_0 == before.fire_obstacle(time)->0 && after == before
                &&& r is Ok ==> {
                    &&& after.ammo_loaded == before.ammo_loaded - 1
                    &&& after.last_fire_time == Some(time)
                    &&& after.ammo_left == before.ammo_left
                    &&& after.last_reload_time == before.last_reload_time
                    &&& after.characteristics == before.characteristics
                    &&& after.visual_identifier == before.visual_identifier
                }
            },
            old(self).wf() ==> final(self).wf(),
    {
        if self.is_swapping(time) {
            return Err(FireError::SwappingWeapons);
        }
        match self.equipped_weapon_index {
            Some(i) => {
                if i < self.weapons.len() {
                    let weapon: &mut Weapon = &mut self.weapons[i];
                    weapon.try_fire(time)
                } else {
                    Err(FireError::WeaponUnavailable)
                }
            },
            None => Err(FireError::WeaponUnavailable),
        }
    }

    /// Reloads the weapon in hand at `time`. Nothing reloads while a change
    /// of weapon is going on or no weapon is in hand; otherwise the weapon
    /// decides.
    pub fn try_reload(&mut self, time: u64) -> (r: Result<(), ReloadError>)
        requires
            old(self).wf(),
        ensures
            final(self).weapons@.len() == old(self).weapons@.len(),
            final(self).equipped_weapon_index == old(self).equipped_weapon_index,
            final(self).last_swap_start == old(self).last_swap_start,
            final(self).last_swap_duration == old(self).last_swap_duration,
            old(self).swapping(time) ==> r == Err::<(), ReloadError>(ReloadError::SwappingWeapons)
                && final(self).weapons == old(self).weapons,
            !old(self).swapping(time) && old(self).equipped() is None ==> r == Err::<
                (),
                ReloadError,
            >(ReloadError::WeaponUnavailable) && final(self).weapons == old(self).weapons,
            !old(self).swapping(time) && old(self).equipped() is Some ==> {
                let i = old(self).equipped()->0;
                let before = old(self).weapons@[i];
                let after = final(self).weapons@[i];
                &&& forall|j: int|
                    0 <= j < old(self).weapons@.len() && j != i ==> final(self).weapons@[j] == old(
                        self,
                    ).weapons@[j]
                &&& r is Err <==> before.reload_obstacle(time) is Some
                &&& r is Err ==> r->Err_0 == before.reload_obstacle(time)->0 && after == before
                &&& r is Ok ==> {
                    &&& after.ammo_loaded == (if before.characteristics.reloading_empties_mag {
                        before.reload_amount()
                    } else {
                        before.ammo_loaded + before.reload_amount()
                    })
                    &&& after.ammo_left == before.ammo_left - before.reload_amount()
                    &&& after.last_reload_time == Some(time)
                    &&& after.last_fire_time == before.last_fire_time
                    &&& after.characteristics == before.characteristics
                    &&& after.visual_identifier == before.visual_identifier
                }
            },
            final(self).wf(),
    {
        if self.is_swapping(time) {
            return Err(ReloadError::SwappingWeapons);
        }
        match self.equipped_weapon_index {
            Some(i) => {
                if i < self.weapons.len() {
                    let weapon: &mut Weapon = &mut self.weapons[i];
                    weapon.try_reload(time)
                } else {
                    Err(ReloadError::WeaponUnavailable)
                }
            },
            None => Err(ReloadError::WeaponUnavailable),
        }
    }

    pub fn is_swapping(&self, time: u64) -> (b: bool)
        ensures
            b == self.swapping(time),
    {
        match self.last_swap_duration {
            Some(d) => is_within_span(self.last_swap_start, d, time),
            None => false,
        }
    }
}

} // verus!
