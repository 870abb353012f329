//! A weapon: its magazine, its reserve and the times that gate firing and
//! reloading. Times are thousandths of a second.

use vstd::prelude::*;

verus! {

/// Why a weapon does not fire.
#[derive(Copy, Clone, PartialEq, Eq, Structural, Debug)]
pub enum FireError {
    EmptyMag,
    FireRate,
    SwappingWeapons,
    Reloading,
    WeaponUnavailable,
}

/// Why a weapon does not reload.
#[derive(Copy, Clone, PartialEq, Eq, Structural, Debug)]
pub enum ReloadError {
    FullMag,
    AlreadyReloading,
    NoMoreAmmo,
    SwappingWeapons,
    WeaponUnavailable,
}

/// What is fixed about a kind of weapon.
#[derive(Copy, Clone, PartialEq, Eq, Structural, Debug)]
pub struct WeaponCharacteristics {
    /// How many rounds the magazine holds.
    pub max_loaded: u32,
    pub max_ammo: u32,
    /// Time between two shots.
    pub fire_cd: u64,
    /// Time a reload takes.
    pub reload_time: u64,
    pub equip_time: u64,
    pub unequip_time: u64,
    /// Whether a reload moves the whole reserve into the magazine.
    pub reloading_empties_mag: bool,
}

pub struct Weapon {
    pub characteristics: WeaponCharacteristics,
    /// Rounds in the magazine.
    pub ammo_loaded: u32,
    /// Rounds in reserve.
    pub ammo_left: u32,
    pub visual_identifier: String,
    pub last_fire_time: Option<u64>,
    pub last_reload_time: Option<u64>,
}

/// An action that began at `since`, if it began at all, and takes `span` is
/// still going on at `time`.
pub open spec fn within_span(since: Option<u64>, span: u64, time: u64) -> bool {
    since is Some && time < since->0 + span
}

/// Computes [`within_span`].
pub fn is_within_span(since: Option<u64>, span: u64, time: u64) -> (b: bool)
    ensures
        b == within_span(since, span, time),
{
    match since {
        Some(t) => (time as u128) < (t as u128) + (span as u128),
        None => false,
    }
}

impl Weapon {
    /// The magazine of a weapon that tops up on reload holds no more than
    /// it has room for.
    pub open spec fn wf(&self) -> bool {
        !self.characteristics.reloading_empties_mag ==> self.ammo_loaded
            <= self.characteristics.max_loaded
    }

    /// Tells whether the weapon is well-formed.
    pub fn is_wf(&self) -> (b: bool)
        ensures
            b == self.wf(),
    {
        self.characteristics.reloading_empties_mag || self.ammo_loaded
            <= self.characteristics.max_loaded
    }

    pub open spec fn reloading(&self, time: u64) -> bool {
        within_span(self.last_reload_time, self.characteristics.reload_time, time)
    }

    pub open spec fn empty(&self) -> bool {
        self.ammo_loaded == 0
    }

    pub open spec fn full(&self) -> bool {
        self.ammo_loaded == self.characteristics.max_loaded
    }

    /// Why the weapon does not fire at `time`, if it does not: it has fired
    /// too recently, or else its magazine is empty, or else it is reloading.
    pub open spec fn fire_obstacle(&self, time: u64) -> Option<FireError> {
        if within_span(self.last_fire_time, self.characteristics.fire_cd, time) {
            Some(FireError::FireRate)
        } else if self.empty() {
            Some(FireError::EmptyMag)
        } else if self.reloading(time) {
            Some(FireError::Reloading)
        } else {
            None
        }
    }

    /// Why the weapon does not reload at `time`, if it does not: it is
    /// reloading already, or else its magazine is full, or else it has no
    /// reserve.
    pub open spec fn reload_obstacle(&self, time: u64) -> Option<ReloadError> {
        if self.reloading(time) {
            Some(ReloadError::AlreadyReloading)
        } else if self.full() {
            Some(ReloadError::FullMag)
        } else if self.ammo_left == 0 {
            Some(ReloadError::NoMoreAmmo)
        } else {
            None
        }
    }

    /// How many rounds a reload moves from the reserve to the magazine.
    pub open spec fn reload_amount(&self) -> int {
        if self.characteristics.reloading_empties_mag {
            self.ammo_left as int
        } else if self.characteristics.max_loaded - self.ammo_loaded <= self.ammo_left {
            self.characteristics.max_loaded - self.ammo_loaded
        } else {
            self.ammo_left as int
        }
    }

    /// A weapon that has neither fired nor reloaded, with a full magazine
    /// or an empty one.
    pub fn new(
        characteristics: WeaponCharacteristics,
        start_ammo: u32,
        starts_loaded: bool,
        visual_identifier: String,
    ) -> (w: Weapon)
        ensures
            w.characteristics == characteristics,
            w.ammo_loaded == (if starts_loaded {
                characteristics.max_loaded
            } else {
                0
            }),
            w.ammo_left == start_ammo,
            w.visual_identifier == visual_identifier,
            w.last_fire_time is None,
            w.last_reload_time is None,
            w.wf(),
    {
        let ammo_loaded: u32 = if starts_loaded {
            characteristics.max_loaded
        } else {
            0
        };
        Weapon {
            characteristics,
            ammo_loaded,
            ammo_left: start_ammo,
            visual_identifier,
            last_fire_time: None,
            last_reload_time: None,
        }
    }

    /// Fires one round at `time`, unless [`Weapon::fire_obstacle`] names a
    /// reason not to.
    pub fn try_fire(&mut self, time: u64) -> (r: Result<(), FireError>)
        ensures
            r is Err <==> old(self).fire_obstacle(time) is Some,
            r is Err ==> r->Err_0 == old(self).fire_obstacle(time)->0 && *final(self) == *old(self),
            r is Ok ==> {
                &&& final(self).ammo_loaded == old(self).ammo_loaded - 1
                &&& final(self).last_fire_time == Some(time)
                &&& final(self).ammo_left == old(self).ammo_left
                &&& final(self).last_reload_time == old(self).last_reload_time
                &&& final(self).characteristics == old(self).characteristics
                &&& final(self).visual_identifier == old(self).visual_identifier
            },
            old(self).wf() ==> final(self).wf(),
    {
        match self.can_fire(time) {
            Err(e) => Err(e),
            Ok(()) => {
                self.last_fire_time = Some(time);
                self.ammo_loaded = self.ammo_loaded - 1;
                Ok(())
            },
        }
    }

    /// Reloads at `time`, unless [`Weapon::reload_obstacle`] names a reason
    /// not to: moves [`Weapon::reload_amount`] rounds from the reserve to
    /// the magazine, which first loses what it held where a reload moves
    /// the whole reserve.
    pub fn try_reload(&mut self, time: u64) -> (r: Result<(), ReloadError>)
        requires
            old(self).wf(),
        ensures
            r is Err <==> old(self).reload_obstacle(time) is Some,
            r is Err ==> r->Err_0 == old(self).reload_obstacle(time)->0 && *final(self) == *old(
                self,
            ),
            r is Ok ==> {
                &&& final(self).ammo_loaded == (if old(self).characteristics.reloading_empties_mag {
                    old(self).reload_amount()
                } else {
                    old(self).ammo_loaded + old(self).reload_amount()
                })
                &&& final(self).ammo_left == old(self).ammo_left - old(self).reload_amount()
                &&& !old(self).characteristics.reloading_empties_mag ==> final(self).ammo_loaded
                    + final(self).ammo_left == old(self).ammo_loaded + old(self).ammo_left
                &&& final(self).last_reload_time == Some(time)
                &&& final(self).last_fire_time == old(self).last_fire_time
                &&& final(self).characteristics == old(self).characteristics
                &&& final(self).visual_identifier == old(self).visual_identifier
            },
            final(self).wf(),
    {
        match self.can_reload(time) {
            Err(e) => Err(e),
            Ok(()) => {
                if self.characteristics.reloading_empties_mag {
                    self.ammo_loaded = self.ammo_left;
                    self.ammo_left = 0;
                } else {
                    let room: u32 = self.characteristics.max_loaded - self.ammo_loaded;
                    let diff: u32 = if room <= self.ammo_left {
                        room
                    } else {
                        self.ammo_left
                    };
                    self.ammo_loaded = self.ammo_loaded + diff;
                    self.ammo_left = self.ammo_left - diff;
                }
                self.last_reload_time = Some(time);
                Ok(())
            },
        }
    }

    /// Tells whether the weapon fires at `time`, and why not if it does
    /// not.
    pub fn can_fire(&self, time: u64) -> (r: Result<(), FireError>)
        ensures
            r is Err <==> self.fire_obstacle(time) is Some,
            r is Err ==> r->Err_0 == self.fire_obstacle(time)->0,
    {
        if is_within_span(self.last_fire_time, self.characteristics.fire_cd, time) {
            return Err(FireError::FireRate);
        }
        if self.is_empty() {
            return Err(FireError::EmptyMag);
        }
        if self.is_reloading(time) {
            return Err(FireError::Reloading);
        }
        Ok(())
    }

    /// Tells whether the weapon reloads at `time`, and why not if it does
    /// not.
    pub fn can_reload(&self, time: u64) -> (r: Result<(), ReloadError>)
        ensures
            r is Err <==> self.reload_obstacle(time) is Some,
            r is Err ==> r->Err_0 == self.reload_obstacle(time)->0,
    {
        if self.is_reloading(time) {
            return Err(ReloadError::AlreadyReloading);
        }
        if self.is_full() {
            return Err(ReloadError::FullMag);
        }
        if self.ammo_left == 0 {
            return Err(ReloadError::NoMoreAmmo);
        }
        Ok(())
    }

    pub fn is_reloading(&self, time: u64) -> (b: bool)
        ensures
            b == self.reloading(time),
    {
        is_within_span(self.last_reload_time, self.characteristics.reload_time, time)
    }

    pub fn is_empty(&self) -> (b: bool)
        ensures
            b == self.empty(),
    {
        self.ammo_loaded == 0
    }

    pub fn is_full(&self) -> (b: bool)
        ensures
            b == self.full(),
    {
        self.ammo_loaded == self.characteristics.max_loaded
    }

    pub fn get_equip_time(&self) -> (t: u64)
        ensures
            t == self.characteristics.equip_time,
    {
        self.characteristics.equip_time
    }

    pub fn get_unequip_time(&self) -> (t: u64)
        ensures
            t == self.characteristics.unequip_time,
    {
        self.characteristics.unequip_time
    }
}

} // verus!
