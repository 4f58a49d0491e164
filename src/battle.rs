use crate::pattern::MidiTiming;
use vstd::prelude::*;

verus! {

/// Who performs a scheduled action.
#[derive(Clone, Copy, Debug, PartialEq, Eq, Structural)]
pub enum ActionSource {
    Hero { idx: usize },
    Enemy { idx: usize },
}

/// Who receives a scheduled action.
#[derive(Clone, Copy, Debug, PartialEq, Eq, Structural)]
pub enum ActionTarget {
    Hero { idx: usize },
    Enemy { idx: usize },
}

/// An action scheduled on a measure.
#[derive(Clone, Copy, Debug, PartialEq, Eq, Structural)]
pub enum CombatAction {
    Attack { src: ActionSource, tgt: ActionTarget },
}

/// Fighting strength and health of a hero or an enemy.
#[derive(Clone, Copy, Debug, PartialEq, Eq, Structural)]
pub struct Combatant {
    pub attack_power: u32,
    pub hp: u32,
    pub max_hp: u32,
}

/// Health left after an attack of `power`: it drops by the power, and not
/// below zero.
pub open spec fn hp_after_attack(hp: u32, power: u32) -> u32 {
    if power >= hp {
        0
    } else {
        (hp - power) as u32
    }
}

impl Combatant {
    /// Takes an attack of strength `power`.
    pub fn take_attack(&mut self, power: u32)
        ensures
            final(self).hp == hp_after_attack(old(self).hp, power),
            final(self).attack_power == old(self).attack_power,
            final(self).max_hp == old(self).max_hp,
    {
        if power >= self.hp {
            self.hp = 0;
        } else {
            self.hp = self.hp - power;
        }
    }
}

/// Length of a measure in milliseconds, rounded down, when the beats per
/// measure are known.
pub open spec fn measure_length(t: MidiTiming) -> Option<int> {
    match t.beats_per_measure {
        Some(n) => Some(n as int * t.micros_per_beat as int / 1000),
        None => None,
    }
}

impl MidiTiming {
    /// Length of a measure in milliseconds, rounded down, when the beats per
    /// measure are known.
    pub fn measure_length_ms(&self) -> (r: Option<u64>)
        ensures
            match measure_length(*self) {
                Some(len) => r matches Some(v) && v == len,
                None => r is None,
            },
    {
        match self.beats_per_measure {
            Some(n) => {
                assert(n as u64 * self.micros_per_beat as u64 <= 255 * 0xFFFF_FFFFu64) by (nonlinear_arith)
                    requires
                        n <= 255,
                        self.micros_per_beat <= 0xFFFF_FFFFu64,
                ;
                Some((n as u64) * (self.micros_per_beat as u64) / 1000)
            },
            None => None,
        }
    }

    /// Index of the measure that clock reading `time` falls in, when measures
    /// have a positive length.
    pub fn measure_index(&self, time: u32) -> (r: Option<u64>)
        ensures
            match measure_length(*self) {
                Some(len) => if len > 0 {
                    r matches Some(m) && m == time as int / len
                } else {
                    r is None
                },
                None => r is None,
            },
    {
        match self.measure_length_ms() {
            Some(len) => if len > 0 {
                Some(time as u64 / len)
            } else {
                None
            },
            None => None,
        }
    }
}

/// A measure's actions are due when no measure has been handled yet, or when
/// it comes after the last one handled.
pub fn is_next_measure(last_handled: Option<u64>, current: u64) -> (r: bool)
    ensures
        r == match last_handled {
            None => true,
            Some(last) => current > last,
        },
{
    match last_handled {
        None => true,
        Some(last) => current > last,
    }
}

} // verus!
