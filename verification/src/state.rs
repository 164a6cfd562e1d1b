//! The operating state of the clock: idle, locking onto a tempo, or locked.
use vstd::prelude::*;

verus! {

/// Operating state of the system.
#[derive(Debug, Clone, Copy, PartialEq, Eq, Structural)]
pub enum SystemState {
    /// No tempo detected: MIDI clock is gated off.
    Idle,
    /// A tempo was detected; the clock rate is converging to it.
    RateLocking,
    /// The clock rate matches the detected tempo; phase is corrected.
    Locked,
}

/// The byte that stands for a state.
pub open spec fn spec_state_code(s: SystemState) -> u8 {
    match s {
        SystemState::Idle => 0,
        SystemState::RateLocking => 1,
        SystemState::Locked => 2,
    }
}

/// The state a byte stands for; unknown bytes stand for `Idle`.
pub open spec fn spec_state_from_code(v: u8) -> SystemState {
    if v == 1 {
        SystemState::RateLocking
    } else if v == 2 {
        SystemState::Locked
    } else {
        SystemState::Idle
    }
}

impl SystemState {
    /// The state a byte stands for; unknown bytes stand for `Idle`.
    pub fn from_u8(v: u8) -> (s: Self)
        ensures
            s == spec_state_from_code(v),
    {
        match v {
            0 => SystemState::Idle,
            1 => SystemState::RateLocking,
            2 => SystemState::Locked,
            _ => SystemState::Idle,
        }
    }

    /// The byte that stands for this state.
    pub fn to_u8(self) -> (v: u8)
        ensures
            v == spec_state_code(self),
    {
        match self {
            SystemState::Idle => 0,
            SystemState::RateLocking => 1,
            SystemState::Locked => 2,
        }
    }

    /// MIDI clock is sent in every state but `Idle`.
    pub fn midi_active(self) -> (b: bool)
        ensures
            b == (self != SystemState::Idle),
    {
        match self {
            SystemState::Idle => false,
            _ => true,
        }
    }
}

/// Every state survives its byte encoding.
pub proof fn lemma_state_code_roundtrip(s: SystemState)
    ensures
        spec_state_from_code(spec_state_code(s)) == s,
{
}

/// The current operating state, held as its byte.
pub struct SharedState {
    state: u8,
}

impl View for SharedState {
    type V = SystemState;

    closed spec fn view(&self) -> SystemState {
        spec_state_from_code(self.state)
    }
}

impl SharedState {
    /// Starts `Idle`.
    pub fn new() -> (s: Self)
        ensures
            s@ == SystemState::Idle,
    {
        SharedState { state: SystemState::Idle.to_u8() }
    }

    /// The current state.
    pub fn get(&self) -> (s: SystemState)
        ensures
            s == self@,
    {
        SystemState::from_u8(self.state)
    }

    /// Sets the state; a later `get` returns it.
    pub fn set(&mut self, new_state: SystemState)
        ensures
            final(self)@ == new_state,
    {
        self.state = new_state.to_u8();
        proof {
            lemma_state_code_roundtrip(new_state);
        }
    }

    /// Whether MIDI clock is sent in the current state.
    pub fn midi_active(&self) -> (b: bool)
        ensures
            b == (self@ != SystemState::Idle),
    {
        self.get().midi_active()
    }
}

} // verus!
