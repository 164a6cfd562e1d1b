use greg::state::{SharedState, SystemState};

#[test]
fn initial_state_is_idle() {
    let state = SharedState::new();
    assert_eq!(state.get(), SystemState::Idle);
    assert!(!state.midi_active());
}

#[test]
fn transitions() {
    let mut state = SharedState::new();

    state.set(SystemState::RateLocking);
    assert_eq!(state.get(), SystemState::RateLocking);
    assert!(state.midi_active());

    state.set(SystemState::Locked);
    assert_eq!(state.get(), SystemState::Locked);
    assert!(state.midi_active());

    state.set(SystemState::Idle);
    assert_eq!(state.get(), SystemState::Idle);
    assert!(!state.midi_active());
}

#[test]
fn midi_active_only_when_not_idle() {
    assert!(!SystemState::Idle.midi_active());
    assert!(SystemState::RateLocking.midi_active());
    assert!(SystemState::Locked.midi_active());
}

#[test]
fn state_byte_roundtrip() {
    for s in [SystemState::Idle, SystemState::RateLocking, SystemState::Locked] {
        assert_eq!(SystemState::from_u8(s.to_u8()), s);
    }
    assert_eq!(SystemState::Locked.to_u8(), 2);
    assert_eq!(SystemState::from_u8(7), SystemState::Idle);
}
