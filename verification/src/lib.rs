pub mod analysis;
pub mod beat_confirmation;
pub mod clock;
pub mod ordering_util;
pub mod pll;
pub mod ring_buffer;
pub mod state;
pub mod tap_tempo;
