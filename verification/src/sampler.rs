//! Bit sampling from the ring oscillator peripheral.
//!
//! The oscillator handle is a linear resource: exactly one owner exists, and
//! a draw consumes and returns the handle. The handle can only be made by
//! enabling the oscillator, so a value of the type is always in the enabled
//! state and sampling a disabled oscillator is impossible by construction.

use vstd::prelude::*;
use rp_pico::hal::pac::ROSC;
use rp_pico::hal::rosc::{Enabled, RingOscillator};

verus! {

#[verifier::external_type_specification]
#[verifier::external_body]
pub struct ExRosc(ROSC);

/// Exclusive owner of the ring oscillator peripheral, enabled and running.
#[verifier::external_body]
pub struct OscillatorHandle {
    ring: RingOscillator<Enabled>,
}

/// Relies on rp2040-hal's `RingOscillator::new` and
/// `RingOscillator::<Disabled>::initialize`: takes sole ownership of the
/// oscillator's register block and enables the oscillator, so the returned
/// handle is in the enabled state.
#[verifier::external_body]
pub fn acquire_oscillator(rosc: ROSC) -> (r: OscillatorHandle) {
    OscillatorHandle { ring: RingOscillator::new(rosc).initialize() }
}

/// Relies on rp2040-hal's `RingOscillator::<Enabled>::get_random_bit`: one
/// read of the oscillator's random-bit register. The bit is hardware noise;
/// nothing is assumed about its value, and the call always returns.
#[verifier::external_body]
pub(crate) fn sample(handle: OscillatorHandle) -> (r: (OscillatorHandle, bool)) {
    let bit = handle.ring.get_random_bit();
    (handle, bit)
}

} // verus!
