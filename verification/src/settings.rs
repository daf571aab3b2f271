//! Sound settings that the library can reason about: the oscillator waveforms.
use vstd::prelude::*;

verus! {

/// The entries of the settings screen.
pub const SETTINGS_ITEMS: [&'static str; 4] = ["Player Name", "Sound Settings", "Piece Canvas", "Back"];

/// The events that have a sound of their own, in the order of the sound
/// settings screen.
pub const SOUND_EVENT_NAMES: [&'static str; 11] = [
    "Login",
    "Exit",
    "Piece Move",
    "Capture",
    "Check",
    "Checkmate",
    "Wrong Move",
    "Correct",
    "Hint",
    "Tick",
    "Select",
];

/// The parameters of a synthesized sound, in the order of the editor.
pub const SYNTH_PARAM_NAMES: [&'static str; 10] = [
    "Waveform",
    "Frequency",
    "Attack",
    "Decay",
    "Sustain",
    "Release",
    "Volume",
    "LFO Rate",
    "LFO Depth",
    "Duration",
];

/// The oscillator shape of a synthesized sound.
#[derive(Clone, Copy, Debug, PartialEq, Eq, Structural)]
pub enum Waveform {
    Sine,
    Triangle,
    Sawtooth,
    Square,
}

/// The waveform after `w` in the cycle Sine, Triangle, Sawtooth, Square, Sine.
pub open spec fn spec_next(w: Waveform) -> Waveform {
    match w {
        Waveform::Sine => Waveform::Triangle,
        Waveform::Triangle => Waveform::Sawtooth,
        Waveform::Sawtooth => Waveform::Square,
        Waveform::Square => Waveform::Sine,
    }
}

impl Waveform {
    pub fn next(&self) -> (w: Self)
        ensures
            w == spec_next(*self),
    {
        match self {
            Waveform::Sine => Waveform::Triangle,
            Waveform::Triangle => Waveform::Sawtooth,
            Waveform::Sawtooth => Waveform::Square,
            Waveform::Square => Waveform::Sine,
        }
    }

    pub fn name(&self) -> (n: &str)
        ensures
            n == (match *self {
                Waveform::Sine => "Sine",
                Waveform::Triangle => "Triangle",
                Waveform::Sawtooth => "Sawtooth",
                Waveform::Square => "Square",
            }),
    {
        match self {
            Waveform::Sine => "Sine",
            Waveform::Triangle => "Triangle",
            Waveform::Sawtooth => "Sawtooth",
            Waveform::Square => "Square",
        }
    }
}

/// Stepping through the waveforms four times comes back to the start, and no
/// fewer steps do.
pub proof fn law_waveform_cycle(w: Waveform)
    ensures
        spec_next(spec_next(spec_next(spec_next(w)))) == w,
        spec_next(w) != w,
        spec_next(spec_next(w)) != w,
        spec_next(spec_next(spec_next(w))) != w,
{
}

} // verus!
