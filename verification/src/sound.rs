use vstd::prelude::*;

verus! {

/// A sound effect the simulation asks the audio collaborator to play.
/// Playback is fire-and-forget and happens outside the tick; the update
/// pipeline only reports which sounds an event produced.
#[derive(PartialEq, Eq, Structural, Debug, Clone, Copy)]
pub enum Sound {
    Click,
    FireballLaunch,
    FireballHit,
}

} // verus!
