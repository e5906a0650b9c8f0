//! The decisions of the audio engine set-up and of the preview loop.
use vstd::prelude::*;

verus! {

/// Debug level of the audio preview: above zero, visualisation is switched on
/// and the preview shows the spectrum while sound plays.
pub const S_IS_DEBUG: i32 = 1;

/// How the audio engine is to be set up once it has been created.
pub struct EngineSetup {
    /// Whether visualisation (the spectrum data) is to be switched on.
    pub enable_visualization: bool,
}

/// The set-up of a newly created audio engine: visualisation is switched on
/// exactly when the debug level is above zero.
pub fn init_soloud() -> (res: EngineSetup)
    ensures
        res.enable_visualization == (S_IS_DEBUG > 0),
{
    EngineSetup { enable_visualization: S_IS_DEBUG > 0 }
}

/// The next step of the preview loop.
pub enum PreviewStep {
    /// No voice plays any more: the preview is over.
    Finished,
    /// Show the spectrum of what plays.
    ShowSpectrum,
    /// Wait a moment (100 ms) and look again.
    Wait,
}

/// The step of `preview_sound_file` while `voice_count` voices play: stop
/// when none does, otherwise show the spectrum when debugging, or wait.
pub fn preview_step(voice_count: u32) -> (res: PreviewStep)
    ensures
        voice_count == 0 <==> res is Finished,
        voice_count > 0 && S_IS_DEBUG > 0 <==> res is ShowSpectrum,
        voice_count > 0 && S_IS_DEBUG <= 0 <==> res is Wait,
{
    if voice_count == 0 {
        PreviewStep::Finished
    } else if S_IS_DEBUG > 0 {
        PreviewStep::ShowSpectrum
    } else {
        PreviewStep::Wait
    }
}

} // verus!
