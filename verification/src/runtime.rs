//! Bringing up the pipeline: what is decided between loading the
//! configuration and running the avatar.
use crate::assets::AssetCatalog;
use crate::buffers::filled;
use crate::config::ColourError;
use crate::protocol::{EyeState, MouthState};
use crate::state::RenderRequest;
use crate::text;
use vstd::prelude::*;

verus! {

/// The catalog can show the configured resting emotion: it is known, or it is
/// empty, which means the default eyes.
pub open spec fn usable_emotion(configured: Seq<char>, catalog: AssetCatalog) -> bool {
    configured.len() == 0 || catalog.0.emotions@.dom().contains(text::lowered(configured))
}

/// Resolves the resting emotion: the configured one if the catalog can show
/// it, else none, with a flag that calls for a warning.
pub fn resting_emotion(configured: &str, catalog: &AssetCatalog) -> (r: (String, bool))
    ensures
        r.1 == !usable_emotion(configured@, *catalog),
        r.0@ == (if usable_emotion(configured@, *catalog) {
            configured@
        } else {
            Seq::empty()
        }),
        r.1 <==> configured@.len() > 0 && !catalog.0.emotions@.dom().contains(
            text::lowered(configured@),
        ),
        r.1 ==> r.0@.len() == 0,
        !r.1 ==> r.0@ == configured@,
{
    if configured.is_empty() || catalog.has_emotion(configured) {
        (configured.to_owned(), false)
    } else {
        let none = String::new();
        proof {
            reveal_strlit("");
            assert(none@ =~= Seq::<char>::empty());
        }
        (none, true)
    }
}

/// The request that the renderer starts with: the avatar at rest, with every
/// animation at its first frame.
pub fn initial_request(anim_count: usize) -> (r: RenderRequest)
    ensures
        r.emotion is None,
        r.mouth == MouthState::Closed,
        r.eyes == EyeState::Open,
        r.anim_frames@ == Seq::new(anim_count as nat, |i: int| 0usize),
        r.version == 0,
{
    RenderRequest {
        emotion: None,
        mouth: MouthState::Closed,
        eyes: EyeState::Open,
        anim_frames: filled(0usize, anim_count),
        version: 0,
    }
}

/// Whether and how the webcam is started.
#[derive(Debug)]
pub enum WebcamStart {
    /// It is not wanted.
    Off,
    /// There is no device for it.
    NoDevice,
    /// The background colour is no good.
    BadColour(ColourError),
    /// On this device, over this colour.
    On { device: String, colour: [u8; 3] },
}

/// Decides whether the webcam is started. A missing device is reported before
/// a bad colour.
pub fn webcam_start(
    enabled: bool,
    device: Option<String>,
    colour: Result<[u8; 3], ColourError>,
) -> (r: WebcamStart)
    ensures
        match r {
            WebcamStart::Off => !enabled,
            WebcamStart::NoDevice => enabled && device is None,
            WebcamStart::BadColour(e) => enabled && device is Some && colour == Err::<
                [u8; 3],
                ColourError,
            >(e),
            WebcamStart::On { device: d, colour: c } => {
                &&& enabled
                &&& device == Some(d)
                &&& colour == Ok::<[u8; 3], ColourError>(c)
            },
        },
{
    if !enabled {
        return WebcamStart::Off;
    }
    match device {
        None => WebcamStart::NoDevice,
        Some(device) => match colour {
            Ok(colour) => WebcamStart::On { device, colour },
            Err(e) => WebcamStart::BadColour(e),
        },
    }
}

} // verus!
