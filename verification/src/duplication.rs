//! The decision core of the texture-duplication capture discipline: how
//! one bounded frame acquisition ends, and what the backend does with it.
//!
//! The platform side performs the blocking acquire and reports how it
//! ended; the classification of that outcome into a kept frame, a reused
//! frame or an error of the process-wide taxonomy is pure and stands
//! here.

use vstd::prelude::*;
use crate::ScreenCaptureError;

verus! {

/// How one bounded frame acquisition from the output-duplication
/// interface ended, as the platform reports it.
#[derive(Debug, Copy, Clone, PartialEq, Eq, Structural)]
pub enum AcquireEvent {
    /// A new frame arrived and was copied into the staging resource.
    FrameAcquired,
    /// The device, session or context was invalidated under us.
    AccessLost,
    /// The interface rejected the call; some object went invalid.
    InvalidCall,
    /// The bounded wait elapsed without a frame-content change.
    TimedOut,
    /// Any other failure.
    Failed,
}

/// What a capture attempt does with the staged snapshot.
#[derive(Debug, Copy, Clone, PartialEq, Eq, Structural)]
pub enum FrameUse {
    /// The staging resource holds the newly acquired frame.
    NewFrame,
    /// Nothing changed on screen: the previous snapshot stays valid.
    KeepPrevious,
}

/// Classify the end of one frame acquisition: a new frame is kept; loss
/// of the device or an invalid call must recreate the backend; a timeout
/// reuses the previous snapshot when one exists and is only a transient
/// failure when none does; capturing before preparing, or any other
/// failure, is an initialisation error.
pub fn decide_acquire(event: AcquireEvent, prepared: bool, have_snapshot: bool) -> (r: Result<
    FrameUse,
    ScreenCaptureError,
>)
    ensures
        !prepared ==> (r matches Err(e) && e is Initialisation),
        prepared ==> match event {
            AcquireEvent::FrameAcquired => r == Ok::<FrameUse, ScreenCaptureError>(
                FrameUse::NewFrame,
            ),
            AcquireEvent::AccessLost => r matches Err(e) && e is LostCapture,
            AcquireEvent::InvalidCall => r matches Err(e) && e is LostCapture,
            AcquireEvent::TimedOut => if have_snapshot {
                r == Ok::<FrameUse, ScreenCaptureError>(FrameUse::KeepPrevious)
            } else {
                r matches Err(e) && e is Transient
            },
            AcquireEvent::Failed => r matches Err(e) && e is Initialisation,
        },
{
    if !prepared {
        return Err(
            ScreenCaptureError::Initialisation {
                msg: "no duplicator to capture an image, prepare the capture first".to_string(),
            },
        );
    }
    match event {
        AcquireEvent::FrameAcquired => Ok(FrameUse::NewFrame),
        AcquireEvent::AccessLost => Err(
            // The duplication interface must be released and recreated for
            // the new content; the caller fully recreates the backend.
            ScreenCaptureError::LostCapture {
                msg: "access to the duplicated output was lost".to_string(),
            },
        ),
        AcquireEvent::InvalidCall => Err(
            ScreenCaptureError::LostCapture {
                msg: "the duplicated output rejected the call".to_string(),
            },
        ),
        AcquireEvent::TimedOut => {
            if have_snapshot {
                // Likely no draw events since the last frame: the snapshot
                // we already hold is the current screen content.
                Ok(FrameUse::KeepPrevious)
            } else {
                Err(
                    ScreenCaptureError::Transient {
                        msg: "timed out without a frame to show yet".to_string(),
                    },
                )
            }
        },
        AcquireEvent::Failed => Err(
            ScreenCaptureError::Initialisation { msg: "unhandled acquisition failure".to_string() },
        ),
    }
}

} // verus!
