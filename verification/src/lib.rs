//! Verified core of the telepresence robot agent: the wire contract, the video
//! broadcast framing, the driving lease, link health bookkeeping, the motion
//! safety state machine and the viewer bookkeeping of the video plane.

pub mod broadcast;
pub mod text;
pub mod protocol;
pub mod config;
pub mod control;
pub mod health;
pub mod link;
pub mod motion;
pub mod roster;
pub mod video;
