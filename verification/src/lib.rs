//! Verified core of a desktop status bar: parsing of window-manager output,
//! workspace ordering, the bridge protocol's state transitions and the
//! indicator tables.

pub mod text;
pub mod protocol;
pub mod order;
pub mod unique;
pub mod wm;
pub mod listing;
pub mod aerospace;
pub mod bridge;
pub mod indicators;
pub mod clock;
pub mod platform;
pub mod logging;
pub mod labels;
pub mod icons;
pub mod row;
