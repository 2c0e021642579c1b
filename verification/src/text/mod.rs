//! Text styles, font-family lists and laid-out text.

pub mod style;
pub mod weight;
pub mod anchors;
pub mod bytes;
pub mod clusters;
pub mod extract;
pub mod families;
pub mod family;
pub mod layout;
pub mod nearest;
pub mod shaping;
pub mod split;
