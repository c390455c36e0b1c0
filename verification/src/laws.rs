//! What the library promises as a whole: laws on commands and what comes of them, stated on the
//! values that go in and come out.
pub mod answering;
pub mod arranging;
pub mod charting;
pub mod choosing;
pub mod configuring;
pub mod connecting;
pub mod driving;
pub mod grounding;
pub mod handling;
pub mod keeping;
pub mod obeying;
pub mod opening;
pub mod polling;
pub mod recording;
pub mod relating;
pub mod replaying;
pub mod sending;
pub mod serving;
pub mod showing;
pub mod simulating;
pub mod steering;
pub mod stepping;
pub mod telling;
pub mod texts;
pub mod viewing;
