//! Verified core of a webhook worker that delivers provider secrets to
//! services: configuration merging and defaults, placeholder resolution,
//! webhook signature checks, service matching, render plans and the
//! dispatch state machine.
pub mod text;
pub mod config;
pub mod placeholders;
pub mod render;
pub mod providers;
pub mod secret_map;
pub mod orchestration;
pub mod crypto;
pub mod verify;
pub mod dispatch;
pub mod storage;
