//! PawDesk core: the desktop pet's state machine, break reminders,
//! configuration rules, window geometry and RGBA drawing, with their
//! behaviour stated as contracts and proved by Verus.

pub mod event;
pub mod state;
pub mod idle;
pub mod pacing;

pub mod clock;
pub mod scheduler;
pub mod messages;
pub mod reminder_flow;
pub mod reminder_settings;

pub mod error;
pub mod config;

pub mod platform;
pub mod yawn;

pub mod canvas;
pub mod shapes;
pub mod line;
pub mod tile;
pub mod letterbox;
pub mod text;
pub mod sprite;
pub mod look;
pub mod card;
pub mod card_fit;
