//! Gamepad-to-mouse translation logic: input and action identifiers,
//! command-line option parsing, the edge-detecting button translator, click
//! counting, event scheduling and the per-frame profile decisions.

pub mod assoc;
pub mod cli;
pub mod clicks;
pub mod config;
pub mod events;
pub mod mapping;
pub mod poll;
pub mod text;
pub mod translator;

pub use cli::{default_button_map, usage, CliArgs, NumericOption, ParseOutcome};
pub use clicks::{ClickCounter, DOUBLE_CLICK_INTERVAL_MS};
pub use config::{
    all_actions, all_inputs, keycode_name, Action, KeyCombo, Modifier, MouseButtonKind,
};
pub use events::{schedule, OutputEvent, OutputEventKind};
pub use mapping::ButtonMap;
pub use poll::{profile_for_bundle_id, PollOutcome, PollState};
pub use translator::{InputTranslator, DOUBLE_CLICK_DELAY_MS};
