//! The logic of a Discord bot that trains Morse code (CW): the calls it takes
//! part in, the texts of its lessons, and how a copied text is compared with
//! the text that was keyed.
pub mod bot;
pub mod commands;
pub mod lesson_long;
pub mod levenshtein;
mod rng;
pub mod text;

pub use bot::{Bot, BotError, BotState, BotStateMode};
pub use commands::{needs_defer, parse_command, SlashCommand};
pub use lesson_long::{
    end, get_lesson_str, lesson_reply, normalize_text, prob_alpha, prob_koch_method, LessonError,
    LessonLongModeState,
};
pub use levenshtein::{compare_str, del_cost, ins_cost, sub_cost};
