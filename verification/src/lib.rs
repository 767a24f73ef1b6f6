//! A pure rules engine for a trading card game.
pub mod action;
pub mod bot;
pub mod card;
pub mod casting;
pub mod combat;
pub mod combos;
pub mod copies;
pub mod costs;
pub mod damage;
pub mod dice;
pub mod error;
pub mod event;
pub mod filter;
pub mod format;
pub mod game;
pub mod held;
pub mod hidden;
pub mod ingest;
pub mod interp;
pub mod ir;
pub mod keeping;
pub mod laws;
pub mod laws_combat;
pub mod laws_costs;
pub mod laws_decks;
pub mod laws_effects;
pub mod laws_filter;
pub mod laws_permanents;
pub mod laws_play;
pub mod laws_players;
pub mod laws_setup;
pub mod laws_sight;
pub mod laws_stack;
pub mod laws_stats;
pub mod laws_triggers;
pub mod laws_turn;
pub mod legal;
pub mod listed;
pub mod mana;
pub mod mulligan;
pub mod objects;
pub mod payable;
pub mod paying;
pub mod play;
pub mod progress;
pub mod render;
pub mod reply;
pub mod resolve;
pub mod sba;
pub mod seqs;
pub mod session;
pub mod settled;
pub mod setup;
pub mod sight;
pub mod sound;
pub mod spent;
pub mod stack;
pub mod state;
pub mod suggest;
pub mod table;
pub mod testing;
pub mod text;
pub mod tools;
pub mod triggers;
pub mod turn;
pub mod types;
pub mod view;
pub mod words;

pub use action::{Action, AttackTarget, DamageTarget, ManaPayment, Target, EQUIP_ABILITY};
pub use card::{CardDb, CardDef, CardId};
pub use error::RulesError;
pub use event::{DrawnCards, Elimination, Event, EventBase, EventView, Outcome};
pub use format::{CardPool, Format, FormatRule, Violation};
pub use setup::{GameConfig, PlayerSetup};
pub use state::{ActReason, Game, GameObject, Objects, PendingChoice, PlayerState, StackKind, StackObject};
pub use types::{CardType, Color, Keyword, Mana, ManaCost, ManaPool, ObjectId, Phase, Seat, Zone};
pub use view::{GameView, HandView, ObjectView, PlayerView, StackObjectView};
