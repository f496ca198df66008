//! Rule logic of four-player riichi mahjong, verified with Verus: the tile
//! model, payout tables and settlement, shanten and hand shapes, yaku, fu
//! and the scoring of a win; the rules of a round (calls, riichi, kans,
//! legal actions, the moves on a hand, response windows, round ends); the
//! state of a round with its steps and the replay of its log; and the
//! server's rooms, wire protocol and player-scoped views.

pub mod tile;
pub mod point;
pub mod scoring;
pub mod counts;
pub mod shanten;
pub mod model;
pub mod dora;
pub mod visibility;
pub mod fu;
pub mod shape;
pub mod yaku;
pub mod evaluation;
pub mod agari;
pub mod player;
pub mod messages;
pub mod protocol;
pub mod room;
pub mod text;
pub mod notation;
pub mod round_end;
pub mod calls;
pub mod declaration;
pub mod conditions;
pub mod legal;
pub mod kans;
pub mod application;
pub mod channel;
pub mod response;
pub mod execution;
pub mod ai;
pub mod session;
pub mod game;
