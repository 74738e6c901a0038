//! Bookkeeping of an on-chain notebook wallet: notebooks, their coins and
//! notes, the shared spending wallet, and the decisions behind composing,
//! signing and importing.

pub mod change;
pub mod coins;
pub mod compose;
pub mod confirm;
pub mod contacts;
pub mod funding;
pub mod hexcodec;
pub mod import;
pub mod labels;
pub mod lists;
pub mod merge;
pub mod note_view;
pub mod notebooks;
pub mod ordering;
pub mod psbt;
pub mod recipients;
pub mod seqs;
pub mod settings;
pub mod sign;
pub mod spending;
pub mod state;
pub mod storage;
pub mod sweep;
pub mod text;
