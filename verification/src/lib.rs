//! Football-management rules: the command session with its receipts and
//! transfers, board objectives, finances, availability, contracts, transfer
//! rules, inbox conversations and calendars, each stated over plain values and
//! proved against its specification.
pub mod aging;
pub mod availability;
pub mod board;
pub mod bot_training;
pub mod calendar;
pub mod career;
pub mod competition_checkpoint;
pub mod competition_groups;
pub mod competition_qualification;
pub mod contract_social;
pub mod contracts;
pub mod dates;
pub mod delegated_contracts;
pub mod economy;
pub mod facilities;
pub mod finances;
pub mod fixture_checkpoint;
pub mod football;
pub mod inbox;
pub mod market;
pub mod market_book;
pub mod market_review;
pub mod market_rules;
pub mod matches;
pub mod random;
pub mod session;
pub mod text;
pub mod window;

pub use session::{
    Club, Command, Error, Management, Manager, ManagerView, Offer, OfferStatus, Outcome, Player, Preview,
    PublicClub, PublicState, Receipt, RecoveryMode, Request,
};
