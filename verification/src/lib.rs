//! Game rules of an action role-playing server, verified with Verus.
//!
//! The domain modules hold pure rules (progression, gauges, combat,
//! movement, items, creature behaviour). The protocol modules hold the binary
//! frames exchanged with clients and the session state machine. The account
//! and storage modules hold credential rules, the bridge to password hashing
//! and the saved form of a character. The world module keeps the registry of
//! entities present, who perceives whom, and the notices each request owes.

pub mod level;
pub mod experience;

pub mod vitals;
pub mod character;
pub mod arith;
pub mod position;
pub mod regeneration;
pub mod damage;
pub mod engagement;
pub mod movement;
pub mod grid;
pub mod ai;
pub mod catalog;
pub mod equipment;
pub mod inventory;
pub mod codec;
pub mod protocol;
pub mod session;
pub mod account;
pub mod storage;
pub mod world;
