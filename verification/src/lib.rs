//! Verified core of a bridge between network card readers and arcade game
//! emulators: card access codes, the configuration files of the games, the
//! key bindings that are pressed on behalf of the player, and the packets
//! that a remote reader sends.

pub mod text;
pub mod numeric;

pub mod card;
pub mod aimedb;
pub mod xml;
pub mod game;
pub mod packet;
