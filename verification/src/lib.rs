//! Game-server logic for a MapleStory (v83) emulator: the client cipher, the
//! packet buffer and the packets the login, world and channel servers send,
//! the decisions each client request leads to, and the game data (maps,
//! portals, NPCs, quests) as the data files describe it.

pub mod shanda;
pub mod codec;
pub mod packet;
pub mod text;
pub mod login;
pub mod nx;
pub mod sql;
pub mod maple;
pub mod quest;
pub mod nx_map;
pub mod look;
pub mod channel;
