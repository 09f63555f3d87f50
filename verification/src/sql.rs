//! Rows of the character database, as the game logic reads them.
use vstd::prelude::*;

verus! {

/// A character row (the fields the game logic reads).
#[derive(Debug, Clone)]
pub struct Character {
    pub id: i32,
    pub account_id: i32,
    pub world_id: i32,
    pub name: String,
    pub level: i32,
    pub job: i32,
    pub gm: i32,
    pub gender: i32,
    pub skin_colour: i32,
    pub face: i32,
    pub hair: i32,
    pub map: i32,
    pub mesos: i32,
    pub buddy_capacity: i32,
    pub equip_slots: i32,
    pub use_slots: i32,
    pub setup_slots: i32,
    pub etc_slots: i32,
    pub cash_slots: i32,
    pub guild: Option<i32>,
    pub rank: i32,
    pub rank_move: i32,
    pub job_rank: i32,
    pub job_rank_move: i32,
}

/// An equipment row.
#[derive(Debug, Clone)]
pub struct Equipment {
    pub id: i32,
    pub item_id: i32,
    pub character_id: i32,
    pub position: i32,
    pub amount: i32,
    pub upgrade_slots: i32,
    pub level: i32,
    pub item_level: i32,
    pub exp: i32,
    pub str: i32,
    pub dex: i32,
    pub int: i32,
    pub luk: i32,
    pub hp: i32,
    pub mp: i32,
    pub w_atk: i32,
    pub m_atk: i32,
    pub w_def: i32,
    pub m_def: i32,
    pub acc: i32,
    pub avoid: i32,
    pub hands: i32,
    pub speed: i32,
    pub jump: i32,
    pub locked: i32,
    pub vicious: i32,
    pub owner: String,
    pub flag: i32,
}

/// An item row.
#[derive(Debug, Clone)]
pub struct Item {
    pub id: i32,
    pub item_id: i32,
    pub character_id: i32,
    pub inventory_type: InventoryType,
    pub position: i32,
    pub amount: i32,
    pub owner: String,
    pub flag: i32,
}

/// The inventory tab an item sits in.
#[derive(PartialEq, Eq, Structural, Clone, Copy, Debug)]
pub enum InventoryType {
    Equip,
    Use,
    Setup,
    Etc,
    Cash,
}

/// A key binding row.
#[derive(Debug, Clone)]
pub struct Keymap {
    pub character_id: i32,
    pub key_id: i32,
    pub key_type: i32,
    pub action: i32,
}

/// A quest-progress row.
#[derive(Debug, Clone)]
pub struct Quest {
    pub id: i32,
    pub character_id: i32,
    pub status: QuestStatus,
    pub time: i32,
    pub expires: i32,
    pub forfeited: i32,
    pub completed: i32,
    pub info: i32,
}

/// Progress of a character on a quest.
#[derive(PartialEq, Eq, Structural, Clone, Copy, Debug)]
pub enum QuestStatus {
    NotStarted,
    Started,
    Completed,
}

/// A learned-skill row.
#[derive(Debug, Clone)]
pub struct Skill {
    pub id: i32,
    pub character_id: i32,
    pub level: i32,
    pub mastery: i32,
    pub expiration: i64,
}

/// A skill cooldown row.
#[derive(Debug, Clone)]
pub struct Cooldown {
    pub character_id: i32,
    pub skill_id: i32,
    pub start: i64,
    pub length: i64,
}

} // verus!
