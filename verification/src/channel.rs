//! Channel server: the packets that describe a character entering a map
//! (its inventory, skills, quests and key bindings, the NPCs and portals
//! around it), and the answers to movement and quest requests.
use crate::codec::{i16_of_le, i32_of_le, le_i16, le_i32, le_i64};
use crate::maple::{Character, PacketBroadcast};
use crate::packet::{
    buffer_fits, string_field, string_field_len, string_field_readable, string_field_text, Packet,
};
use crate::sql::{Cooldown, Equipment, InventoryType, Item, Skill};
use vstd::prelude::*;
use vstd::string::StringExecFns;
use vstd::string::StrSliceExecFns;
use vstd::utf8::encode_utf8;

verus! {

// ---------------------------------------------------------------------------
// Equipment and items
// ---------------------------------------------------------------------------

/// The "no expiration" timestamp the client expects (the zero of its UTC clock).
pub open spec fn zero_timestamp() -> i64 {
    94354848000000000
}

/// The slot an equip is shown in: the absolute position, less 100 above 100.
pub open spec fn equip_slot(position: i32) -> int {
    let pos = if position < 0 {
        -position
    } else {
        position as int
    };
    if pos > 100 {
        pos - 100
    } else {
        pos
    }
}

/// The first fields of an equip: its slot, kind, item id, cash flag,
/// expiration, upgrade slots and level.
pub open spec fn equip_head(e: Equipment) -> Seq<u8> {
    le_i16(equip_slot(e.position) as i16) + seq![1u8] + le_i32(e.item_id) + seq![0u8] + le_i64(-1i64)
        + seq![e.upgrade_slots as u8, e.level as u8]
}

/// The slot written for an equip never depends on the sign of its position:
/// it is the position itself from 0 to 100, 100 less above 100, the same for
/// the negated position (equipped items have negative positions), and never
/// negative. The slot is read back from the first two bytes of the equip.
pub proof fn lemma_equip_slot_written(e: Equipment, f: Equipment)
    requires
        -32867 < e.position < 32867,
        f.position == -e.position,
    ensures
        crate::codec::i16_of_le(equip_head(e)) >= 0,
        0 <= e.position <= 100 ==> crate::codec::i16_of_le(equip_head(e)) == e.position,
        e.position > 100 ==> crate::codec::i16_of_le(equip_head(e)) == e.position - 100,
        crate::codec::i16_of_le(equip_head(f)) == crate::codec::i16_of_le(equip_head(e)),
{
    let rest_e = equip_head(e).skip(2);
    let rest_f = equip_head(f).skip(2);
    assert(equip_head(e) =~= le_i16(equip_slot(e.position) as i16) + rest_e);
    assert(equip_head(f) =~= le_i16(equip_slot(f.position) as i16) + rest_f);
    crate::codec::lemma_i16_round_trip(equip_slot(e.position) as i16, rest_e);
    crate::codec::lemma_i16_round_trip(equip_slot(f.position) as i16, rest_f);
    assert(0 <= equip_slot(e.position) < 32767);
    assert(equip_slot(f.position) == equip_slot(e.position));
}

/// An equip's stats, each a 16-bit value.
pub open spec fn equip_stats(e: Equipment) -> Seq<u8> {
    le_i16(e.str as i16) + le_i16(e.dex as i16) + le_i16(e.int as i16) + le_i16(e.luk as i16)
        + le_i16(e.hp as i16) + le_i16(e.mp as i16) + le_i16(e.w_atk as i16) + le_i16(
        e.m_atk as i16,
    ) + le_i16(e.w_def as i16) + le_i16(e.m_def as i16) + le_i16(e.acc as i16) + le_i16(
        e.avoid as i16,
    ) + le_i16(e.hands as i16) + le_i16(e.speed as i16) + le_i16(e.jump as i16)
}

/// The last fields of an equip: flag, item level, experience, vicious
/// hammers, and the zero timestamp.
pub open spec fn equip_tail(e: Equipment) -> Seq<u8> {
    le_i16(e.flag as i16) + seq![0u8, e.item_level as u8] + le_i32(0) + le_i32(e.vicious) + le_i64(
        0,
    ) + le_i64(zero_timestamp()) + le_i32(-1i32)
}

/// What the client is told of an equip.
#[verifier::opaque]
pub open spec fn equip_bytes(e: Equipment) -> Seq<u8> {
    equip_head(e) + equip_stats(e) + string_field(e.owner@) + equip_tail(e)
}

/// What the client is told of an item (positions are 0-based in the database
/// and 1-based in the client).
#[verifier::opaque]
pub open spec fn item_bytes(i: Item) -> Seq<u8> {
    seq![(i.position + 1) as u8, 2u8] + le_i32(i.item_id) + seq![0u8] + le_i64(-1i64) + le_i16(
        i.amount as i16,
    ) + string_field(i.owner@) + le_i16(i.flag as i16)
}

/// The equips, one after the other.
pub open spec fn equips_bytes(s: Seq<Equipment>) -> Seq<u8>
    decreases s.len(),
{
    if s.len() == 0 {
        Seq::empty()
    } else {
        equips_bytes(s.drop_last()) + equip_bytes(s.last())
    }
}

/// The items of one inventory tab, one after the other, in the order given.
pub open spec fn tab_bytes(s: Seq<Item>, tab: InventoryType) -> Seq<u8>
    decreases s.len(),
{
    if s.len() == 0 {
        Seq::empty()
    } else {
        tab_bytes(s.drop_last(), tab) + if s.last().inventory_type == tab {
            item_bytes(s.last())
        } else {
            Seq::empty()
        }
    }
}

/// An equip's position can be made absolute (it is not `i32::MIN`).
pub open spec fn equip_writable(e: Equipment) -> bool {
    e.position != i32::MIN
}

/// An item's 1-based position can be computed (it is not `i32::MAX`).
pub open spec fn item_writable(i: Item) -> bool {
    i.position != i32::MAX
}

proof fn lemma_equips_prefix(s: Seq<Equipment>, i: int)
    requires
        0 <= i <= s.len(),
    ensures
        equips_bytes(s.take(i)).len() <= equips_bytes(s).len(),
    decreases s.len() - i,
{
    if i < s.len() {
        lemma_equips_prefix(s, i + 1);
        assert(s.take(i + 1).drop_last() =~= s.take(i));
    } else {
        assert(s.take(i) =~= s);
    }
}

proof fn lemma_tab_prefix(s: Seq<Item>, tab: InventoryType, i: int)
    requires
        0 <= i <= s.len(),
    ensures
        tab_bytes(s.take(i), tab).len() <= tab_bytes(s, tab).len(),
    decreases s.len() - i,
{
    if i < s.len() {
        lemma_tab_prefix(s, tab, i + 1);
        assert(s.take(i + 1).drop_last() =~= s.take(i));
    } else {
        assert(s.take(i) =~= s);
    }
}

fn write_equip_head(packet: &mut Packet, equip: &Equipment)
    requires
        equip_writable(*equip),
        buffer_fits(old(packet)@.len() + equip_head(*equip).len()),
    ensures
        final(packet)@ == old(packet)@ + equip_head(*equip),
        final(packet).use_encryption == old(packet).use_encryption,
{
    let mut pos = if equip.position < 0 {
        -equip.position
    } else {
        equip.position
    };
    if pos > 100 {
        pos -= 100;
    }
    packet.write_short(pos as i16);
    packet.write_byte(1);  // item type (equip)
    packet.write_int(equip.item_id);
    packet.write_byte(0);  // not a cash item
    packet.write_long(-1);  // permanent
    packet.write_byte(equip.upgrade_slots as u8);
    packet.write_byte(equip.level as u8);
    proof {
        assert(final(packet)@ =~= old(packet)@ + equip_head(*equip));
    }
}

fn write_equip_stats(packet: &mut Packet, equip: &Equipment)
    requires
        buffer_fits(old(packet)@.len() + 30),
    ensures
        final(packet)@ == old(packet)@ + equip_stats(*equip),
        final(packet).use_encryption == old(packet).use_encryption,
{
    packet.write_short(equip.str as i16);
    packet.write_short(equip.dex as i16);
    packet.write_short(equip.int as i16);
    packet.write_short(equip.luk as i16);
    packet.write_short(equip.hp as i16);
    packet.write_short(equip.mp as i16);
    packet.write_short(equip.w_atk as i16);
    packet.write_short(equip.m_atk as i16);
    packet.write_short(equip.w_def as i16);
    packet.write_short(equip.m_def as i16);
    packet.write_short(equip.acc as i16);
    packet.write_short(equip.avoid as i16);
    packet.write_short(equip.hands as i16);
    packet.write_short(equip.speed as i16);
    packet.write_short(equip.jump as i16);
    proof {
        assert(final(packet)@ =~= old(packet)@ + equip_stats(*equip));
    }
}

fn write_equip_tail(packet: &mut Packet, equip: &Equipment)
    requires
        buffer_fits(old(packet)@.len() + 32),
    ensures
        final(packet)@ == old(packet)@ + equip_tail(*equip),
        final(packet).use_encryption == old(packet).use_encryption,
{
    packet.write_short(equip.flag as i16);
    packet.write_byte(0);
    packet.write_byte(equip.item_level as u8);
    packet.write_int(0);
    packet.write_int(equip.vicious);
    packet.write_long(0);
    // UTC zero-timestamp
    packet.write_long(94354848000000000);
    packet.write_int(-1);
    proof {
        assert(final(packet)@ =~= old(packet)@ + equip_tail(*equip));
    }
}

/// Writes an equip's data to a packet
pub fn write_equip(packet: &mut Packet, equip: &Equipment)
    requires
        equip_writable(*equip),
        buffer_fits(old(packet)@.len() + equip_bytes(*equip).len()),
    ensures
        final(packet)@ == old(packet)@ + equip_bytes(*equip),
        final(packet).use_encryption == old(packet).use_encryption,
{
    reveal(equip_bytes);
    write_equip_head(packet, equip);
    write_equip_stats(packet, equip);
    packet.write_string(equip.owner.as_str());
    write_equip_tail(packet, equip);
    proof {
        assert(final(packet)@ =~= old(packet)@ + equip_bytes(*equip));
    }
}

/// Writes an item's data to a packet
pub fn write_item(packet: &mut Packet, item: &Item)
    requires
        item_writable(*item),
        buffer_fits(old(packet)@.len() + item_bytes(*item).len()),
    ensures
        final(packet)@ == old(packet)@ + item_bytes(*item),
        final(packet).use_encryption == old(packet).use_encryption,
{
    reveal(item_bytes);
    // Positions are 0-indexed in the database, the client expects 1-indexed
    packet.write_byte((item.position + 1) as u8);
    packet.write_byte(2);  // item type (item)
    packet.write_int(item.item_id);
    packet.write_byte(0);  // not a cash item
    packet.write_long(-1);  // permanent
    packet.write_short(item.amount as i16);
    packet.write_string(item.owner.as_str());
    packet.write_short(item.flag as i16);
    proof {
        assert(final(packet)@ =~= old(packet)@ + item_bytes(*item));
    }
}

/// Writes the items of one inventory tab, in the order the character holds them.
fn write_tab(packet: &mut Packet, items: &Vec<Item>, tab: InventoryType)
    requires
        forall|k: int| 0 <= k < items@.len() ==> item_writable(#[trigger] items@[k]),
        buffer_fits(old(packet)@.len() + tab_bytes(items@, tab).len()),
    ensures
        final(packet)@ == old(packet)@ + tab_bytes(items@, tab),
        final(packet).use_encryption == old(packet).use_encryption,
{
    let n = items.len();
    let mut i: usize = 0;
    proof {
        assert(items@.take(0) =~= Seq::<Item>::empty());
        assert(packet@ =~= old(packet)@ + tab_bytes(items@.take(0), tab));
    }
    while i < n
        invariant
            packet.use_encryption == old(packet).use_encryption,
            n == items@.len(),
            i <= n,
            forall|k: int| 0 <= k < items@.len() ==> item_writable(#[trigger] items@[k]),
            buffer_fits(old(packet)@.len() + tab_bytes(items@, tab).len()),
            packet@ == old(packet)@ + tab_bytes(items@.take(i as int), tab),
            packet.use_encryption == old(packet).use_encryption,
        decreases n - i,
    {
        let item = &items[i];
        proof {
            assert(items@.take(i + 1).drop_last() =~= items@.take(i as int));
            assert(items@.take(i + 1).last() == *item);
            lemma_tab_prefix(items@, tab, i + 1);
        }
        if item.inventory_type == tab {
            write_item(packet, item);
        }
        proof {
            assert(packet@ =~= old(packet)@ + tab_bytes(items@.take(i + 1), tab));
        }
        i += 1;
    }
    proof {
        assert(items@.take(n as int) =~= items@);
    }
}

/// The items of every tab: equip, use, setup, etc and cash, the first two
/// separated by an int 0 and the others by a byte 0.
pub open spec fn tabs_bytes(items: Seq<Item>) -> Seq<u8> {
    tab_bytes(items, InventoryType::Equip) + le_i32(0) + tab_bytes(items, InventoryType::Use)
        + seq![0u8] + tab_bytes(items, InventoryType::Setup) + seq![0u8] + tab_bytes(
        items,
        InventoryType::Etc,
    ) + seq![0u8] + tab_bytes(items, InventoryType::Cash)
}

/// The size of each of a character's five tabs, and the zero timestamp.
pub open spec fn slots_bytes(c: Character) -> Seq<u8> {
    seq![
        c.data.equip_slots as u8,
        c.data.use_slots as u8,
        c.data.setup_slots as u8,
        c.data.etc_slots as u8,
        c.data.cash_slots as u8,
    ] + le_i64(zero_timestamp())
}

/// What the client is told of a character's inventory: the tab sizes, the
/// equipped items, two empty lists (no cash equips), then the tabs.
#[verifier::opaque]
pub open spec fn inventory_bytes(c: Character) -> Seq<u8> {
    slots_bytes(c) + equips_bytes(c.equipment@) + le_i16(0) + le_i16(0) + tabs_bytes(c.items@)
}

/// The character's equips and items can all be written.
pub open spec fn inventory_writable(c: Character) -> bool {
    &&& forall|k: int| 0 <= k < c.equipment@.len() ==> equip_writable(#[trigger] c.equipment@[k])
    &&& forall|k: int| 0 <= k < c.items@.len() ==> item_writable(#[trigger] c.items@[k])
}

/// Writes the equips, in order.
fn write_equips(packet: &mut Packet, equipment: &Vec<Equipment>)
    requires
        forall|k: int| 0 <= k < equipment@.len() ==> equip_writable(#[trigger] equipment@[k]),
        buffer_fits(old(packet)@.len() + equips_bytes(equipment@).len()),
    ensures
        final(packet)@ == old(packet)@ + equips_bytes(equipment@),
        final(packet).use_encryption == old(packet).use_encryption,
{
    let n = equipment.len();
    let mut i: usize = 0;
    proof {
        assert(equipment@.take(0) =~= Seq::<Equipment>::empty());
        assert(packet@ =~= old(packet)@ + equips_bytes(equipment@.take(0)));
    }
    while i < n
        invariant
            packet.use_encryption == old(packet).use_encryption,
            n == equipment@.len(),
            i <= n,
            forall|k: int| 0 <= k < equipment@.len() ==> equip_writable(#[trigger] equipment@[k]),
            buffer_fits(old(packet)@.len() + equips_bytes(equipment@).len()),
            packet@ == old(packet)@ + equips_bytes(equipment@.take(i as int)),
            packet.use_encryption == old(packet).use_encryption,
        decreases n - i,
    {
        let equip = &equipment[i];
        proof {
            assert(equipment@.take(i + 1).drop_last() =~= equipment@.take(i as int));
            assert(equipment@.take(i + 1).last() == *equip);
            lemma_equips_prefix(equipment@, i + 1);
        }
        write_equip(packet, equip);
        proof {
            assert(packet@ =~= old(packet)@ + equips_bytes(equipment@.take(i + 1)));
        }
        i += 1;
    }
    proof {
        assert(equipment@.take(n as int) =~= equipment@);
    }
}

/// Writes every tab.
fn write_tabs(packet: &mut Packet, items: &Vec<Item>)
    requires
        forall|k: int| 0 <= k < items@.len() ==> item_writable(#[trigger] items@[k]),
        buffer_fits(old(packet)@.len() + tabs_bytes(items@).len()),
    ensures
        final(packet)@ == old(packet)@ + tabs_bytes(items@),
        final(packet).use_encryption == old(packet).use_encryption,
{
    write_tab(packet, items, InventoryType::Equip);
    packet.write_int(0);
    write_tab(packet, items, InventoryType::Use);
    packet.write_byte(0);
    write_tab(packet, items, InventoryType::Setup);
    packet.write_byte(0);
    write_tab(packet, items, InventoryType::Etc);
    packet.write_byte(0);
    write_tab(packet, items, InventoryType::Cash);
    proof {
        assert(final(packet)@ =~= old(packet)@ + tabs_bytes(items@));
    }
}

/// Writes a character's inventory data to a packet
pub fn write_character_inventory(packet: &mut Packet, character: &Character)
    requires
        inventory_writable(*character),
        buffer_fits(old(packet)@.len() + inventory_bytes(*character).len()),
    ensures
        final(packet)@ == old(packet)@ + inventory_bytes(*character),
        final(packet).use_encryption == old(packet).use_encryption,
{
    reveal(inventory_bytes);
    packet.write_byte(character.data.equip_slots as u8);
    packet.write_byte(character.data.use_slots as u8);
    packet.write_byte(character.data.setup_slots as u8);
    packet.write_byte(character.data.etc_slots as u8);
    packet.write_byte(character.data.cash_slots as u8);
    // UTC zero-timestamp
    packet.write_long(94354848000000000);
    proof {
        assert(packet@ =~= old(packet)@ + slots_bytes(*character));
    }
    write_equips(packet, &character.equipment);
    packet.write_short(0);
    // No equipped cash items
    packet.write_short(0);
    write_tabs(packet, &character.items);
    proof {
        assert(final(packet)@ =~= old(packet)@ + inventory_bytes(*character));
    }
}

// ---------------------------------------------------------------------------
// Skills and cooldowns
// ---------------------------------------------------------------------------

/// Integer division rounding toward zero, as Rust's `/` does (for `b > 0`).
pub open spec fn div_toward_zero(a: int, b: int) -> int {
    if a >= 0 {
        a / b
    } else {
        -((-a) / b)
    }
}

/// A learned skill: id, level, and no expiration.
pub open spec fn skill_bytes(s: Skill) -> Seq<u8> {
    le_i32(s.id) + le_i32(s.level) + le_i64(-1i64)
}

/// The skills, one after the other.
pub open spec fn skill_list_bytes(s: Seq<Skill>) -> Seq<u8>
    decreases s.len(),
{
    if s.len() == 0 {
        Seq::empty()
    } else {
        skill_list_bytes(s.drop_last()) + skill_bytes(s.last())
    }
}

/// The milliseconds of a cooldown still left at time `now` (in milliseconds).
pub open spec fn cooldown_left(c: Cooldown, now: i64) -> int {
    c.start + c.length - now
}

/// A cooldown: the skill, and the whole seconds left (rounded toward zero).
pub open spec fn cooldown_bytes(c: Cooldown, now: i64) -> Seq<u8> {
    le_i32(c.skill_id) + le_i16(div_toward_zero(cooldown_left(c, now), 1000) as i16)
}

/// The cooldowns, one after the other.
pub open spec fn cooldown_list_bytes(s: Seq<Cooldown>, now: i64) -> Seq<u8>
    decreases s.len(),
{
    if s.len() == 0 {
        Seq::empty()
    } else {
        cooldown_list_bytes(s.drop_last(), now) + cooldown_bytes(s.last(), now)
    }
}

/// The time left of a cooldown can be computed in 64 bits.
pub open spec fn cooldown_computable(c: Cooldown, now: i64) -> bool {
    &&& i64::MIN <= c.start + c.length <= i64::MAX
    &&& i64::MIN <= cooldown_left(c, now) <= i64::MAX
}

/// The time left of each of the character's cooldowns can be computed.
pub open spec fn cooldowns_computable(s: Seq<Cooldown>, now: i64) -> bool {
    forall|k: int| 0 <= k < s.len() ==> cooldown_computable(#[trigger] s[k], now)
}

/// What the client is told of a character's skills at time `now`: a 0, the
/// number of skills and each skill, then the number of cooldowns and each
/// cooldown.
#[verifier::opaque]
pub open spec fn skills_bytes(c: Character, now: i64) -> Seq<u8> {
    seq![0u8] + le_i16(c.skills@.len() as i16) + skill_list_bytes(c.skills@) + le_i16(
        c.cooldowns@.len() as i16,
    ) + cooldown_list_bytes(c.cooldowns@, now)
}

proof fn lemma_skill_list_len(s: Seq<Skill>)
    ensures
        skill_list_bytes(s).len() == 16 * s.len(),
    decreases s.len(),
{
    if s.len() > 0 {
        lemma_skill_list_len(s.drop_last());
    }
}

proof fn lemma_cooldown_list_len(s: Seq<Cooldown>, now: i64)
    ensures
        cooldown_list_bytes(s, now).len() == 6 * s.len(),
    decreases s.len(),
{
    if s.len() > 0 {
        lemma_cooldown_list_len(s.drop_last(), now);
    }
}

/// The whole seconds of `ms` milliseconds, rounded toward zero.
fn whole_seconds(ms: i64) -> (secs: i64)
    ensures
        secs == div_toward_zero(ms as int, 1000),
{
    if ms >= 0 {
        ms / 1000
    } else {
        let m: i128 = ms as i128;
        let q: i128 = (-m) / 1000;
        (-q) as i64
    }
}

/// Writes a character's skills and cooldowns to a packet, the time left of each
/// cooldown counted from `now` (milliseconds since the Unix epoch).
pub fn write_character_skills_at(packet: &mut Packet, character: &Character, now: i64)
    requires
        cooldowns_computable(character.cooldowns@, now),
        buffer_fits(old(packet)@.len() + skills_bytes(*character, now).len()),
    ensures
        final(packet)@ == old(packet)@ + skills_bytes(*character, now),
        final(packet).use_encryption == old(packet).use_encryption,
{
    reveal(skills_bytes);
    proof {
        lemma_skill_list_len(character.skills@);
        lemma_cooldown_list_len(character.cooldowns@, now);
    }
    packet.write_byte(0);
    let skills = &character.skills;
    let n = skills.len();
    if n != 0 {
        packet.write_short(n as i16);
    } else {
        packet.write_short(0);
    }
    let ghost head = packet@;
    let mut i: usize = 0;
    proof {
        assert(skills@.take(0) =~= Seq::<Skill>::empty());
        assert(packet@ =~= head + skill_list_bytes(skills@.take(0)));
    }
    while i < n
        invariant
            packet.use_encryption == old(packet).use_encryption,
            n == skills@.len(),
            i <= n,
            buffer_fits((head.len() + 16 * n + 2 + 6 * character.cooldowns@.len()) as nat),
            packet@ == head + skill_list_bytes(skills@.take(i as int)),
            packet.use_encryption == old(packet).use_encryption,
        decreases n - i,
    {
        let skill = &skills[i];
        proof {
            assert(skills@.take(i + 1).drop_last() =~= skills@.take(i as int));
            assert(skills@.take(i + 1).last() == *skill);
            lemma_skill_list_len(skills@.take(i as int));
        }
        packet.write_int(skill.id);
        packet.write_int(skill.level);
        packet.write_long(-1);
        proof {
            assert(packet@ =~= head + skill_list_bytes(skills@.take(i + 1)));
        }
        i += 1;
    }
    proof {
        assert(skills@.take(n as int) =~= skills@);
    }
    let cooldowns = &character.cooldowns;
    let m = cooldowns.len();
    if m != 0 {
        packet.write_short(m as i16);
    } else {
        packet.write_short(0);
    }
    let ghost middle = packet@;
    let mut j: usize = 0;
    proof {
        assert(cooldowns@.take(0) =~= Seq::<Cooldown>::empty());
        assert(packet@ =~= middle + cooldown_list_bytes(cooldowns@.take(0), now));
    }
    while j < m
        invariant
            packet.use_encryption == old(packet).use_encryption,
            m == cooldowns@.len(),
            j <= m,
            cooldowns_computable(cooldowns@, now),
            buffer_fits((middle.len() + 6 * m) as nat),
            packet@ == middle + cooldown_list_bytes(cooldowns@.take(j as int), now),
            packet.use_encryption == old(packet).use_encryption,
        decreases m - j,
    {
        let cooldown = &cooldowns[j];
        proof {
            assert(cooldowns@.take(j + 1).drop_last() =~= cooldowns@.take(j as int));
            assert(cooldowns@.take(j + 1).last() == *cooldown);
            assert(cooldown_computable(cooldowns@[j as int], now));
            lemma_cooldown_list_len(cooldowns@.take(j as int), now);
        }
        packet.write_int(cooldown.skill_id);
        let remaining = cooldown.start + cooldown.length - now;
        packet.write_short(whole_seconds(remaining) as i16);
        proof {
            assert(packet@ =~= middle + cooldown_list_bytes(cooldowns@.take(j + 1), now));
        }
        j += 1;
    }
    proof {
        assert(cooldowns@.take(m as int) =~= cooldowns@);
        assert(final(packet)@ =~= old(packet)@ + skills_bytes(*character, now));
    }
}

// ---------------------------------------------------------------------------
// Quests, rings, teleport rocks, monster book
// ---------------------------------------------------------------------------

/// The number of quests with the given status.
pub open spec fn quest_count(s: Seq<crate::sql::Quest>, status: crate::sql::QuestStatus) -> nat
    decreases s.len(),
{
    if s.len() == 0 {
        0
    } else {
        quest_count(s.drop_last(), status) + if s.last().status == status {
            1nat
        } else {
            0nat
        }
    }
}

/// A started quest: its id and its (empty) progress text.
pub open spec fn started_quest_bytes(q: crate::sql::Quest) -> Seq<u8> {
    le_i16(q.id as i16) + le_i16(0)
}

/// A completed quest: its id and when it was completed.
pub open spec fn completed_quest_bytes(q: crate::sql::Quest) -> Seq<u8> {
    le_i16(q.id as i16) + le_i64(q.completed as i64)
}

/// The started quests, in order.
pub open spec fn started_quests_bytes(s: Seq<crate::sql::Quest>) -> Seq<u8>
    decreases s.len(),
{
    if s.len() == 0 {
        Seq::empty()
    } else {
        started_quests_bytes(s.drop_last()) + if s.last().status
            == crate::sql::QuestStatus::Started {
            started_quest_bytes(s.last())
        } else {
            Seq::empty()
        }
    }
}

/// The completed quests, in order.
pub open spec fn completed_quests_bytes(s: Seq<crate::sql::Quest>) -> Seq<u8>
    decreases s.len(),
{
    if s.len() == 0 {
        Seq::empty()
    } else {
        completed_quests_bytes(s.drop_last()) + if s.last().status
            == crate::sql::QuestStatus::Completed {
            completed_quest_bytes(s.last())
        } else {
            Seq::empty()
        }
    }
}

/// What the client is told of a character's quests: the number of started
/// quests and each of them, then the number of completed quests and each of
/// them (each list in the order the character holds the quests).
#[verifier::opaque]
pub open spec fn quests_bytes(c: Character) -> Seq<u8> {
    le_i16(quest_count(c.quests@, crate::sql::QuestStatus::Started) as i16) + started_quests_bytes(
        c.quests@,
    ) + le_i16(quest_count(c.quests@, crate::sql::QuestStatus::Completed) as i16)
        + completed_quests_bytes(c.quests@)
}

proof fn lemma_quest_lists(s: Seq<crate::sql::Quest>)
    ensures
        quest_count(s, crate::sql::QuestStatus::Started) <= s.len(),
        quest_count(s, crate::sql::QuestStatus::Completed) <= s.len(),
        started_quests_bytes(s).len() == 4 * quest_count(s, crate::sql::QuestStatus::Started),
        completed_quests_bytes(s).len() == 10 * quest_count(s, crate::sql::QuestStatus::Completed),
    decreases s.len(),
{
    if s.len() > 0 {
        lemma_quest_lists(s.drop_last());
    }
}

/// The number of the character's quests with the given status.
fn count_quests(quests: &Vec<crate::sql::Quest>, status: crate::sql::QuestStatus) -> (count: usize)
    ensures
        count == quest_count(quests@, status),
{
    let n = quests.len();
    let mut count: usize = 0;
    let mut i: usize = 0;
    while i < n
        invariant
            n == quests@.len(),
            i <= n,
            count == quest_count(quests@.take(i as int), status),
            count <= i,
        decreases n - i,
    {
        proof {
            assert(quests@.take(i + 1).drop_last() =~= quests@.take(i as int));
        }
        if quests[i].status == status {
            count += 1;
        }
        i += 1;
    }
    proof {
        assert(quests@.take(n as int) =~= quests@);
    }
    count
}

/// Writes a character's quests to a packet
pub fn write_character_quests(packet: &mut Packet, character: &Character)
    requires
        buffer_fits(old(packet)@.len() + quests_bytes(*character).len()),
    ensures
        final(packet)@ == old(packet)@ + quests_bytes(*character),
        final(packet).use_encryption == old(packet).use_encryption,
{
    reveal(quests_bytes);
    let quests = &character.quests;
    let n = quests.len();
    proof {
        lemma_quest_lists(quests@);
    }
    let started = count_quests(quests, crate::sql::QuestStatus::Started);
    packet.write_short(started as i16);
    let ghost head = packet@;
    let mut i: usize = 0;
    proof {
        assert(quests@.take(0) =~= Seq::<crate::sql::Quest>::empty());
        assert(packet@ =~= head + started_quests_bytes(quests@.take(0)));
    }
    while i < n
        invariant
            packet.use_encryption == old(packet).use_encryption,
            n == quests@.len(),
            i <= n,
            buffer_fits(head.len() + started_quests_bytes(quests@).len() + 2
                + completed_quests_bytes(quests@).len()),
            packet@ == head + started_quests_bytes(quests@.take(i as int)),
            packet.use_encryption == old(packet).use_encryption,
        decreases n - i,
    {
        let quest = &quests[i];
        proof {
            assert(quests@.take(i + 1).drop_last() =~= quests@.take(i as int));
            assert(quests@.take(i + 1).last() == *quest);
            lemma_quest_lists(quests@.take(i as int));
            lemma_quest_lists(quests@.take(i + 1));
            lemma_quest_prefix(quests@, i + 1);
        }
        if quest.status == crate::sql::QuestStatus::Started {
            packet.write_short(quest.id as i16);
            packet.write_short(0);  // no progress text
        }
        proof {
            assert(packet@ =~= head + started_quests_bytes(quests@.take(i + 1)));
        }
        i += 1;
    }
    proof {
        assert(quests@.take(n as int) =~= quests@);
    }
    let completed = count_quests(quests, crate::sql::QuestStatus::Completed);
    packet.write_short(completed as i16);
    let ghost middle = packet@;
    let mut j: usize = 0;
    proof {
        assert(packet@ =~= middle + completed_quests_bytes(quests@.take(0)));
    }
    while j < n
        invariant
            packet.use_encryption == old(packet).use_encryption,
            n == quests@.len(),
            j <= n,
            buffer_fits(middle.len() + completed_quests_bytes(quests@).len()),
            packet@ == middle + completed_quests_bytes(quests@.take(j as int)),
            packet.use_encryption == old(packet).use_encryption,
        decreases n - j,
    {
        let quest = &quests[j];
        proof {
            assert(quests@.take(j + 1).drop_last() =~= quests@.take(j as int));
            assert(quests@.take(j + 1).last() == *quest);
            lemma_quest_prefix(quests@, j + 1);
        }
        if quest.status == crate::sql::QuestStatus::Completed {
            packet.write_short(quest.id as i16);
            packet.write_long(quest.completed as i64);
        }
        proof {
            assert(packet@ =~= middle + completed_quests_bytes(quests@.take(j + 1)));
        }
        j += 1;
    }
    proof {
        assert(quests@.take(n as int) =~= quests@);
        assert(final(packet)@ =~= old(packet)@ + quests_bytes(*character));
    }
}

proof fn lemma_quest_prefix(s: Seq<crate::sql::Quest>, i: int)
    requires
        0 <= i <= s.len(),
    ensures
        started_quests_bytes(s.take(i)).len() <= started_quests_bytes(s).len(),
        completed_quests_bytes(s.take(i)).len() <= completed_quests_bytes(s).len(),
    decreases s.len() - i,
{
    if i < s.len() {
        lemma_quest_prefix(s, i + 1);
        assert(s.take(i + 1).drop_last() =~= s.take(i));
    } else {
        assert(s.take(i) =~= s);
    }
}

/// What the client is told of a character's rings: no crush, friendship or
/// marriage rings.
pub open spec fn rings_bytes() -> Seq<u8> {
    le_i16(0) + le_i16(0) + le_i16(0)
}

/// Writes a character's rings to a packet
pub fn write_character_rings(packet: &mut Packet, character: &Character)
    requires
        buffer_fits(old(packet)@.len() + 6),
    ensures
        final(packet)@ == old(packet)@ + rings_bytes(),
        final(packet).use_encryption == old(packet).use_encryption,
{
    packet.write_short(0);  // crush rings
    packet.write_short(0);  // friendship rings
    packet.write_short(0);  // marriage ring
    proof {
        assert(final(packet)@ =~= old(packet)@ + rings_bytes());
    }
}

/// `n` teleport rock slots, each empty (map 999999999).
pub open spec fn rock_maps_bytes(n: nat) -> Seq<u8>
    decreases n,
{
    if n == 0 {
        Seq::empty()
    } else {
        rock_maps_bytes((n - 1) as nat) + le_i32(999999999)
    }
}

/// Writes a character's teleport rock maps to a packet: five regular and ten
/// VIP slots, all empty.
pub fn write_character_teleport_rock_maps(packet: &mut Packet, character: &Character)
    requires
        buffer_fits(old(packet)@.len() + 60),
    ensures
        final(packet)@ == old(packet)@ + rock_maps_bytes(15),
        final(packet).use_encryption == old(packet).use_encryption,
{
    let mut i: usize = 0;
    while i < 15
        invariant
            packet.use_encryption == old(packet).use_encryption,
            i <= 15,
            buffer_fits(old(packet)@.len() + 60),
            packet@ == old(packet)@ + rock_maps_bytes(i as nat),
            packet@.len() == old(packet)@.len() + 4 * i,
            packet.use_encryption == old(packet).use_encryption,
        decreases 15 - i,
    {
        packet.write_int(999999999);
        proof {
            assert(packet@ =~= old(packet)@ + rock_maps_bytes((i + 1) as nat));
        }
        i += 1;
    }
}

/// What the client is told of a character's monster book: no cover, no cards.
pub open spec fn monster_book_bytes() -> Seq<u8> {
    le_i32(0) + seq![0u8] + le_i16(0)
}

/// Writes a character's monster book data to a packet
pub fn write_character_monster_book(packet: &mut Packet, character: &Character)
    requires
        buffer_fits(old(packet)@.len() + 7),
    ensures
        final(packet)@ == old(packet)@ + monster_book_bytes(),
        final(packet).use_encryption == old(packet).use_encryption,
{
    packet.write_int(0);  // monster book cover
    packet.write_byte(0);
    packet.write_short(0);  // monster book cards
    proof {
        assert(final(packet)@ =~= old(packet)@ + monster_book_bytes());
    }
}

// ---------------------------------------------------------------------------
// Key bindings
// ---------------------------------------------------------------------------

/// The binding of each key: a later row for a key replaces an earlier one.
pub open spec fn key_bindings(s: Seq<crate::sql::Keymap>) -> Map<i32, (u8, i32)>
    decreases s.len(),
{
    if s.len() == 0 {
        Map::empty()
    } else {
        key_bindings(s.drop_last()).insert(
            s.last().key_id,
            (s.last().key_type as u8, s.last().action),
        )
    }
}

/// A key's type and action (both 0 for an unbound key).
pub open spec fn key_entry(b: Map<i32, (u8, i32)>, key: i32) -> Seq<u8> {
    if b.contains_key(key) {
        seq![b[key].0] + le_i32(b[key].1)
    } else {
        seq![0u8] + le_i32(0)
    }
}

/// The entries of keys `0..n`.
pub open spec fn key_entries(b: Map<i32, (u8, i32)>, n: nat) -> Seq<u8>
    decreases n,
{
    if n == 0 {
        Seq::empty()
    } else {
        key_entries(b, (n - 1) as nat) + key_entry(b, (n - 1) as i32)
    }
}

/// The key-map packet: op code 0x14F, a 0, then the entries of the 90 keys.
pub open spec fn keymap_bytes(c: Character) -> Seq<u8> {
    le_i16(0x14F) + seq![0u8] + key_entries(key_bindings(c.keymaps@), 90)
}

proof fn lemma_key_entries(b: Map<i32, (u8, i32)>, n: nat, k: int)
    requires
        0 <= k < n,
        n <= 90,
    ensures
        key_entries(b, n).len() == 5 * n,
        key_entries(b, n).subrange(5 * k, 5 * k + 5) == key_entry(b, k as i32),
    decreases n,
{
    lemma_key_entries_len(b, (n - 1) as nat);
    if k < n - 1 {
        lemma_key_entries(b, (n - 1) as nat, k);
        assert(key_entries(b, n).subrange(5 * k, 5 * k + 5) =~= key_entries(
            b,
            (n - 1) as nat,
        ).subrange(5 * k, 5 * k + 5));
    } else {
        assert(key_entries(b, n).subrange(5 * k, 5 * k + 5) =~= key_entry(b, k as i32));
    }
}

proof fn lemma_key_entries_len(b: Map<i32, (u8, i32)>, n: nat)
    ensures
        key_entries(b, n).len() == 5 * n,
    decreases n,
{
    if n > 0 {
        lemma_key_entries_len(b, (n - 1) as nat);
    }
}

/// The key-map packet lists all 90 keys in order, five bytes each: key `k`
/// gets the type and action of the character's last binding for it, or zeros.
pub proof fn lemma_keymap_lists_keys(c: Character, key: int)
    requires
        0 <= key < 90,
    ensures
        keymap_bytes(c).len() == 453,
        keymap_bytes(c).subrange(3 + 5 * key, 8 + 5 * key) == key_entry(
            key_bindings(c.keymaps@),
            key as i32,
        ),
{
    let b = key_bindings(c.keymaps@);
    lemma_key_entries(b, 90, key);
    assert(keymap_bytes(c).subrange(3 + 5 * key, 8 + 5 * key) =~= key_entries(b, 90).subrange(
        5 * key,
        5 * key + 5,
    ));
}

/// Packet containing the character's keymap configuration
pub fn character_keymap(character: &Character) -> (packet: Packet)
    ensures
        packet.use_encryption,
        packet@ == keymap_bytes(*character),
{
    let mut packet = Packet::new(0x14F);
    packet.write_byte(0);
    let mut map: std::collections::HashMap<i32, (u8, i32)> = std::collections::HashMap::new();
    let keymaps = &character.keymaps;
    let n = keymaps.len();
    let mut i: usize = 0;
    proof {
        assert(keymaps@.take(0) =~= Seq::<crate::sql::Keymap>::empty());
        assert(map@ =~= key_bindings(keymaps@.take(0)));
    }
    while i < n
        invariant
            packet.use_encryption,
            n == keymaps@.len(),
            i <= n,
            map@ == key_bindings(keymaps@.take(i as int)),
        decreases n - i,
    {
        let keymap = &keymaps[i];
        proof {
            assert(keymaps@.take(i + 1).drop_last() =~= keymaps@.take(i as int));
            assert(keymaps@.take(i + 1).last() == *keymap);
        }
        map.insert(keymap.key_id, (keymap.key_type as u8, keymap.action));
        i += 1;
    }
    proof {
        assert(keymaps@.take(n as int) =~= keymaps@);
    }
    let ghost head = packet@;
    let mut key: i32 = 0;
    while key < 90
        invariant
            packet.use_encryption,
            0 <= key <= 90,
            map@ == key_bindings(keymaps@),
            head.len() == 3,
            packet@ == head + key_entries(map@, key as nat),
            packet@.len() == 3 + 5 * key,
        decreases 90 - key,
    {
        match map.get(&key) {
            Some(binding) => {
                packet.write_byte(binding.0);
                packet.write_int(binding.1);
            },
            None => {
                packet.write_byte(0);
                packet.write_int(0);
            },
        }
        proof {
            assert(packet@ =~= head + key_entries(map@, (key + 1) as nat));
        }
        key += 1;
    }
    proof {
        assert(packet@ =~= keymap_bytes(*character));
    }
    packet
}

// ---------------------------------------------------------------------------
// Clock and random values
// ---------------------------------------------------------------------------

/// `chrono::Utc::now().timestamp_millis()`: the current time, in milliseconds
/// since the Unix epoch. Nothing is promised of the value.
#[verifier::external_body]
fn current_time_millis() -> (millis: i64) {
    chrono::Utc::now().timestamp_millis()
}

/// `chrono::Local::now().offset().local_minus_utc()`: how many seconds the
/// machine's time zone is ahead of UTC; chrono only builds offsets of less than
/// a day either way.
#[verifier::external_body]
fn local_utc_offset_seconds() -> (secs: i32)
    ensures
        -86400 < secs < 86400,
{
    chrono::Local::now().offset().local_minus_utc()
}

/// `rand::random::<i32>()`: a random 32-bit value; nothing is promised of it.
#[verifier::external_body]
fn random_i32() -> (v: i32) {
    rand::random::<i32>()
}

/// The client's clock for a time given in milliseconds since the Unix epoch,
/// in the machine's time zone `offset` (seconds ahead of UTC): ticks of 100
/// nanoseconds, shifted by the epoch difference the client uses.
pub open spec fn file_time(millis: i64, offset: i32) -> int {
    millis * 10000 + (116444736010800000 + 10000000 * offset)
}

/// The client's clock can be computed in 64 bits.
pub open spec fn file_time_fits(millis: i64, offset: i32) -> bool {
    &&& i64::MIN <= millis * 10000 <= i64::MAX
    &&& i64::MIN <= 116444736010800000 + 10000000 * offset <= i64::MAX
    &&& i64::MIN <= file_time(millis, offset) <= i64::MAX
}

/// The client's clock for the given time and offset.
pub fn client_time(millis: i64, offset: i32) -> (t: i64)
    requires
        file_time_fits(millis, offset),
    ensures
        t == file_time(millis, offset),
{
    let current_time = millis * 10000;
    let offset: i64 = 116444736010800000 + (10000000 * offset as i64);
    current_time + offset
}

/// The client's clock for the given time and offset, where it can be computed
/// in 64 bits.
pub open spec fn client_time_of(millis: i64, offset: i32) -> Option<i64> {
    if file_time_fits(millis, offset) {
        Some(file_time(millis, offset) as i64)
    } else {
        None
    }
}

/// The client's clock for the given time and offset; `None` exactly where it
/// does not fit in 64 bits.
pub fn client_time_checked(millis: i64, offset: i32) -> (t: Option<i64>)
    ensures
        t == client_time_of(millis, offset),
{
    if millis < i64::MIN / 10000 || millis > i64::MAX / 10000 {
        return None;
    }
    let current_time = millis * 10000;
    let shift: i64 = 116444736010800000 + (10000000 * offset as i64);
    if current_time > 0 && shift > i64::MAX - current_time {
        return None;
    }
    if current_time < 0 && shift < i64::MIN - current_time {
        return None;
    }
    Some(client_time(millis, offset))
}

/// The client's clock now: what `client_time_checked` gives for the machine's
/// current time and time-zone offset (`None` where that does not fit in 64
/// bits).
pub fn client_time_now() -> (t: Option<i64>)
    ensures
        exists|millis: i64, offset: i32|
            -86400 < offset < 86400 && t == #[trigger] client_time_of(millis, offset),
{
    let millis = current_time_millis();
    let offset = local_utc_offset_seconds();
    let t = client_time_checked(millis, offset);
    proof {
        assert(t == client_time_of(millis, offset));
    }
    t
}

// ---------------------------------------------------------------------------
// Characters
// ---------------------------------------------------------------------------

/// Possible connect errors
#[derive(PartialEq, Eq, Structural, Clone, Copy, Debug)]
pub enum ConnectError {
    Unknown,
}

/// The code the client knows a connect error by.
pub open spec fn connect_error_code(error: ConnectError) -> i16 {
    match error {
        ConnectError::Unknown => 0x09,
    }
}

/// Packet containing the reason for failing to connect
pub fn connect_error(error: ConnectError) -> (packet: Packet)
    ensures
        packet.use_encryption,
        packet@ == le_i16(0x09) + le_i16(connect_error_code(error)),
{
    let code: i16 = match error {
        ConnectError::Unknown => 0x09,
    };
    let mut packet = Packet::new(0x09);
    packet.write_short(code);
    packet
}

/// The first fields of a character's data: `stats` is the character's stat
/// block as the stats encoder writes it.
#[verifier::opaque]
pub open spec fn character_head(c: Character, stats: Seq<u8>) -> Seq<u8> {
    le_i64(-1i64) + seq![0u8] + stats + seq![c.data.buddy_capacity as u8, 0u8] + le_i32(c.data.mesos)
}

/// The last fields of a character's data: no minigames, rings, teleport rock
/// maps, monster book, cards or areas.
#[verifier::opaque]
pub open spec fn character_tail() -> Seq<u8> {
    le_i16(0) + rings_bytes() + rock_maps_bytes(15) + monster_book_bytes() + le_i16(0) + le_i16(0)
        + le_i16(0)
}

/// The characters's data as the client receives it on entering the game:
/// `stats` is the character's stat block as the stats encoder writes it, and
/// cooldowns are counted from `now`.
pub open spec fn character_bytes(c: Character, stats: Seq<u8>, now: i64) -> Seq<u8> {
    character_head(c, stats) + inventory_bytes(c) + skills_bytes(c, now) + quests_bytes(c)
        + character_tail()
}

/// The length of the character's data, which does not depend on the time.
pub open spec fn character_len(c: Character, stats: Seq<u8>) -> nat {
    (9 + stats.len() + 6 + inventory_bytes(c).len() + 5 + 16 * c.skills@.len() + 6
        * c.cooldowns@.len() + quests_bytes(c).len() + 2 + 6 + 60 + 7 + 6) as nat
}

proof fn lemma_rock_maps_len(n: nat)
    ensures
        rock_maps_bytes(n).len() == 4 * n,
    decreases n,
{
    if n > 0 {
        lemma_rock_maps_len((n - 1) as nat);
    }
}

proof fn lemma_skills_len(c: Character, now: i64)
    ensures
        skills_bytes(c, now).len() == 5 + 16 * c.skills@.len() + 6 * c.cooldowns@.len(),
{
    reveal(skills_bytes);
    lemma_skill_list_len(c.skills@);
    lemma_cooldown_list_len(c.cooldowns@, now);
}

proof fn lemma_character_len(c: Character, stats: Seq<u8>, now: i64)
    ensures
        character_bytes(c, stats, now).len() == character_len(c, stats),
{
    reveal(skills_bytes);
    reveal(character_head);
    reveal(character_tail);
    lemma_skill_list_len(c.skills@);
    lemma_cooldown_list_len(c.cooldowns@, now);
    lemma_rock_maps_len(15);
}

/// The character's data can be written at time `now`.
pub open spec fn character_writable(c: Character, now: i64) -> bool {
    inventory_writable(c) && cooldowns_computable(c.cooldowns@, now)
}

fn write_character_tail(packet: &mut Packet, character: &Character)
    requires
        buffer_fits(old(packet)@.len() + 81),
    ensures
        final(packet)@ == old(packet)@ + character_tail(),
        final(packet).use_encryption == old(packet).use_encryption,
{
    reveal(character_tail);
    proof {
        lemma_rock_maps_len(15);
    }
    packet.write_short(0);  // no minigame info
    write_character_rings(packet, character);
    write_character_teleport_rock_maps(packet, character);
    write_character_monster_book(packet, character);
    packet.write_short(0);  // no new year cards
    packet.write_short(0);  // no area info
    packet.write_short(0);
    proof {
        assert(final(packet)@ =~= old(packet)@ + character_tail());
    }
}

/// Writes the character's data: `stats` is the character's stat block as the
/// stats encoder writes it, and cooldowns are counted from `now`.
pub fn write_character(packet: &mut Packet, character: &Character, stats: &[u8], now: i64)
    requires
        character_writable(*character, now),
        buffer_fits(old(packet)@.len() + character_len(*character, stats@)),
    ensures
        final(packet)@ == old(packet)@ + character_bytes(*character, stats@, now),
        final(packet).use_encryption == old(packet).use_encryption,
{
    proof {
        lemma_character_len(*character, stats@, now);
        lemma_skills_len(*character, now);
        reveal(character_head);
        reveal(character_tail);
        lemma_rock_maps_len(15);
    }
    packet.write_long(-1);
    packet.write_byte(0);
    packet.write_bytes(stats);
    packet.write_byte(character.data.buddy_capacity as u8);
    // No blessing of the fairy
    packet.write_byte(0);
    packet.write_int(character.data.mesos);
    proof {
        reveal(character_head);
        assert(packet@ =~= old(packet)@ + character_head(*character, stats@));
    }
    write_character_inventory(packet, character);
    write_character_skills_at(packet, character, now);
    write_character_quests(packet, character);
    write_character_tail(packet, character);
    proof {
        assert(final(packet)@ =~= old(packet)@ + character_bytes(*character, stats@, now));
    }
}

/// The packet that tells the client about its character on entering a channel:
/// the channel, three random values, the character's data and the client's
/// clock.
pub open spec fn character_info_bytes(
    channel_id: i32,
    c: Character,
    stats: Seq<u8>,
    seeds: (i32, i32, i32),
    now: i64,
    offset: i32,
) -> Seq<u8> {
    le_i16(0x7D) + le_i32(channel_id) + seq![1u8, 1u8] + le_i16(0) + le_i32(seeds.0) + le_i32(seeds.1)
        + le_i32(seeds.2) + character_bytes(c, stats, now) + le_i64(file_time(now, offset) as i64)
}

/// The character-info packet for the given random values, time and time zone.
pub fn character_info_at(
    channel_id: i32,
    character: &Character,
    stats: &[u8],
    seeds: (i32, i32, i32),
    now: i64,
    offset: i32,
) -> (packet: Packet)
    requires
        character_writable(*character, now),
        file_time_fits(now, offset),
        buffer_fits(character_len(*character, stats@) + 30),
    ensures
        packet.use_encryption,
        packet@ == character_info_bytes(channel_id, *character, stats@, seeds, now, offset),
{
    let mut packet = Packet::new(0x7D);
    packet.write_int(channel_id);
    packet.write_byte(1);
    packet.write_byte(1);
    packet.write_short(0);
    packet.write_int(seeds.0);
    packet.write_int(seeds.1);
    packet.write_int(seeds.2);
    write_character(&mut packet, character, stats, now);
    proof {
        lemma_character_len(*character, stats@, now);
    }
    packet.write_long(client_time(now, offset));
    proof {
        assert(packet@ =~= character_info_bytes(channel_id, *character, stats@, seeds, now, offset));
    }
    packet
}

/// Whether the character's equips and items can all be written.
pub fn inventory_ready(character: &Character) -> (ok: bool)
    ensures
        ok == inventory_writable(*character),
{
    let n = character.equipment.len();
    let mut i: usize = 0;
    while i < n
        invariant
            n == character.equipment@.len(),
            i <= n,
            forall|k: int| 0 <= k < i ==> equip_writable(#[trigger] character.equipment@[k]),
        decreases n - i,
    {
        if character.equipment[i].position == i32::MIN {
            return false;
        }
        i += 1;
    }
    let m = character.items.len();
    let mut j: usize = 0;
    while j < m
        invariant
            m == character.items@.len(),
            j <= m,
            forall|k: int| 0 <= k < n ==> equip_writable(#[trigger] character.equipment@[k]),
            n == character.equipment@.len(),
            forall|k: int| 0 <= k < j ==> item_writable(#[trigger] character.items@[k]),
        decreases m - j,
    {
        if character.items[j].position == i32::MAX {
            return false;
        }
        j += 1;
    }
    true
}

/// Whether the time left of each cooldown can be computed at time `now`.
pub fn cooldowns_ready(cooldowns: &Vec<Cooldown>, now: i64) -> (ok: bool)
    ensures
        ok == cooldowns_computable(cooldowns@, now),
{
    let n = cooldowns.len();
    let mut i: usize = 0;
    while i < n
        invariant
            n == cooldowns@.len(),
            i <= n,
            forall|k: int| 0 <= k < i ==> cooldown_computable(#[trigger] cooldowns@[k], now),
        decreases n - i,
    {
        let c = &cooldowns[i];
        let end = c.start.checked_add(c.length);
        match end {
            None => {
                return false;
            },
            Some(e) => {
                if e.checked_sub(now).is_none() {
                    return false;
                }
            },
        }
        i += 1;
    }
    true
}

/// The character-info packet for the given random values, time and offset,
/// where the time can be written: the client's clock and each cooldown's time
/// left fit in 64 bits.
pub open spec fn character_info_of(
    channel_id: i32,
    c: Character,
    stats: Seq<u8>,
    seeds: (i32, i32, i32),
    now: i64,
    offset: i32,
) -> Option<Seq<u8>> {
    if cooldowns_computable(c.cooldowns@, now) && file_time_fits(now, offset) {
        Some(character_info_bytes(channel_id, c, stats, seeds, now, offset))
    } else {
        None
    }
}

/// The character-info packet for the given random values, time and offset;
/// `None` exactly where the time cannot be written.
pub fn character_info_with(
    channel_id: i32,
    character: &Character,
    stats: &[u8],
    seeds: (i32, i32, i32),
    now: i64,
    offset: i32,
) -> (packet: Option<Packet>)
    requires
        inventory_writable(*character),
        buffer_fits(character_len(*character, stats@) + 30),
    ensures
        packet matches Some(p) ==> p.use_encryption,
        match character_info_of(channel_id, *character, stats@, seeds, now, offset) {
            Some(bytes) => packet matches Some(p) && p@ == bytes,
            None => packet is None,
        },
{
    if !cooldowns_ready(&character.cooldowns, now) {
        return None;
    }
    match client_time_checked(now, offset) {
        Some(_) => Some(character_info_at(channel_id, character, stats, seeds, now, offset)),
        None => None,
    }
}

/// The character-info packet, with fresh random values and the current time:
/// what `character_info_with` gives for some random values and the machine's
/// current time and time-zone offset.
pub fn character_info(channel_id: i32, character: &Character, stats: &[u8]) -> (packet: Option<
    Packet,
>)
    requires
        inventory_writable(*character),
        buffer_fits(character_len(*character, stats@) + 30),
    ensures
        exists|seeds: (i32, i32, i32), now: i64, offset: i32|
            -86400 < offset < 86400 && match #[trigger] character_info_of(
                channel_id,
                *character,
                stats@,
                seeds,
                now,
                offset,
            ) {
                Some(bytes) => packet matches Some(p) && p@ == bytes,
                None => packet is None,
            },
{
    let seeds = (random_i32(), random_i32(), random_i32());
    let now = current_time_millis();
    let offset = local_utc_offset_seconds();
    let packet = character_info_with(channel_id, character, stats, seeds, now, offset);
    proof {
        let _ = character_info_of(channel_id, *character, stats@, seeds, now, offset);
    }
    packet
}

// ---------------------------------------------------------------------------
// Spawning characters, NPCs and portals
// ---------------------------------------------------------------------------

/// The first part of the buff block: no buffs, no energy, no dash.
pub open spec fn buffs_front() -> Seq<u8> {
    le_i32(0) + le_i16(0) + seq![0xFCu8, 1u8] + le_i32(0) + le_i32(0) + le_i32(0) + le_i32(0)
        + le_i16(0) + Seq::new(4, |i: int| 0u8) + le_i32(0) + Seq::new(11, |i: int| 0u8) + le_i16(0)
        + Seq::new(9, |i: int| 0u8) + le_i32(0) + le_i16(0) + seq![0u8] + le_i64(0)
}

/// The rest of the buff block, which carries the random value in several places.
pub open spec fn buffs_back(magic: i32) -> Seq<u8> {
    le_i32(magic) + Seq::new(8, |i: int| 0u8) + le_i32(magic) + seq![0u8] + le_i32(magic) + le_i16(0)
        + Seq::new(9, |i: int| 0u8) + le_i32(magic) + le_i32(0) + Seq::new(9, |i: int| 0u8) + le_i32(
        magic,
    ) + le_i16(0) + le_i16(0)
}

/// The buff block of a character with no buffs; `magic` is the random value the
/// block carries in several places.
pub open spec fn buffs_bytes(magic: i32) -> Seq<u8> {
    buffs_front() + buffs_back(magic)
}

fn write_buffs_front(packet: &mut Packet)
    requires
        buffer_fits(old(packet)@.len() + 71),
    ensures
        final(packet)@ == old(packet)@ + buffs_front(),
        final(packet).use_encryption == old(packet).use_encryption,
{
    packet.write_int(0);
    packet.write_short(0);
    packet.write_byte(0xFC);
    packet.write_byte(1);
    packet.write_int(0);  // no morph
    // No buffs: both halves of the buff mask are 0
    packet.write_int(0);
    packet.write_int(0);
    // Energy
    packet.write_int(0);
    packet.write_short(0);
    packet.write_bytes(&[0u8, 0, 0, 0]);
    // Dash buff
    packet.write_int(0);
    packet.write_bytes(&[0u8, 0, 0, 0, 0, 0, 0, 0, 0, 0, 0]);
    packet.write_short(0);
    // Dash jump
    packet.write_bytes(&[0u8, 0, 0, 0, 0, 0, 0, 0, 0]);
    packet.write_int(0);
    packet.write_short(0);
    packet.write_byte(0);
    // Monster riding
    packet.write_long(0);
    proof {
        assert(final(packet)@ =~= old(packet)@ + buffs_front());
    }
}

fn write_buffs_back(packet: &mut Packet, magic: i32)
    requires
        buffer_fits(old(packet)@.len() + 57),
    ensures
        final(packet)@ == old(packet)@ + buffs_back(magic),
        final(packet).use_encryption == old(packet).use_encryption,
{
    packet.write_int(magic);
    // Speed infusion
    packet.write_bytes(&[0u8, 0, 0, 0, 0, 0, 0, 0]);
    packet.write_int(magic);
    packet.write_byte(0);
    packet.write_int(magic);
    packet.write_short(0);
    // Homing beacon
    packet.write_bytes(&[0u8, 0, 0, 0, 0, 0, 0, 0, 0]);
    packet.write_int(magic);
    packet.write_int(0);
    // Zombify
    packet.write_bytes(&[0u8, 0, 0, 0, 0, 0, 0, 0, 0]);
    packet.write_int(magic);
    packet.write_short(0);
    packet.write_short(0);
    proof {
        assert(final(packet)@ =~= old(packet)@ + buffs_back(magic));
    }
}

/// Writes the buff block with the given random value.
pub fn write_buffs_with(packet: &mut Packet, magic: i32)
    requires
        buffer_fits(old(packet)@.len() + 128),
    ensures
        final(packet)@ == old(packet)@ + buffs_bytes(magic),
        final(packet).use_encryption == old(packet).use_encryption,
{
    write_buffs_front(packet);
    write_buffs_back(packet, magic);
    proof {
        assert(final(packet)@ =~= old(packet)@ + buffs_bytes(magic));
    }
}

/// Writes the buff block with a fresh random value.
pub fn write_buffs(packet: &mut Packet)
    requires
        buffer_fits(old(packet)@.len() + 128),
    ensures
        exists|magic: i32| final(packet)@ == old(packet)@ + #[trigger] buffs_bytes(magic),
        final(packet).use_encryption == old(packet).use_encryption,
{
    let magic = random_i32();
    write_buffs_with(packet, magic);
}

/// Where a character stands when it is spawned: just above the origin with
/// stance 6 when it is entering the map, else where it stands.
pub open spec fn spawn_place(c: Character, entering: bool) -> Seq<u8> {
    if entering {
        le_i16(0) + le_i16(-42i16) + seq![6u8]
    } else {
        le_i16(c.pos.0 as i16) + le_i16(c.pos.1 as i16) + seq![c.stance]
    }
}

/// What a spawned character shows after its look: no chocolates, item effect
/// or chair, where it stands, and no pets, mount, shop, chalkboard, rings,
/// cards or team.
pub open spec fn spawn_tail(c: Character, entering: bool) -> Seq<u8> {
    le_i32(0) + le_i32(0) + le_i32(0) + spawn_place(c, entering) + le_i16(0) + seq![0u8, 0u8]
        + le_i32(1) + le_i64(0) + Seq::new(9, |i: int| 0u8)
}

/// The packet that shows a character to the others on its map; `magic` is the
/// random value of the buff block.
pub open spec fn spawn_character_bytes(c: Character, entering: bool, magic: i32) -> Seq<u8> {
    le_i16(0xA0) + le_i32(c.data.id) + seq![c.data.level as u8] + string_field(c.data.name@)
        + le_i16(0) + Seq::new(6, |i: int| 0u8) + buffs_bytes(magic) + le_i16(0)
        + crate::look::style_bytes(c.data) + crate::look::equipment_look_bytes(c.equipment@)
        + spawn_tail(c, entering)
}

/// The spawn-character packet can be built (it fits in a buffer).
pub open spec fn spawn_character_fits(c: Character) -> bool {
    buffer_fits(crate::login::text_len(c.data.name@) + 5 * c.equipment@.len() + 230)
}

fn write_spawn_tail(packet: &mut Packet, character: &Character, entering: bool)
    requires
        buffer_fits(old(packet)@.len() + 50),
    ensures
        final(packet)@ == old(packet)@ + spawn_tail(*character, entering),
        final(packet).use_encryption == old(packet).use_encryption,
{
    packet.write_int(0);  // heart-shaped chocolates
    packet.write_int(0);  // item effect
    packet.write_int(0);  // chair
    if entering {
        packet.write_position((0, 0 - 42));
        packet.write_byte(6);
    } else {
        packet.write_position(character.pos);
        packet.write_byte(character.stance);
    }
    packet.write_short(0);
    packet.write_byte(0);
    packet.write_byte(0);  // no pets
    packet.write_int(1);  // mount
    packet.write_long(0);
    packet.write_byte(0);  // shop and minigame
    packet.write_byte(0);  // chalkboard
    packet.write_byte(0);  // crush ring
    packet.write_byte(0);  // friendship ring
    packet.write_byte(0);  // marriage ring
    packet.write_byte(0);  // new year card
    packet.write_byte(0);
    packet.write_byte(0);
    packet.write_byte(0);  // team
    proof {
        assert(final(packet)@ =~= old(packet)@ + spawn_tail(*character, entering));
    }
}

/// The spawn-character packet with the given buff value.
pub fn spawn_character_with(character: &Character, entering: bool, magic: i32) -> (packet: Packet)
    requires
        spawn_character_fits(*character),
    ensures
        packet.use_encryption,
        packet@ == spawn_character_bytes(*character, entering, magic),
{
    let mut packet = Packet::new(0xA0);
    packet.write_int(character.data.id);
    packet.write_byte(character.data.level as u8);
    packet.write_string(character.data.name.as_str());
    // Guild name and mark: none yet
    packet.write_short(0);
    packet.write_bytes(&[0u8, 0, 0, 0, 0, 0]);
    write_buffs_with(&mut packet, magic);
    packet.write_short(0);  // job id
    crate::look::write_character_style(&mut packet, &character.data);
    crate::look::write_character_equipment(&mut packet, &character.equipment);
    proof {
        crate::look::lemma_worn_len(character.equipment@);
    }
    write_spawn_tail(&mut packet, character, entering);
    proof {
        assert(packet@ =~= spawn_character_bytes(*character, entering, magic));
    }
    packet
}

/// The spawn-character packet, with a fresh random buff value.
pub fn spawn_character(character: &Character, entering: bool) -> (packet: Packet)
    requires
        spawn_character_fits(*character),
    ensures
        packet.use_encryption,
        exists|magic: i32| packet@ == #[trigger] spawn_character_bytes(*character, entering, magic),
{
    let magic = random_i32();
    spawn_character_with(character, entering, magic)
}

/// The fields of an NPC the client places it by.
pub open spec fn npc_bytes(npc: crate::nx_map::Life) -> Seq<u8> {
    le_i32(npc.object_id) + le_i32(npc.id) + le_i16(npc.position.0) + le_i16(npc.cy) + seq![
        if npc.f != 1 {
            1u8
        } else {
            0u8
        },
    ] + le_i16(npc.fh) + le_i16(npc.rx0) + le_i16(npc.rx1) + seq![1u8]
}

fn write_npc(packet: &mut Packet, npc: &crate::nx_map::Life)
    requires
        buffer_fits(old(packet)@.len() + 22),
    ensures
        final(packet)@ == old(packet)@ + npc_bytes(*npc),
        final(packet).use_encryption == old(packet).use_encryption,
{
    packet.write_int(npc.object_id);
    packet.write_int(npc.id);
    packet.write_short(npc.position.0);
    packet.write_short(npc.cy);
    packet.write_byte(if npc.f != 1 { 1 } else { 0 });
    packet.write_short(npc.fh);
    packet.write_short(npc.rx0);
    packet.write_short(npc.rx1);
    packet.write_byte(1);
    proof {
        assert(final(packet)@ =~= old(packet)@ + npc_bytes(*npc));
    }
}

/// Packet that shows an NPC
pub fn spawn_npc(npc: &crate::nx_map::Life) -> (packet: Packet)
    ensures
        packet.use_encryption,
        packet@ == le_i16(0x101) + npc_bytes(*npc),
{
    let mut packet = Packet::new(0x101);
    write_npc(&mut packet, npc);
    packet
}

/// Packet that hands control of an NPC to the client
pub fn spawn_npc_request_controller(npc: &crate::nx_map::Life) -> (packet: Packet)
    ensures
        packet.use_encryption,
        packet@ == le_i16(0x103) + seq![1u8] + npc_bytes(*npc),
{
    let mut packet = Packet::new(0x103);
    packet.write_byte(1);
    write_npc(&mut packet, npc);
    proof {
        assert(packet@ =~= le_i16(0x103) + seq![1u8] + npc_bytes(*npc));
    }
    packet
}

/// Packet that shows a portal of a map
pub fn spawn_portal(map_id: i32, portal: &crate::nx_map::Portal) -> (packet: Packet)
    ensures
        packet.use_encryption,
        packet@ == le_i16(0x43) + le_i32(map_id) + le_i32(portal.target_map_id) + le_i16(
            portal.x as i16,
        ) + le_i16(portal.y as i16),
{
    let mut packet = Packet::new(0x43);
    packet.write_int(map_id);
    packet.write_int(portal.target_map_id);
    packet.write_short(portal.x as i16);
    packet.write_short(portal.y as i16);
    proof {
        assert(packet@ =~= le_i16(0x43) + le_i32(map_id) + le_i32(portal.target_map_id) + le_i16(
            portal.x as i16,
        ) + le_i16(portal.y as i16));
    }
    packet
}

// ---------------------------------------------------------------------------
// Quest answers
// ---------------------------------------------------------------------------

/// Packet that updates a quest's status to started (and, for an info update,
/// leaves the status out).
pub fn update_quest(quest_id: i16, info_update: bool) -> (packet: Packet)
    ensures
        packet.use_encryption,
        packet@ == le_i16(0x27) + seq![1u8] + le_i16(quest_id) + (if info_update {
            Seq::<u8>::empty()
        } else {
            seq![1u8]
        }) + le_i16(0) + Seq::new(5, |i: int| 0u8),
{
    let mut packet = Packet::new(0x27);
    packet.write_byte(1);
    packet.write_short(quest_id);
    if !info_update {
        packet.write_byte(1);
    }
    proof {
        reveal_strlit("");
    }
    packet.write_string("");  // no progress text
    packet.write_bytes(&[0u8, 0, 0, 0, 0]);
    proof {
        assert(packet@ =~= le_i16(0x27) + seq![1u8] + le_i16(quest_id) + (if info_update {
            Seq::<u8>::empty()
        } else {
            seq![1u8]
        }) + le_i16(0) + Seq::new(5, |i: int| 0u8));
    }
    packet
}

/// Packet that tells the client which NPC a quest's info is about
pub fn update_quest_info(quest_id: i16, npc_id: i32) -> (packet: Packet)
    ensures
        packet.use_encryption,
        packet@ == le_i16(0xD3) + seq![8u8] + le_i16(quest_id) + le_i32(npc_id) + le_i32(0),
{
    let mut packet = Packet::new(0xD3);
    packet.write_byte(8);
    packet.write_short(quest_id);
    packet.write_int(npc_id);
    packet.write_int(0);
    proof {
        assert(packet@ =~= le_i16(0xD3) + seq![8u8] + le_i16(quest_id) + le_i32(npc_id) + le_i32(0));
    }
    packet
}

/// The quest-completed packet: the quest and when it was completed, on the
/// client's clock.
pub open spec fn complete_quest_bytes(quest_id: i16, time: i64) -> Seq<u8> {
    le_i16(0x27) + seq![1u8] + le_i16(quest_id) + seq![2u8] + le_i64(time)
}

/// Packet that marks a quest completed at `time` (on the client's clock).
pub fn complete_quest_at(quest_id: i16, time: i64) -> (packet: Packet)
    ensures
        packet.use_encryption,
        packet@ == complete_quest_bytes(quest_id, time),
{
    let mut packet = Packet::new(0x27);
    packet.write_byte(1);
    packet.write_short(quest_id);
    packet.write_byte(2);
    packet.write_long(time);
    proof {
        assert(packet@ =~= complete_quest_bytes(quest_id, time));
    }
    packet
}

/// The quest-completed packet for the given time and offset, where the
/// client's clock can be computed in 64 bits.
pub open spec fn complete_quest_of(quest_id: i16, millis: i64, offset: i32) -> Option<Seq<u8>> {
    match client_time_of(millis, offset) {
        Some(time) => Some(complete_quest_bytes(quest_id, time)),
        None => None,
    }
}

/// Packet that marks a quest completed now: what `complete_quest_of` gives for
/// the machine's current time and time-zone offset (`None` where the client's
/// clock does not fit in 64 bits).
pub fn complete_quest(quest_id: i16) -> (packet: Option<Packet>)
    ensures
        packet matches Some(p) ==> p.use_encryption,
        exists|millis: i64, offset: i32|
            -86400 < offset < 86400 && match #[trigger] complete_quest_of(quest_id, millis, offset) {
                Some(bytes) => packet matches Some(p) && p@ == bytes,
                None => packet is None,
            },
{
    let t = client_time_now();
    let ghost (millis, offset) = choose|millis: i64, offset: i32|
        -86400 < offset < 86400 && t == #[trigger] client_time_of(millis, offset);
    match t {
        Some(time) => {
            let packet = complete_quest_at(quest_id, time);
            proof {
                assert(complete_quest_of(quest_id, millis, offset) == Some(packet@));
            }
            Some(packet)
        },
        None => {
            proof {
                assert(complete_quest_of(quest_id, millis, offset) is None);
            }
            None
        },
    }
}

/// Packet that marks a quest forfeited (not started)
pub fn forfeit_quest(quest_id: i16) -> (packet: Packet)
    ensures
        packet.use_encryption,
        packet@ == le_i16(0x27) + seq![1u8] + le_i16(quest_id) + seq![0u8],
{
    let mut packet = Packet::new(0x27);
    packet.write_byte(1);
    packet.write_short(quest_id);
    packet.write_byte(0);
    proof {
        assert(packet@ =~= le_i16(0x27) + seq![1u8] + le_i16(quest_id) + seq![0u8]);
    }
    packet
}

/// A quest request of the client.
#[derive(PartialEq, Eq, Structural, Clone, Copy, Debug)]
pub enum QuestRequest {
    RestoreLostItem,
    Start { npc_id: i32 },
    Complete { npc_id: i32, selection: Option<i16> },
    Forfeit,
    ScriptedStart,
    ScriptedComplete,
    /// An action the server does not know.
    Invalid { action: u8 },
}

/// The quest request a quest-action packet carries (after its op code): the
/// action, the quest id, then for a start the NPC, for a completion the NPC and,
/// when two more bytes follow, the reward selection. `None` when the packet
/// ends early.
pub open spec fn quest_request_of(s: Seq<u8>) -> Option<(i16, QuestRequest)> {
    if s.len() < 3 {
        None
    } else {
        let action = s[0];
        let quest_id = i16_of_le(s.skip(1));
        let rest = s.skip(3);
        if action == 1 {
            if rest.len() < 4 {
                None
            } else {
                Some((quest_id, QuestRequest::Start { npc_id: i32_of_le(rest) }))
            }
        } else if action == 2 {
            if rest.len() < 4 {
                None
            } else {
                let selection = if rest.len() >= 6 {
                    Some(i16_of_le(rest.skip(4)))
                } else {
                    None
                };
                Some((quest_id, QuestRequest::Complete { npc_id: i32_of_le(rest), selection }))
            }
        } else if action == 0 {
            Some((quest_id, QuestRequest::RestoreLostItem))
        } else if action == 3 {
            Some((quest_id, QuestRequest::Forfeit))
        } else if action == 4 {
            Some((quest_id, QuestRequest::ScriptedStart))
        } else if action == 5 {
            Some((quest_id, QuestRequest::ScriptedComplete))
        } else {
            Some((quest_id, QuestRequest::Invalid { action }))
        }
    }
}

/// Reads the quest request of a quest-action packet (after its op code).
pub fn read_quest_request(packet: &mut Packet) -> (request: Option<(i16, QuestRequest)>)
    ensures
        final(packet).use_encryption == old(packet).use_encryption,
        request == quest_request_of(old(packet)@),
{
    let ghost s = packet@;
    if packet.remaining() < 3 {
        return None;
    }
    let action = packet.read_byte();
    let quest_id = packet.read_short();
    proof {
        assert(s.skip(1).skip(2) =~= s.skip(3));
    }
    if action == 1 {
        if packet.remaining() < 4 {
            return None;
        }
        let npc_id = packet.read_int();
        Some((quest_id, QuestRequest::Start { npc_id }))
    } else if action == 2 {
        if packet.remaining() < 4 {
            return None;
        }
        let npc_id = packet.read_int();
        let mut selection: Option<i16> = None;
        if packet.remaining() >= 2 {
            selection = Some(packet.read_short());
        }
        proof {
            assert(s.skip(3).skip(4) =~= s.skip(7));
        }
        Some((quest_id, QuestRequest::Complete { npc_id, selection }))
    } else if action == 0 {
        Some((quest_id, QuestRequest::RestoreLostItem))
    } else if action == 3 {
        Some((quest_id, QuestRequest::Forfeit))
    } else if action == 4 {
        Some((quest_id, QuestRequest::ScriptedStart))
    } else if action == 5 {
        Some((quest_id, QuestRequest::ScriptedComplete))
    } else {
        Some((quest_id, QuestRequest::Invalid { action }))
    }
}

/// What the server does about a quest request.
#[derive(PartialEq, Eq, Structural, Clone, Copy, Debug)]
pub enum QuestOutcome {
    /// Nothing to send.
    Nothing,
    /// The quest started: the client gets the quest update.
    Started,
    /// The quest is complete: the map sees the completion effect, the client
    /// sees it too and gets the completion.
    Completed,
    /// The quest is forfeited: the client gets the forfeit.
    Forfeited,
}

/// What the server does about a quest request, given the quest's data.
pub open spec fn spec_quest_outcome(request: QuestRequest, quest: crate::quest::Quest) -> QuestOutcome {
    match request {
        QuestRequest::Start { npc_id } => if crate::quest::all_requirements_met(
            quest.start_requirements@,
            npc_id,
        ) {
            QuestOutcome::Started
        } else {
            QuestOutcome::Nothing
        },
        QuestRequest::Complete { npc_id, selection } => if crate::quest::all_requirements_met(
            quest.complete_requirements@,
            npc_id,
        ) {
            QuestOutcome::Completed
        } else {
            QuestOutcome::Nothing
        },
        QuestRequest::Forfeit => QuestOutcome::Forfeited,
        _ => QuestOutcome::Nothing,
    }
}

/// Decides what a quest request leads to for the character.
pub fn quest_outcome(
    request: QuestRequest,
    quest: &crate::quest::Quest,
    character: &Character,
) -> (outcome: QuestOutcome)
    ensures
        outcome == spec_quest_outcome(request, *quest),
{
    match request {
        QuestRequest::Start { npc_id } => {
            if quest.start(character, npc_id) {
                QuestOutcome::Started
            } else {
                QuestOutcome::Nothing
            }
        },
        QuestRequest::Complete { npc_id, selection } => {
            if quest.complete(character, npc_id, selection) {
                QuestOutcome::Completed
            } else {
                QuestOutcome::Nothing
            }
        },
        QuestRequest::Forfeit => QuestOutcome::Forfeited,
        _ => QuestOutcome::Nothing,
    }
}

// ---------------------------------------------------------------------------
// Movement
// ---------------------------------------------------------------------------

/// The number of bytes a movement command takes, its command byte included.
pub open spec fn command_len(c: u8) -> int {
    if c == 0 || c == 5 || c == 17 {
        14
    } else if is_relative_move(c) {
        8
    } else if is_teleport_move(c) {
        10
    } else if c == 14 {
        10
    } else if c == 10 {
        2
    } else if c == 15 {
        16
    } else if c == 21 {
        4
    } else {
        1
    }
}

/// Relative movement: the server only cares about the stance.
pub open spec fn is_relative_move(c: u8) -> bool {
    c == 1 || c == 2 || c == 6 || c == 12 || c == 13 || c == 16 || c == 18 || c == 19 || c == 20
        || c == 22
}

/// Teleport movement: the server only cares about the stance.
pub open spec fn is_teleport_move(c: u8) -> bool {
    c == 3 || c == 4 || c == 7 || c == 8 || c == 9 || c == 11
}

/// Where a character ends up and how it stands, as far as movement tells.
pub struct Movement {
    pub position: Option<(i32, i32)>,
    pub stance: Option<u8>,
}

/// The command at the front of `t`: the position it moves to (absolute moves
/// only), the stance it leaves, and its length. `None` when `t` ends early.
pub open spec fn command_of(t: Seq<u8>) -> Option<(Option<(i32, i32)>, Option<u8>, int)> {
    if t.len() < 1 || t.len() < command_len(t[0]) {
        None
    } else {
        let c = t[0];
        if c == 0 || c == 5 || c == 17 {
            Some(
                (
                    Some((i16_of_le(t.skip(1)) as i32, i16_of_le(t.skip(3)) as i32)),
                    Some(t[11]),
                    14,
                ),
            )
        } else if is_relative_move(c) {
            Some((None, Some(t[5]), 8))
        } else if is_teleport_move(c) {
            Some((None, Some(t[9]), 10))
        } else if c == 15 {
            Some((None, Some(t[13]), 16))
        } else {
            Some((None, None, command_len(c)))
        }
    }
}

/// The first `n` commands of `s`: the last position and stance they set, and
/// the bytes they take.
pub open spec fn commands_of(s: Seq<u8>, n: nat) -> Option<(Option<(i32, i32)>, Option<u8>, int)>
    decreases n,
{
    if n == 0 {
        Some((None, None, 0))
    } else {
        match commands_of(s, (n - 1) as nat) {
            None => None,
            Some((pos, stance, used)) => match command_of(s.skip(used)) {
                None => None,
                Some((p, st, k)) => Some(
                    (
                        if p is Some {
                            p
                        } else {
                            pos
                        },
                        if st is Some {
                            st
                        } else {
                            stance
                        },
                        used + k,
                    ),
                ),
            },
        }
    }
}

/// The movement a move-character packet (after its op code) carries: nine
/// bytes, the number of commands, then the commands. `None` when it ends
/// early.
pub open spec fn movement_of(s: Seq<u8>) -> Option<(Option<(i32, i32)>, Option<u8>)> {
    if s.len() < 10 {
        None
    } else {
        match commands_of(s.skip(10), s[9] as nat) {
            Some((pos, stance, _)) => Some((pos, stance)),
            None => None,
        }
    }
}

proof fn lemma_commands_used(s: Seq<u8>, n: nat)
    ensures
        commands_of(s, n) matches Some((_, _, used)) ==> 0 <= used <= s.len(),
    decreases n,
{
    if n > 0 {
        lemma_commands_used(s, (n - 1) as nat);
    }
}

proof fn lemma_commands_none(s: Seq<u8>, n: nat, m: nat)
    requires
        n <= m,
        commands_of(s, n) is None,
    ensures
        commands_of(s, m) is None,
    decreases m - n,
{
    if n < m {
        lemma_commands_none(s, n + 1, m);
    }
}

proof fn lemma_command_prefix(u: Seq<u8>, t: Seq<u8>)
    requires
        command_of(u) is Some,
    ensures
        command_of(u + t) == command_of(u),
{
    let v = u + t;
    assert(v[0] == u[0]);
    let c = u[0];
    if c == 0 || c == 5 || c == 17 {
        assert(v[1] == u[1] && v[2] == u[2] && v[3] == u[3] && v[4] == u[4] && v[11] == u[11]);
        assert(v.skip(1)[0] == u.skip(1)[0] && v.skip(1)[1] == u.skip(1)[1]);
        assert(v.skip(3)[0] == u.skip(3)[0] && v.skip(3)[1] == u.skip(3)[1]);
    } else if is_relative_move(c) {
        assert(v[5] == u[5]);
    } else if is_teleport_move(c) {
        assert(v[9] == u[9]);
    } else if c == 15 {
        assert(v[13] == u[13]);
    }
}

proof fn lemma_commands_prefix(s: Seq<u8>, t: Seq<u8>, n: nat)
    requires
        commands_of(s, n) is Some,
    ensures
        commands_of(s + t, n) == commands_of(s, n),
    decreases n,
{
    if n > 0 {
        let m = (n - 1) as nat;
        assert(commands_of(s, m) is Some);
        lemma_commands_prefix(s, t, m);
        lemma_commands_used(s, m);
        let used = commands_of(s, m).unwrap().2;
        assert((s + t).skip(used) =~= s.skip(used) + t);
        lemma_command_prefix(s.skip(used), t);
    }
}

/// The bytes of an absolute move (command 0, 5 or 17) to `(x, y)` that
/// leaves the character in `stance` (`mid`: the six bytes of velocity and
/// foothold, `tail`: the two bytes of duration).
pub open spec fn absolute_move_bytes(
    c: u8,
    x: i16,
    y: i16,
    mid: Seq<u8>,
    stance: u8,
    tail: Seq<u8>,
) -> Seq<u8> {
    seq![c] + le_i16(x) + le_i16(y) + mid + seq![stance] + tail
}

/// The last absolute move wins: whatever commands a move-character packet
/// already carries (read in full), adding an absolute move at its end (and
/// counting it) puts the character at that move's target, in that move's
/// stance, whatever earlier commands said.
pub proof fn lemma_last_absolute_move_wins(
    header: Seq<u8>,
    n: u8,
    cmds: Seq<u8>,
    c: u8,
    x: i16,
    y: i16,
    mid: Seq<u8>,
    stance: u8,
    tail: Seq<u8>,
)
    requires
        header.len() == 9,
        n < 255,
        c == 0 || c == 5 || c == 17,
        mid.len() == 6,
        tail.len() == 2,
        commands_of(cmds, n as nat) matches Some((_, _, used)) && used == cmds.len(),
    ensures
        movement_of(
            header + seq![(n + 1) as u8] + cmds + absolute_move_bytes(c, x, y, mid, stance, tail),
        ) == Some((Some((x as i32, y as i32)), Some(stance))),
{
    let cmd = absolute_move_bytes(c, x, y, mid, stance, tail);
    let rest_x = le_i16(y) + mid + seq![stance] + tail;
    let rest_y = mid + seq![stance] + tail;
    assert(cmd.skip(1) =~= le_i16(x) + rest_x);
    assert(cmd.skip(3) =~= le_i16(y) + rest_y);
    crate::codec::lemma_i16_round_trip(x, rest_x);
    crate::codec::lemma_i16_round_trip(y, rest_y);
    assert(cmd.len() == 14);
    assert(cmd[0] == c);
    assert(cmd[11] == stance);
    assert(command_of(cmd) == Some((Some((x as i32, y as i32)), Some(stance), 14 as int)));
    let body = cmds + cmd;
    lemma_commands_prefix(cmds, cmd, n as nat);
    assert(body.skip(cmds.len() as int) =~= cmd);
    assert(commands_of(body, (n + 1) as nat) == Some(
        (Some((x as i32, y as i32)), Some(stance), (cmds.len() + 14) as int),
    ));
    let p = header + seq![(n + 1) as u8] + cmds + cmd;
    assert(p.len() >= 10);
    assert(p[9] == (n + 1) as u8);
    assert(p.skip(10) =~= body);
}

/// Reads one movement command from the front of the packet.
fn read_command(packet: &mut Packet) -> (command: Option<(Option<(i32, i32)>, Option<u8>)>)
    ensures
        final(packet).use_encryption == old(packet).use_encryption,
        command_of(old(packet)@) matches Some((p, st, k)) ==> (command == Some((p, st))
            && final(packet)@ == old(packet)@.skip(k)),
        command_of(old(packet)@) is None ==> command is None,
{
    let ghost t = packet@;
    if packet.remaining() < 1 {
        return None;
    }
    let command = packet.read_byte();
    if command == 0 || command == 5 || command == 17 {
        // Absolute movement -- only important for the server
        if packet.remaining() < 13 {
            return None;
        }
        let x = packet.read_short();
        let y = packet.read_short();
        packet.skip(6);
        let stance = packet.read_byte();
        packet.skip(2);
        proof {
            assert(t.skip(1).skip(2) =~= t.skip(3));
            assert(t.skip(1).skip(2).skip(2).skip(6) =~= t.skip(11));
            assert(t.skip(11).skip(1).skip(2) =~= t.skip(14));
        }
        Some((Some((x as i32, y as i32)), Some(stance)))
    } else if command == 1 || command == 2 || command == 6 || command == 12 || command == 13
        || command == 16 || command == 18 || command == 19 || command == 20 || command == 22 {
        // Relative movement -- the server only cares about the stance
        if packet.remaining() < 7 {
            return None;
        }
        packet.skip(4);
        let stance = packet.read_byte();
        packet.skip(2);
        proof {
            assert(t.skip(1).skip(4) =~= t.skip(5));
            assert(t.skip(5).skip(1).skip(2) =~= t.skip(8));
        }
        Some((None, Some(stance)))
    } else if command == 3 || command == 4 || command == 7 || command == 8 || command == 9
        || command == 11 {
        // Teleport movement -- the server only cares about the stance
        if packet.remaining() < 9 {
            return None;
        }
        packet.skip(8);
        let stance = packet.read_byte();
        proof {
            assert(t.skip(1).skip(8) =~= t.skip(9));
            assert(t.skip(9).skip(1) =~= t.skip(10));
        }
        Some((None, Some(stance)))
    } else if command == 14 {
        if packet.remaining() < 9 {
            return None;
        }
        packet.skip(9);
        proof {
            assert(t.skip(1).skip(9) =~= t.skip(10));
        }
        Some((None, None))
    } else if command == 10 {
        if packet.remaining() < 1 {
            return None;
        }
        packet.skip(1);
        proof {
            assert(t.skip(1).skip(1) =~= t.skip(2));
        }
        Some((None, None))
    } else if command == 15 {
        // Jump-down -- the server only cares about the stance
        if packet.remaining() < 15 {
            return None;
        }
        packet.skip(12);
        let stance = packet.read_byte();
        packet.skip(2);
        proof {
            assert(t.skip(1).skip(12) =~= t.skip(13));
            assert(t.skip(13).skip(1).skip(2) =~= t.skip(16));
        }
        Some((None, Some(stance)))
    } else if command == 21 {
        if packet.remaining() < 3 {
            return None;
        }
        packet.skip(3);
        proof {
            assert(t.skip(1).skip(3) =~= t.skip(4));
        }
        Some((None, None))
    } else {
        // A command the server does not handle
        Some((None, None))
    }
}

/// Reads the movement of a move-character packet (after its op code).
pub fn read_movement(packet: &mut Packet) -> (movement: Option<Movement>)
    ensures
        final(packet).use_encryption == old(packet).use_encryption,
        movement_of(old(packet)@) matches Some((pos, stance)) ==> movement matches Some(m) && m.position
            == pos && m.stance == stance,
        movement_of(old(packet)@) is None ==> movement is None,
{
    let ghost s = packet@;
    if packet.remaining() < 10 {
        return None;
    }
    packet.skip(9);
    let num_commands = packet.read_byte();
    let ghost cmds = s.skip(10);
    proof {
        assert(s.skip(9).skip(1) =~= cmds);
    }
    let mut new_pos: Option<(i32, i32)> = None;
    let mut new_stance: Option<u8> = None;
    let mut i: u8 = 0;
    while i < num_commands
        invariant
            packet.use_encryption == old(packet).use_encryption,
            i <= num_commands,
            s == old(packet)@,
            num_commands == s[9],
            cmds == s.skip(10),
            s.len() >= 10,
            commands_of(cmds, i as nat) matches Some((pos, stance, used)) && pos == new_pos && stance
                == new_stance && packet@ == cmds.skip(used),
        decreases num_commands - i,
    {
        let ghost used = commands_of(cmds, i as nat).unwrap().2;
        proof {
            lemma_commands_used(cmds, i as nat);
            assert(cmds.skip(used) == packet@);
        }
        match read_command(packet) {
            None => {
                proof {
                    assert(command_of(cmds.skip(used)) is None);
                    assert(commands_of(cmds, (i + 1) as nat) is None);
                    lemma_commands_none(cmds, (i + 1) as nat, s[9] as nat);
                    assert(movement_of(s) is None);
                }
                return None;
            },
            Some((p, st)) => {
                if p.is_some() {
                    new_pos = p;
                }
                if st.is_some() {
                    new_stance = st;
                }
                proof {
                    let k = command_of(cmds.skip(used)).unwrap().2;
                    assert(cmds.skip(used).skip(k) =~= cmds.skip(used + k));
                }
            },
        }
        i += 1;
    }
    Some(Movement { position: new_pos, stance: new_stance })
}

/// The move-player packet: the character and the movement as the client sent it.
pub open spec fn move_player_bytes(character_id: i32, movement: Seq<u8>) -> Seq<u8> {
    le_i16(0xB9) + le_i32(character_id) + le_i32(0) + movement
}

/// Packet that shows a character's movement to the others on its map
pub fn move_player(character_id: i32, movement_data: &Packet) -> (packet: Packet)
    requires
        buffer_fits(movement_data@.len() + 10),
    ensures
        packet.use_encryption,
        packet@ == move_player_bytes(character_id, movement_data@),
{
    let mut packet = Packet::new(0xB9);
    packet.write_int(character_id);
    packet.write_int(0);
    packet.write_bytes(crate::packet::packet_bytes(movement_data));
    proof {
        assert(packet@ =~= move_player_bytes(character_id, movement_data@));
    }
    packet
}

/// The character after a movement: at the position and with the stance the
/// movement sets (where it sets one), all else as before.
pub open spec fn moved_character(
    before: Character,
    after: Character,
    pos: Option<(i32, i32)>,
    stance: Option<u8>,
) -> bool {
    &&& after.pos == (match pos {
        Some(p) => p,
        None => before.pos,
    })
    &&& after.stance == (match stance {
        Some(s) => s,
        None => before.stance,
    })
    &&& after.data == before.data
    &&& after.equipment == before.equipment
    &&& after.items == before.items
    &&& after.keymaps == before.keymaps
    &&& after.skills == before.skills
    &&& after.cooldowns == before.cooldowns
    &&& after.quests == before.quests
    &&& after.blocked_portals == before.blocked_portals
}

/// What a move-character packet leads to.
pub enum MoveOutcome {
    /// The packet ends early.
    Malformed,
    /// The character has not moved: nothing to do.
    Still,
    /// The character moved: the others on the map (not the mover) are shown
    /// this broadcast.
    Moved(PacketBroadcast),
}

/// Handles a move-character packet (after its op code): the character takes
/// the last position and stance the movement sets, and the others on the map
/// are shown the movement.
pub fn move_character(character: &mut Character, packet: Packet) -> (outcome: MoveOutcome)
    requires
        buffer_fits(packet@.len() + 10),
    ensures
        movement_of(packet@) is None ==> outcome is Malformed && *final(character) == *old(character),
        movement_of(packet@) matches Some((None, None)) ==> outcome is Still && *final(character)
            == *old(character),
        movement_of(packet@) matches Some((pos, stance)) ==> ((pos is Some || stance is Some) ==> (
        outcome matches MoveOutcome::Moved(b) && b.packet@ == move_player_bytes(
            old(character).data.id,
            packet@.skip(9),
        ) && b.packet.use_encryption && b.sender_id == old(character).data.id && !b.send_to_sender
            && moved_character(
            *old(character),
            *final(character),
            pos,
            stance,
        ))),
{
    let mut packet = packet;
    if packet.remaining() < 9 {
        return MoveOutcome::Malformed;
    }
    let mut reader = Packet::wrap(packet.bytes.clone());
    packet.skip(9);
    let movement_data = packet;
    let movement = match read_movement(&mut reader) {
        Some(m) => m,
        None => {
            return MoveOutcome::Malformed;
        },
    };
    // Character hasn't moved -- do nothing
    if movement.position.is_none() && movement.stance.is_none() {
        return MoveOutcome::Still;
    }
    let broadcast = PacketBroadcast {
        packet: move_player(character.data.id, &movement_data),
        sender_id: character.data.id,
        send_to_sender: false,
    };
    if let Some(pos) = movement.position {
        character.pos = pos;
    }
    if let Some(stance) = movement.stance {
        character.stance = stance;
    }
    MoveOutcome::Moved(broadcast)
}

// ---------------------------------------------------------------------------
// Portals entered by the client
// ---------------------------------------------------------------------------

/// The portal a change-map-special packet (after its op code) names: one byte,
/// the portal's name, two bytes. `None` when the packet ends early or the name
/// is not readable.
pub open spec fn portal_request_of(s: Seq<u8>) -> Option<Seq<char>> {
    if s.len() >= 1 && string_field_readable(s.skip(1)) && string_field_len(s.skip(1)) + 2 <= s.len()
        - 1 {
        Some(string_field_text(s.skip(1)))
    } else {
        None
    }
}

/// Reads the name of the portal a change-map-special packet asks for.
pub fn read_portal_request(packet: &mut Packet) -> (name: Option<String>)
    ensures
        final(packet).use_encryption == old(packet).use_encryption,
        name matches Some(n) ==> portal_request_of(old(packet)@) == Some(n@),
        name is None ==> portal_request_of(old(packet)@) is None,
{
    let ghost s = packet@;
    if packet.remaining() < 1 {
        return None;
    }
    packet.skip(1);
    if !crate::packet::has_string_field(packet) {
        return None;
    }
    let ghost t = packet@;
    let start_wp = packet.read_string();
    if packet.remaining() < 2 {
        return None;
    }
    packet.skip(2);
    Some(start_wp)
}

/// The portal with this script is blocked for the character.
pub open spec fn portal_blocked(c: Character, script: Seq<char>) -> bool {
    exists|i: int| 0 <= i < c.blocked_portals@.len() && #[trigger] c.blocked_portals@[i]@ == script
}

/// What entering a portal leads to.
pub enum PortalEntry {
    /// Nothing happens; the client is let go on.
    EnableActions,
    /// The portal's script runs.
    RunScript(String),
    /// Nothing to do.
    Stay,
}

/// Decides what happens when the character enters the portal of the map with
/// the given name: no such portal, or a portal blocked for the character, lets
/// the client go on; else the portal's script runs, if it has one. (Of several
/// portals with the name, which one is entered is not fixed.)
pub fn enter_portal(map: &crate::maple::ActiveMap, character: &Character, start_wp: &str) -> (entry:
    PortalEntry)
    ensures
        !(exists|k: i32|
            map.data.portals@.contains_key(k) && #[trigger] map.data.portals@[k].name@
                == start_wp@) ==> entry is EnableActions,
        entry is EnableActions ==> !(exists|k: i32|
            map.data.portals@.contains_key(k) && #[trigger] map.data.portals@[k].name@
                == start_wp@) || exists|k: i32|
            map.data.portals@.contains_key(k) && #[trigger] map.data.portals@[k].name@ == start_wp@
                && portal_blocked(*character, map.data.portals@[k].script@),
        entry matches PortalEntry::RunScript(script) ==> exists|k: i32|
            map.data.portals@.contains_key(k) && #[trigger] map.data.portals@[k].name@ == start_wp@
                && map.data.portals@[k].script@ == script@ && script@.len() > 0 && !portal_blocked(
                *character,
                script@,
            ),
        entry is Stay ==> exists|k: i32|
            map.data.portals@.contains_key(k) && #[trigger] map.data.portals@[k].name@ == start_wp@
                && map.data.portals@[k].script@.len() == 0 && !portal_blocked(
                *character,
                map.data.portals@[k].script@,
            ),
{
    let portal = match map.get_portal_by_name(start_wp) {
        Some(p) => p,
        None => {
            return PortalEntry::EnableActions;
        },
    };
    proof {
        let k = choose|k: i32| map.data.portals@.contains_key(k) && map.data.portals@[k] == *portal;
        assert(map.data.portals@[k].name@ == start_wp@);
    }
    if character.is_portal_blocked(portal.script.as_str()) {
        return PortalEntry::EnableActions;
    }
    if portal.script.as_str().unicode_len() != 0 {
        return PortalEntry::RunScript(portal.script.clone());
    }
    PortalEntry::Stay
}

// ---------------------------------------------------------------------------
// Packet routing and delivery
// ---------------------------------------------------------------------------

/// The handler of a channel packet.
#[derive(PartialEq, Eq, Structural, Clone, Copy, Debug)]
pub enum ChannelHandler {
    Connect,
    MoveCharacter,
    QuestAction,
    Unhandled { op_code: i16 },
}

/// The handler for an op code of the channel server: connect (0x14), move
/// character (0x29), quest action (0x6B).
pub open spec fn spec_channel_handler(op_code: i16) -> ChannelHandler {
    if op_code == 0x14 {
        ChannelHandler::Connect
    } else if op_code == 0x29 {
        ChannelHandler::MoveCharacter
    } else if op_code == 0x6B {
        ChannelHandler::QuestAction
    } else {
        ChannelHandler::Unhandled { op_code }
    }
}

/// Reads the op code of a channel packet and picks its handler; `None` when
/// the packet has no op code.
pub fn handle_packet(packet: &mut Packet) -> (handler: Option<ChannelHandler>)
    ensures
        final(packet).use_encryption == old(packet).use_encryption,
        old(packet)@.len() < 2 ==> handler is None,
        old(packet)@.len() >= 2 ==> handler == Some(spec_channel_handler(i16_of_le(old(packet)@)))
            && final(packet)@ == old(packet)@.skip(2),
{
    if packet.remaining() < 2 {
        return None;
    }
    let op_code = packet.read_short();
    let handler = match op_code {
        0x14 => ChannelHandler::Connect,
        0x29 => ChannelHandler::MoveCharacter,
        0x6B => ChannelHandler::QuestAction,
        _ => ChannelHandler::Unhandled { op_code },
    };
    Some(handler)
}

/// A session gets a map broadcast unless it sent it itself and the sender is
/// not to get it.
pub fn delivers_to(broadcast: &crate::maple::PacketBroadcast, character_id: i32) -> (deliver: bool)
    ensures
        deliver == (broadcast.send_to_sender || broadcast.sender_id != character_id),
{
    !(!broadcast.send_to_sender && broadcast.sender_id == character_id)
}

/// A client may enter the channel when its login session led to an account
/// that is moving from the login server (`Transitioning`); else it is told
/// the connection failed.
pub fn admit_connect(account: Option<&crate::login::Account>) -> (admitted: Result<(), ConnectError>)
    ensures
        admitted is Ok <==> (account matches Some(a) && a.state == crate::login::LoginState::Transitioning),
        admitted is Err ==> admitted == Err::<(), ConnectError>(ConnectError::Unknown),
{
    match account {
        Some(a) => match a.state {
            crate::login::LoginState::Transitioning => Ok(()),
            _ => Err(ConnectError::Unknown),
        },
        None => Err(ConnectError::Unknown),
    }
}

// ---------------------------------------------------------------------------
// Channel servers
// ---------------------------------------------------------------------------

/// The port of a channel: the base port, a thousand more per world after the
/// first, one more per channel after the first.
pub open spec fn spec_channel_port(base_port: i32, world_id: i32, channel_id: i32) -> int {
    base_port + (world_id - 1) * 1000 + (channel_id - 1)
}

/// The port of a channel can be computed in 32 bits.
pub open spec fn channel_port_fits(base_port: i32, world_id: i32, channel_id: i32) -> bool {
    &&& i32::MIN <= world_id - 1
    &&& i32::MIN <= (world_id - 1) * 1000 <= i32::MAX
    &&& i32::MIN <= base_port + (world_id - 1) * 1000 <= i32::MAX
    &&& i32::MIN <= channel_id - 1
    &&& i32::MIN <= spec_channel_port(base_port, world_id, channel_id) <= i32::MAX
}

/// The port a channel listens on (e.g. 10000 for world 1 channel 1, 11001 for
/// world 2 channel 2, from base port 10000).
pub fn channel_port(base_port: i32, world_id: i32, channel_id: i32) -> (port: i32)
    requires
        channel_port_fits(base_port, world_id, channel_id),
    ensures
        port == spec_channel_port(base_port, world_id, channel_id),
{
    base_port + ((world_id - 1) * 1000) + (channel_id - 1)
}

/// Channel ports are laid out per world: the first channel of the first
/// world listens on the base port, each next channel of a world one port
/// higher, and each next world a thousand ports higher.
pub proof fn lemma_channel_port_layout(base_port: i32, world_id: i32, channel_id: i32)
    ensures
        spec_channel_port(base_port, 1, 1) == base_port,
        channel_id < i32::MAX ==> spec_channel_port(base_port, world_id, (channel_id + 1) as i32)
            == spec_channel_port(base_port, world_id, channel_id) + 1,
        world_id < i32::MAX ==> spec_channel_port(base_port, (world_id + 1) as i32, channel_id)
            == spec_channel_port(base_port, world_id, channel_id) + 1000,
{
}

/// The address a channel listens on: `ip:port`.
pub fn channel_address(ip: &str, port: i32) -> (addr: String)
    ensures
        addr@ == ip@ + seq![':'] + crate::text::decimal(port as int),
{
    let mut addr = ip.to_owned();
    crate::text::push_char(&mut addr, ':');
    crate::text::push_decimal(&mut addr, port as i64);
    proof {
        assert(addr@ =~= ip@ + seq![':'] + crate::text::decimal(port as int));
    }
    addr
}

// ---------------------------------------------------------------------------
// Portal scripts
// ---------------------------------------------------------------------------

/// Runs the scripts of portals.
pub struct PortalScriptEngine {}

impl PortalScriptEngine {
    /// The file of a portal's script: `slate-channel/scripts/portal/<name>.js`.
    pub fn script_path(name: &str) -> (path: String)
        ensures
            path@ == "slate-channel/scripts/portal/"@ + name@ + ".js"@,
    {
        let mut path = "slate-channel/scripts/portal/".to_owned();
        path.append(name);
        path.append(".js");
        proof {
            assert(path@ =~= "slate-channel/scripts/portal/"@ + name@ + ".js"@);
        }
        path
    }

    /// The script's `hasLevel30Character()`: whether one of the account's
    /// characters (given by their levels) is at least level 30.
    pub fn has_level_30_character(levels: &Vec<i32>) -> (found: bool)
        ensures
            found == exists|i: int| 0 <= i < levels@.len() && #[trigger] levels@[i] >= 30,
    {
        let n = levels.len();
        let mut i: usize = 0;
        while i < n
            invariant
                n == levels@.len(),
                i <= n,
                forall|k: int| 0 <= k < i ==> #[trigger] levels@[k] < 30,
            decreases n - i,
        {
            if levels[i] >= 30 {
                return true;
            }
            i += 1;
        }
        false
    }
}

// ---------------------------------------------------------------------------
// World server: general chat and routing
// ---------------------------------------------------------------------------

/// The handler of a world-server packet.
#[derive(PartialEq, Eq, Structural, Clone, Copy, Debug)]
pub enum WorldHandler {
    Connect,
    MoveCharacter,
    GeneralChat,
    QuestAction,
    Unhandled { op_code: i16 },
}

/// The handler for an op code of the world server: connect (0x14), move
/// character (0x29), general chat (0x31), quest action (0x6B).
pub open spec fn spec_world_handler(op_code: i16) -> WorldHandler {
    if op_code == 0x14 {
        WorldHandler::Connect
    } else if op_code == 0x29 {
        WorldHandler::MoveCharacter
    } else if op_code == 0x31 {
        WorldHandler::GeneralChat
    } else if op_code == 0x6B {
        WorldHandler::QuestAction
    } else {
        WorldHandler::Unhandled { op_code }
    }
}

/// Reads the op code of a world-server packet and picks its handler; `None`
/// when the packet has no op code.
pub fn handle_world_packet(packet: &mut Packet) -> (handler: Option<WorldHandler>)
    ensures
        final(packet).use_encryption == old(packet).use_encryption,
        old(packet)@.len() < 2 ==> handler is None,
        old(packet)@.len() >= 2 ==> handler == Some(spec_world_handler(i16_of_le(old(packet)@)))
            && final(packet)@ == old(packet)@.skip(2),
{
    if packet.remaining() < 2 {
        return None;
    }
    let op = packet.read_short();
    let handler = match op {
        0x14 => WorldHandler::Connect,
        0x29 => WorldHandler::MoveCharacter,
        0x31 => WorldHandler::GeneralChat,
        0x6B => WorldHandler::QuestAction,
        _ => WorldHandler::Unhandled { op_code: op },
    };
    Some(handler)
}

/// The general-chat packet: who speaks, whether they are a GM, the message and
/// whether to show it in a balloon.
pub open spec fn general_chat_bytes(sender: Character, message: Seq<char>, show: u8) -> Seq<u8> {
    le_i16(0xA2) + le_i32(sender.data.id) + seq![sender.data.gm as u8] + string_field(message)
        + seq![show]
}

/// Packet that shows a chat message to the map
pub fn general_chat(sender: &Character, message: &str, show: u8) -> (packet: Packet)
    requires
        buffer_fits(crate::login::text_len(message@) + 12),
    ensures
        packet.use_encryption,
        packet@ == general_chat_bytes(*sender, message@, show),
{
    let mut packet = Packet::empty();
    packet.write_short(0xA2);
    packet.write_int(sender.data.id);
    packet.write_byte(sender.data.gm as u8);
    packet.write_string(message);
    packet.write_byte(show);
    proof {
        assert(packet@ =~= general_chat_bytes(*sender, message@, show));
    }
    packet
}

/// What a general-chat packet leads to.
pub enum ChatOutcome {
    /// The packet ends early or its message is not readable.
    Malformed,
    /// The message is longer than the client can send (more than 127 bytes):
    /// the client edited the packet and is disconnected.
    Disconnect,
    /// The map, the sender included, is shown this broadcast.
    Broadcast(PacketBroadcast),
}

/// Handles a general-chat packet (after its op code): the message, then
/// whether to show it in a balloon.
pub fn handle_general_chat(sender: &Character, packet: &mut Packet) -> (outcome: ChatOutcome)
    ensures
        final(packet).use_encryption == old(packet).use_encryption,
        !string_field_readable(old(packet)@) ==> outcome is Malformed,
        string_field_readable(old(packet)@) ==> ({
            let s = old(packet)@;
            let message = string_field_text(s);
            let rest = s.skip(string_field_len(s));
            if i16_of_le(s) > 127 {
                outcome is Disconnect
            } else if rest.len() < 1 {
                outcome is Malformed
            } else {
                outcome matches ChatOutcome::Broadcast(b) && b.packet@ == general_chat_bytes(
                    *sender,
                    message,
                    rest[0],
                ) && b.packet.use_encryption && b.sender_id == sender.data.id && b.send_to_sender
            }
        }),
{
    let ghost s = packet@;
    if !crate::packet::has_string_field(packet) {
        return ChatOutcome::Malformed;
    }
    let message = packet.read_string();
    proof {
        let bytes = s.subrange(2, string_field_len(s));
        vstd::utf8::decode_utf8_encode_utf8(bytes);
        assert(encode_utf8(message@) == bytes);
    }
    // The client never sends more than 127 bytes
    if message.as_str().len() > 127 {
        return ChatOutcome::Disconnect;
    }
    if packet.remaining() < 1 {
        return ChatOutcome::Malformed;
    }
    let show = packet.read_byte();
    ChatOutcome::Broadcast(
        PacketBroadcast {
            packet: general_chat(sender, message.as_str(), show),
            sender_id: sender.data.id,
            send_to_sender: true,
        },
    )
}

} // verus!
