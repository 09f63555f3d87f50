//! How a character looks to the client (its style and the equipment it
//! wears), and the character list of the login server.
use crate::codec::le_i32;
use crate::login::{spec_pic_flag, Config, Session};
use crate::packet::{buffer_fits, Packet};
use crate::sql::{Character, Equipment};
use vstd::prelude::*;

verus! {

// ---------------------------------------------------------------------------
// Style and worn equipment
// ---------------------------------------------------------------------------

/// A character's style: gender, skin, face, a 1 (normal, not a megaphone),
/// hair.
pub open spec fn style_bytes(c: Character) -> Seq<u8> {
    seq![c.gender as u8, c.skin_colour as u8] + le_i32(c.face) + seq![1u8] + le_i32(c.hair)
}

/// Writes a character's style to a packet
pub fn write_character_style(packet: &mut Packet, character: &Character)
    requires
        buffer_fits(old(packet)@.len() + 11),
    ensures
        final(packet)@ == old(packet)@ + style_bytes(*character),
        final(packet).use_encryption == old(packet).use_encryption,
{
    packet.write_byte(character.gender as u8);
    packet.write_byte(character.skin_colour as u8);
    packet.write_int(character.face);
    packet.write_byte(1);  // 0: megaphone, 1: normal
    packet.write_int(character.hair);
    proof {
        assert(final(packet)@ =~= old(packet)@ + style_bytes(*character));
    }
}

/// The worn equips: each one's slot and item id.
pub open spec fn worn_bytes(s: Seq<Equipment>) -> Seq<u8>
    decreases s.len(),
{
    if s.len() == 0 {
        Seq::empty()
    } else {
        worn_bytes(s.drop_last()) + seq![s.last().position as u8] + le_i32(s.last().item_id)
    }
}

/// What the client is told of the equipment a character wears: each equip,
/// the end markers of the worn and masked equips, no weapon sticker, no pets.
pub open spec fn equipment_look_bytes(s: Seq<Equipment>) -> Seq<u8> {
    worn_bytes(s) + seq![0xFFu8, 0xFFu8] + le_i32(0) + le_i32(0) + le_i32(0) + le_i32(0)
}

/// The worn equips take five bytes each.
pub proof fn lemma_worn_len(s: Seq<Equipment>)
    ensures
        worn_bytes(s).len() == 5 * s.len(),
    decreases s.len(),
{
    if s.len() > 0 {
        lemma_worn_len(s.drop_last());
    }
}

/// Writes the equipment a character wears to a packet
pub fn write_character_equipment(packet: &mut Packet, equipment: &Vec<Equipment>)
    requires
        buffer_fits(old(packet)@.len() + 5 * equipment@.len() + 18),
    ensures
        final(packet)@ == old(packet)@ + equipment_look_bytes(equipment@),
        final(packet).use_encryption == old(packet).use_encryption,
{
    let n = equipment.len();
    let mut i: usize = 0;
    proof {
        assert(equipment@.take(0) =~= Seq::<Equipment>::empty());
        assert(packet@ =~= old(packet)@ + worn_bytes(equipment@.take(0)));
    }
    while i < n
        invariant
            packet.use_encryption == old(packet).use_encryption,
            n == equipment@.len(),
            i <= n,
            buffer_fits((old(packet)@.len() + 5 * n + 18) as nat),
            packet@ == old(packet)@ + worn_bytes(equipment@.take(i as int)),
            packet.use_encryption == old(packet).use_encryption,
        decreases n - i,
    {
        let equip = &equipment[i];
        proof {
            assert(equipment@.take(i + 1).drop_last() =~= equipment@.take(i as int));
            assert(equipment@.take(i + 1).last() == *equip);
            lemma_worn_len(equipment@.take(i as int));
        }
        packet.write_byte(equip.position as u8);
        packet.write_int(equip.item_id);
        proof {
            assert(packet@ =~= old(packet)@ + worn_bytes(equipment@.take(i + 1)));
        }
        i += 1;
    }
    proof {
        assert(equipment@.take(n as int) =~= equipment@);
        lemma_worn_len(equipment@);
    }
    packet.write_byte(0xFF);
    // No masked equips
    packet.write_byte(0xFF);
    // No weapon sticker
    packet.write_int(0);
    // No pets
    let mut k: usize = 0;
    let ghost before_pets = packet@;
    while k < 3
        invariant
            packet.use_encryption == old(packet).use_encryption,
            k <= 3,
            buffer_fits(before_pets.len() + 12),
            packet@.len() == before_pets.len() + 4 * k,
            packet@ == before_pets + Seq::new((4 * k) as nat, |j: int| 0u8),
            packet.use_encryption == old(packet).use_encryption,
        decreases 3 - k,
    {
        packet.write_int(0);
        proof {
            assert(packet@ =~= before_pets + Seq::new((4 * (k + 1)) as nat, |j: int| 0u8));
        }
        k += 1;
    }
    proof {
        assert(final(packet)@ =~= old(packet)@ + equipment_look_bytes(equipment@));
    }
}

// ---------------------------------------------------------------------------
// Character list
// ---------------------------------------------------------------------------

/// Rust's `/`, which rounds toward zero (for `b > 0`).
pub open spec fn quotient(a: int, b: int) -> int {
    if a >= 0 {
        a / b
    } else {
        -((-a) / b)
    }
}

/// Rust's `%`, whose sign follows `a` (for `b > 0`).
pub open spec fn remainder(a: int, b: int) -> int {
    a - b * quotient(a, b)
}

/// The job's branch digit (the hundreds digit of the job id, negative for
/// negative ids).
pub open spec fn job_niche(job: i32) -> int {
    remainder(quotient(job as int, 100), 10)
}

/// The world-rank part of a listed character: GMs and jobs of branch 8 or 9
/// have none (a 0), others a 1 and their rank, rank move, job rank and job
/// rank move.
pub open spec fn rank_bytes(c: Character) -> Seq<u8> {
    if c.gm > 1 || job_niche(c.job) == 8 || job_niche(c.job) == 9 {
        seq![0u8]
    } else {
        seq![1u8] + le_i32(c.rank) + le_i32(c.rank_move) + le_i32(c.job_rank) + le_i32(
            c.job_rank_move,
        )
    }
}

/// A character as the character list shows it: `stats` is the character's
/// stat block as the stats encoder writes it.
pub open spec fn listed_character_bytes(
    c: Character,
    equipment: Seq<Equipment>,
    stats: Seq<u8>,
    view_all: bool,
) -> Seq<u8> {
    stats + style_bytes(c) + equipment_look_bytes(equipment) + (if view_all {
        Seq::empty()
    } else {
        seq![0u8]
    }) + rank_bytes(c)
}

/// The job's branch digit.
fn niche_of(job: i32) -> (niche: i64)
    ensures
        niche == job_niche(job),
{
    let j = job as i64;
    let q: i64 = if j >= 0 {
        j / 100
    } else {
        -((-j) / 100)
    };
    let r: i64 = if q >= 0 {
        q % 10
    } else {
        -((-q) % 10)
    };
    proof {
        assert(quotient(job as int, 100) == q);
        if q < 0 {
            assert((-q) % 10 == (-q) - 10 * ((-q) / 10));
        }
    }
    r
}

/// Writes a character's stat, style, and equipment data to a packet: `stats`
/// is the character's stat block as the stats encoder writes it.
pub fn write_character(
    packet: &mut Packet,
    character: &Character,
    equipment: &Vec<Equipment>,
    stats: &[u8],
    view_all: bool,
)
    requires
        buffer_fits(old(packet)@.len() + stats@.len() + 5 * equipment@.len() + 47),
    ensures
        final(packet)@ == old(packet)@ + listed_character_bytes(
            *character,
            equipment@,
            stats@,
            view_all,
        ),
        final(packet).use_encryption == old(packet).use_encryption,
{
    proof {
        lemma_worn_len(equipment@);
    }
    packet.write_bytes(stats);
    write_character_style(packet, character);
    write_character_equipment(packet, equipment);
    if !view_all {
        packet.write_byte(0);
    }
    let ghost before_rank = packet@;
    let job_niche = niche_of(character.job);
    if character.gm > 1 || job_niche == 8 || job_niche == 9 {
        packet.write_byte(0);
    } else {
        // World rank enabled, the following four ints aren't sent if disabled
        packet.write_byte(1);
        packet.write_int(character.rank);
        packet.write_int(character.rank_move);
        packet.write_int(character.job_rank);
        packet.write_int(character.job_rank_move);
    }
    proof {
        assert(packet@ =~= before_rank + rank_bytes(*character));
        assert(final(packet)@ =~= old(packet)@ + listed_character_bytes(
            *character,
            equipment@,
            stats@,
            view_all,
        ));
    }
}

/// A character of the list with its equipment and its stat block (as the stats
/// encoder writes it).
pub struct ListedCharacter {
    pub character: Character,
    pub equipment: Vec<Equipment>,
    pub stats: Vec<u8>,
}

/// The listed characters, one after the other.
pub open spec fn listed_characters_bytes(s: Seq<ListedCharacter>) -> Seq<u8>
    decreases s.len(),
{
    if s.len() == 0 {
        Seq::empty()
    } else {
        listed_characters_bytes(s.drop_last()) + listed_character_bytes(
            s.last().character,
            s.last().equipment@,
            s.last().stats@,
            false,
        )
    }
}

/// Room for the listed characters: each one's stats and equips and 47 bytes.
pub open spec fn listed_room(s: Seq<ListedCharacter>) -> int
    decreases s.len(),
{
    if s.len() == 0 {
        0
    } else {
        listed_room(s.drop_last()) + s.last().stats@.len() + 5 * s.last().equipment@.len() + 47
    }
}

proof fn lemma_listed_len(s: Seq<ListedCharacter>)
    ensures
        listed_characters_bytes(s).len() <= listed_room(s),
        0 <= listed_room(s),
    decreases s.len(),
{
    if s.len() > 0 {
        lemma_listed_len(s.drop_last());
        let c = s.last();
        lemma_worn_len(c.equipment@);
    }
}

proof fn lemma_listed_room_prefix(s: Seq<ListedCharacter>, i: int)
    requires
        0 <= i <= s.len(),
    ensures
        listed_room(s.take(i)) <= listed_room(s),
    decreases s.len() - i,
{
    if i < s.len() {
        lemma_listed_room_prefix(s, i + 1);
        assert(s.take(i + 1).drop_last() =~= s.take(i));
    } else {
        assert(s.take(i) =~= s);
    }
}

/// The character-list packet: status 0, the number of characters, each
/// character, the pic flag and the number of character slots (3).
pub open spec fn character_list_bytes(
    characters: Seq<ListedCharacter>,
    enable_pic: bool,
    pic: Seq<char>,
) -> Seq<u8> {
    crate::codec::le_i16(0x0B) + seq![0u8, characters.len() as u8] + listed_characters_bytes(
        characters,
    ) + seq![spec_pic_flag(enable_pic, pic)] + le_i32(3)
}

/// Character list packet, contains stat, style, and equipment data for each
/// character in the selected world
pub fn character_list(characters: &Vec<ListedCharacter>, session: &Session, config: &Config) -> (packet:
    Packet)
    requires
        buffer_fits((listed_room(characters@) + 9) as nat),
    ensures
        packet.use_encryption,
        packet@ == character_list_bytes(characters@, config.enable_pic, session.pic@),
{
    let mut packet = Packet::new(0x0B);
    packet.write_byte(0);  // status
    packet.write_byte(characters.len() as u8);
    let ghost head = packet@;
    let n = characters.len();
    let mut i: usize = 0;
    proof {
        assert(characters@.take(0) =~= Seq::<ListedCharacter>::empty());
        assert(packet@ =~= head + listed_characters_bytes(characters@.take(0)));
        lemma_listed_len(characters@);
    }
    while i < n
        invariant
            packet.use_encryption,
            n == characters@.len(),
            i <= n,
            head.len() == 4,
            buffer_fits((listed_room(characters@) + 9) as nat),
            packet@ == head + listed_characters_bytes(characters@.take(i as int)),
            packet@.len() <= 4 + listed_room(characters@.take(i as int)),
        decreases n - i,
    {
        let entry = &characters[i];
        proof {
            assert(characters@.take(i + 1).drop_last() =~= characters@.take(i as int));
            assert(characters@.take(i + 1).last() == *entry);
            lemma_listed_room_prefix(characters@, i + 1);
            lemma_listed_len(characters@.take(i as int));
        }
        write_character(&mut packet, &entry.character, &entry.equipment, entry.stats.as_slice(), false);
        proof {
            lemma_worn_len(entry.equipment@);
            assert(packet@ =~= head + listed_characters_bytes(characters@.take(i + 1)));
        }
        i += 1;
    }
    proof {
        assert(characters@.take(n as int) =~= characters@);
        lemma_listed_len(characters@);
    }
    // 0: register pic (user hasn't registered pic)
    // 1: prompt pic (user already registered pic)
    // 2: disable pic
    packet.write_byte(crate::login::pic_flag(config.enable_pic, &session.pic));
    packet.write_int(3);  // character slots
    proof {
        assert(packet@ =~= character_list_bytes(characters@, config.enable_pic, session.pic@));
    }
    packet
}

/// The packet that shows a character just created (with its equipment and
/// stat block).
pub fn create_character(created: &ListedCharacter) -> (packet: Packet)
    requires
        buffer_fits((created.stats@.len() + 5 * created.equipment@.len() + 50) as nat),
    ensures
        packet.use_encryption,
        packet@ == crate::codec::le_i16(0x0E) + seq![0u8] + listed_character_bytes(
            created.character,
            created.equipment@,
            created.stats@,
            false,
        ),
{
    let mut packet = Packet::new(0x0E);
    packet.write_byte(0);
    write_character(
        &mut packet,
        &created.character,
        &created.equipment,
        created.stats.as_slice(),
        false,
    );
    proof {
        assert(packet@ =~= crate::codec::le_i16(0x0E) + seq![0u8] + listed_character_bytes(
            created.character,
            created.equipment@,
            created.stats@,
            false,
        ));
    }
    packet
}

} // verus!
