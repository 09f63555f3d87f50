//! The game world in play: characters with their database rows and where
//! they stand, and the maps they stand on.
use crate::nx::NxNode;
use crate::nx_map::{
    area_node, map_load_defined, map_matches, map_node, MapData, MapLoadError, Portal, PortalView,
};
use crate::packet::Packet;
use crate::sql;
use vstd::prelude::*;

verus! {

broadcast use vstd::std_specs::hash::group_hash_axioms;

/// A character in play.
#[derive(Debug)]
pub struct Character {
    pub pos: (i32, i32),
    pub stance: u8,
    pub data: sql::Character,
    pub equipment: Vec<sql::Equipment>,
    pub items: Vec<sql::Item>,
    pub keymaps: Vec<sql::Keymap>,
    pub skills: Vec<sql::Skill>,
    pub cooldowns: Vec<sql::Cooldown>,
    pub quests: Vec<sql::Quest>,
    /// Scripts of the portals blocked for this character (each name once).
    pub blocked_portals: Vec<String>,
}

impl Character {
    /// No portal script is blocked twice: the blocked portals form a set.
    pub open spec fn blocked_portals_distinct(&self) -> bool {
        forall|i: int, j: int|
            0 <= i < j < self.blocked_portals@.len() ==> #[trigger] self.blocked_portals@[i]@
                != #[trigger] self.blocked_portals@[j]@
    }

    /// A character entering play with the rows loaded for it: at (0, 0),
    /// stance 0, no skills, cooldowns or quest progress yet, no blocked portals.
    pub fn from_rows(
        data: sql::Character,
        equipment: Vec<sql::Equipment>,
        items: Vec<sql::Item>,
        keymaps: Vec<sql::Keymap>,
    ) -> (character: Self)
        ensures
            character.pos == (0i32, 0i32),
            character.stance == 0,
            character.data == data,
            character.equipment == equipment,
            character.items == items,
            character.keymaps == keymaps,
            character.skills@.len() == 0,
            character.cooldowns@.len() == 0,
            character.quests@.len() == 0,
            character.blocked_portals@.len() == 0,
            character.blocked_portals_distinct(),
    {
        Character {
            pos: (0, 0),
            stance: 0,
            data,
            equipment,
            items,
            keymaps,
            skills: Vec::new(),
            cooldowns: Vec::new(),
            quests: Vec::new(),
            blocked_portals: Vec::new(),
        }
    }

    /// Whether the portal with this script is blocked for the character.
    pub fn is_portal_blocked(&self, script: &str) -> (blocked: bool)
        ensures
            blocked == exists|i: int|
                0 <= i < self.blocked_portals@.len() && #[trigger] self.blocked_portals@[i]@
                    == script@,
    {
        let n = self.blocked_portals.len();
        let mut i: usize = 0;
        while i < n
            invariant
                n == self.blocked_portals@.len(),
                i <= n,
                forall|k: int| 0 <= k < i ==> #[trigger] self.blocked_portals@[k]@ != script@,
            decreases n - i,
        {
            if crate::nx::str_equal(self.blocked_portals[i].as_str(), script) {
                return true;
            }
            i += 1;
        }
        false
    }

    /// Blocks the portal with this script for the character (the current
    /// portal's script, when a portal script calls `blockPortal`).
    pub fn block_portal(&mut self, script: &str)
        ensures
            forall|i: int|
                0 <= i < old(self).blocked_portals@.len() ==> final(self).blocked_portals@[i]
                    == old(self).blocked_portals@[i],
            (exists|i: int|
                0 <= i < old(self).blocked_portals@.len() && #[trigger] old(
                    self,
                ).blocked_portals@[i]@ == script@) ==> final(self).blocked_portals@.len() == old(
                self,
            ).blocked_portals@.len(),
            !(exists|i: int|
                0 <= i < old(self).blocked_portals@.len() && #[trigger] old(
                    self,
                ).blocked_portals@[i]@ == script@) ==> final(self).blocked_portals@.len() == old(
                self,
            ).blocked_portals@.len() + 1 && final(self).blocked_portals@.last()@ == script@,
            final(self).pos == old(self).pos,
            final(self).stance == old(self).stance,
            final(self).data == old(self).data,
            old(self).blocked_portals_distinct() ==> final(self).blocked_portals_distinct(),
    {
        if !self.is_portal_blocked(script) {
            self.blocked_portals.push(script.to_owned());
        }
    }
}


// ---------------------------------------------------------------------------
// Maps in play
// ---------------------------------------------------------------------------

/// A map in play: its id and its data.
#[derive(Debug)]
pub struct ActiveMap {
    pub id: i32,
    pub data: MapData,
}

/// The target map id of a portal that leads nowhere (a spawn point).
pub open spec fn map_none() -> i32 {
    999999999
}

/// A portal is a spawn point: it leads nowhere and is of type 0 or 1.
pub open spec fn is_spawn_point(p: PortalView) -> bool {
    p.target_map_id == map_none() && (p.type_ == 0 || p.type_ == 1)
}

/// The squared distance from a position to a portal.
pub open spec fn spawn_distance(pos: (i32, i32), p: PortalView) -> int {
    (pos.0 - p.x) * (pos.0 - p.x) + (pos.1 - p.y) * (pos.1 - p.y)
}

/// The squared distance to the portal can be computed in 32 bits.
pub open spec fn distance_fits(pos: (i32, i32), p: PortalView) -> bool {
    &&& i32::MIN <= pos.0 - p.x <= i32::MAX
    &&& i32::MIN <= pos.1 - p.y <= i32::MAX
    &&& (pos.0 - p.x) * (pos.0 - p.x) <= i32::MAX
    &&& (pos.1 - p.y) * (pos.1 - p.y) <= i32::MAX
    &&& spawn_distance(pos, p) <= i32::MAX
}

/// A spawn point of the map closer to `pos` than `i32::MAX` (squared).
pub open spec fn near_spawn_point(portals: Map<i32, Portal>, pos: (i32, i32), k: i32) -> bool {
    &&& portals.contains_key(k)
    &&& is_spawn_point(portals[k]@)
    &&& spawn_distance(pos, portals[k]@) < i32::MAX
}

/// Every value of a map is listed in a sequence whose items make up its values.
proof fn lemma_values_listed(rem: Seq<&Portal>, portals: Map<i32, Portal>)
    requires
        rem.unref().to_set() == portals.values(),
    ensures
        forall|k: i32|
            #[trigger] portals.contains_key(k) ==> exists|j: int|
                0 <= j < rem.len() && *rem[j] == portals[k],
{
    assert forall|k: i32| #[trigger] portals.contains_key(k) implies exists|j: int|
        0 <= j < rem.len() && *rem[j] == portals[k] by {
        assert(portals.values().contains(portals[k]));
        assert(rem.unref().to_set().contains(portals[k]));
        assert(rem.unref().contains(portals[k]));
        let j = choose|j: int| 0 <= j < rem.unref().len() && rem.unref()[j] == portals[k];
        assert(*rem[j] == portals[k]);
    }
}

impl ActiveMap {
    /// Loads map `id` from the map data (see `MapData::load`).
    pub fn load(data: &NxNode, strings: &NxNode, id: i32) -> (map: Result<ActiveMap, MapLoadError>)
        requires
            map_load_defined(*data, *strings, id),
        ensures
            map == Err::<ActiveMap, MapLoadError>(MapLoadError::AreaNotFound) <==> area_node(*data, id) is None,
            map == Err::<ActiveMap, MapLoadError>(MapLoadError::MapNotFound) <==> (area_node(*data, id) is Some
                && map_node(*data, id) is None),
            map matches Ok(m) ==> m.id == id,
            map matches Ok(m) ==> (map_node(*data, id) matches Some(node) && map_matches(
                m.data@,
                node,
                *strings,
                id,
            )),
    {
        match MapData::load(data, strings, id) {
            Ok(data) => Ok(ActiveMap { id, data }),
            Err(e) => Err(e),
        }
    }

    /// Gets the spawn point closest to a position: the portal leading nowhere,
    /// of type 0 or 1, at the least squared distance (below `i32::MAX`). Of
    /// several at the same distance, which comes back is not fixed.
    pub fn get_closest_spawn_point(&self, pos: (i32, i32)) -> (closest: Option<&Portal>)
        requires
            forall|k: i32|
                self.data.portals@.contains_key(k) && is_spawn_point(
                    #[trigger] self.data.portals@[k]@,
                ) ==> distance_fits(pos, self.data.portals@[k]@),
        ensures
            closest is None <==> !exists|k: i32| near_spawn_point(self.data.portals@, pos, k),
            closest matches Some(p) ==> exists|k: i32|
                #[trigger] near_spawn_point(self.data.portals@, pos, k) && self.data.portals@[k]
                    == *p,
            closest matches Some(p) ==> forall|k: i32|
                self.data.portals@.contains_key(k) && is_spawn_point(
                    #[trigger] self.data.portals@[k]@,
                ) ==> spawn_distance(pos, p@) <= spawn_distance(pos, self.data.portals@[k]@),
    {
        let mut closest: Option<&Portal> = None;
        let mut closest_distance: i32 = i32::MAX;
        let ghost portals = self.data.portals@;
        proof {
            let rem = vstd::std_specs::iter::IteratorSpec::remaining(
                &vstd::std_specs::hash::spec_values_iter(&self.data.portals),
            );
            lemma_values_listed(rem, portals);
        }
        for portal in it: self.data.portals.values()
            invariant
                portals == self.data.portals@,
                it.seq().unref().to_set() == portals.values(),
                forall|k: i32|
                    portals.contains_key(k) && is_spawn_point(#[trigger] portals[k]@) ==> distance_fits(
                        pos,
                        portals[k]@,
                    ),
                closest is None ==> closest_distance == i32::MAX,
                closest is Some ==> closest_distance < i32::MAX,
                closest matches Some(p) ==> is_spawn_point(p@) && spawn_distance(pos, p@)
                    == closest_distance && portals.values().contains(*p),
                forall|k: i32|
                    portals.contains_key(k) && is_spawn_point(#[trigger] portals[k]@) ==> (
                    closest_distance <= spawn_distance(pos, portals[k]@) || exists|j: int|
                        it.index() <= j < it.seq().len() && *it.seq()[j] == portals[k]),
        {
            let ghost j = it.index();
            proof {
                assert(it.seq().unref()[j] == *portal);
                assert(portals.values().contains(*portal));
            }
            // A spawn point leads nowhere and is of type 0 or 1
            if portal.target_map_id == 999999999 && (portal.type_ == 0 || portal.type_ == 1) {
                proof {
                    let k = choose|k: i32| portals.contains_key(k) && portals[k] == *portal;
                    assert(is_spawn_point(portals[k]@));
                    assert(distance_fits(pos, portal@));
                }
                let dx = pos.0 - portal.x;
                let dy = pos.1 - portal.y;
                assert(0 <= dx * dx) by (nonlinear_arith);
                assert(0 <= dy * dy) by (nonlinear_arith);
                let distance = dx * dx + dy * dy;
                if distance < closest_distance {
                    closest_distance = distance;
                    closest = Some(portal);
                }
            }
        }
        proof {
            match closest {
                Some(p) => {
                    let k = choose|k: i32| portals.contains_key(k) && portals[k] == *p;
                    assert(near_spawn_point(portals, pos, k));
                },
                None => {
                    if exists|k: i32| near_spawn_point(portals, pos, k) {
                        let k = choose|k: i32| near_spawn_point(portals, pos, k);
                        assert(closest_distance <= spawn_distance(pos, portals[k]@));
                    }
                },
            }
        }
        closest
    }

    /// Whether the squared distance from `pos` to every spawn point of the map
    /// can be computed in 32 bits, as `get_closest_spawn_point` needs.
    pub fn spawn_distances_fit(&self, pos: (i32, i32)) -> (ok: bool)
        ensures
            ok == (forall|k: i32|
                self.data.portals@.contains_key(k) && is_spawn_point(
                    #[trigger] self.data.portals@[k]@,
                ) ==> distance_fits(pos, self.data.portals@[k]@)),
    {
        let ghost portals = self.data.portals@;
        proof {
            let rem = vstd::std_specs::iter::IteratorSpec::remaining(
                &vstd::std_specs::hash::spec_values_iter(&self.data.portals),
            );
            lemma_values_listed(rem, portals);
        }
        for portal in it: self.data.portals.values()
            invariant
                portals == self.data.portals@,
                it.seq().unref().to_set() == portals.values(),
                forall|k: i32|
                    portals.contains_key(k) && is_spawn_point(#[trigger] portals[k]@) ==> (
                    distance_fits(pos, portals[k]@) || exists|j: int|
                        it.index() <= j < it.seq().len() && *it.seq()[j] == portals[k]),
        {
            let ghost j = it.index();
            proof {
                assert(it.seq().unref()[j] == *portal);
                assert(portals.values().contains(*portal));
            }
            if portal.target_map_id == 999999999 && (portal.type_ == 0 || portal.type_ == 1) {
                let dx: i64 = pos.0 as i64 - portal.x as i64;
                let dy: i64 = pos.1 as i64 - portal.y as i64;
                let wx: i128 = dx as i128;
                let wy: i128 = dy as i128;
                assert(wx * wx <= 0x1_0000_0000_0000_0000) by (nonlinear_arith)
                    requires
                        -0x1_0000_0000 <= wx <= 0x1_0000_0000,
                ;
                assert(wy * wy <= 0x1_0000_0000_0000_0000) by (nonlinear_arith)
                    requires
                        -0x1_0000_0000 <= wy <= 0x1_0000_0000,
                ;
                assert(0 <= wx * wx && 0 <= wy * wy) by (nonlinear_arith);
                let sx = wx * wx;
                let sy = wy * wy;
                if dx < i32::MIN as i64 || dx > i32::MAX as i64 || dy < i32::MIN as i64 || dy
                    > i32::MAX as i64 || sx > i32::MAX as i128 || sy > i32::MAX as i128 || sx + sy
                    > i32::MAX as i128 {
                    proof {
                        let k = choose|k: i32| portals.contains_key(k) && portals[k] == *portal;
                        assert(is_spawn_point(portals[k]@));
                        assert(!distance_fits(pos, portals[k]@));
                    }
                    return false;
                }
            }
            proof {
                assert forall|k: i32|
                    portals.contains_key(k) && is_spawn_point(#[trigger] portals[k]@) implies (
                    distance_fits(pos, portals[k]@) || exists|j2: int|
                        j + 1 <= j2 < it.seq().len() && *it.seq()[j2] == portals[k]) by {
                    if !distance_fits(pos, portals[k]@) {
                        let j2 = choose|j2: int|
                            j <= j2 < it.seq().len() && *it.seq()[j2] == portals[k];
                        if j2 == j {
                            assert(portals[k] == *portal);
                        }
                    }
                }
            }
        }
        true
    }

    /// Gets a portal of the map by name (of several with that name, which comes
    /// back is not fixed).
    pub fn get_portal_by_name(&self, name: &str) -> (portal: Option<&Portal>)
        ensures
            portal is None <==> !exists|k: i32|
                self.data.portals@.contains_key(k) && #[trigger] self.data.portals@[k].name@
                    == name@,
            portal matches Some(p) ==> p.name@ == name@ && self.data.portals@.values().contains(*p),
    {
        let ghost portals = self.data.portals@;
        proof {
            let rem = vstd::std_specs::iter::IteratorSpec::remaining(
                &vstd::std_specs::hash::spec_values_iter(&self.data.portals),
            );
            lemma_values_listed(rem, portals);
        }
        for portal in it: self.data.portals.values()
            invariant
                portals == self.data.portals@,
                it.seq().unref().to_set() == portals.values(),
                forall|k: i32|
                    portals.contains_key(k) ==> ((#[trigger] portals[k]).name@ != name@ || exists|j: int|
                        it.index() <= j < it.seq().len() && *it.seq()[j] == portals[k]),
        {
            proof {
                assert(it.seq().unref()[it.index()] == *portal);
                assert(portals.values().contains(*portal));
            }
            if crate::nx::str_equal(portal.name.as_str(), name) {
                proof {
                    let k = choose|k: i32| portals.contains_key(k) && portals[k] == *portal;
                    assert(portals[k].name@ == name@);
                }
                return Some(portal);
            }
        }
        None
    }
}

/// A packet sent to every session on a map: who sent it, and whether the
/// sender gets it too.
#[derive(Clone, Debug)]
pub struct PacketBroadcast {
    pub packet: Packet,
    pub sender_id: i32,
    pub send_to_sender: bool,
}

} // verus!
