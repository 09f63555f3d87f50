//! Maps as the map data describes them: portals, NPCs and monsters
//! ("life"), footholds, and the map's own settings.
use crate::nx::{
    child, int_or, integer_of, spec_child, spec_float_bits, spec_integer, spec_text, str_equal,
    text_or_default, text_or_empty, NxNode,
};
use crate::text::{decimal, spec_parse_i32};
use rand::Rng;
use std::collections::HashMap;
use vstd::prelude::*;
use vstd::string::StringExecFns;

verus! {

broadcast use vstd::std_specs::hash::group_hash_axioms;

/// The most children a data node can have (the data format counts them in 16 bits).
pub open spec fn max_children() -> nat {
    65535
}

// ---------------------------------------------------------------------------
// Portals
// ---------------------------------------------------------------------------

#[derive(Debug)]
pub struct Portal {
    pub id: i32,
    pub name: String,
    pub script: String,
    pub target: String,
    pub target_map_id: i32,
    pub type_: i32,
    pub x: i32,
    pub y: i32,
}

/// A portal as plain values.
pub ghost struct PortalView {
    pub id: i32,
    pub name: Seq<char>,
    pub script: Seq<char>,
    pub target: Seq<char>,
    pub target_map_id: i32,
    pub type_: i32,
    pub x: i32,
    pub y: i32,
}

impl View for Portal {
    type V = PortalView;

    open spec fn view(&self) -> PortalView {
        PortalView {
            id: self.id,
            name: self.name@,
            script: self.script@,
            target: self.target@,
            target_map_id: self.target_map_id,
            type_: self.type_,
            x: self.x,
            y: self.y,
        }
    }
}

/// The portal a node describes, given its id. Its `y` is read from the `x`
/// field.
pub open spec fn portal_of(node: NxNode, id: i32) -> PortalView {
    PortalView {
        id,
        name: text_or_empty(Some(node), "pn"@),
        script: text_or_empty(Some(node), "script"@),
        target: text_or_empty(Some(node), "tn"@),
        target_map_id: int_or(Some(node), "tm"@, 0) as i32,
        type_: int_or(Some(node), "pt"@, 0) as i32,
        x: int_or(Some(node), "x"@, 0) as i32,
        y: int_or(Some(node), "x"@, 0) as i32,
    }
}

/// The portals of the first `children` nodes, keyed by id, and the id the next
/// door portal gets. Door portals (type 6) are numbered from 0x80 in order;
/// every other portal's id is its node name read as a number. `None` when such
/// a name is not a number.
pub open spec fn portals_loaded(children: Seq<NxNode>) -> Option<(Map<i32, PortalView>, int)>
    decreases children.len(),
{
    if children.len() == 0 {
        Some((Map::empty(), 0x80))
    } else {
        match portals_loaded(children.drop_last()) {
            None => None,
            Some((m, door)) => {
                let node = children.last();
                if int_or(Some(node), "pt"@, 0) as i32 == 6 {
                    Some((m.insert(door as i32, portal_of(node, door as i32)), door + 1))
                } else {
                    match spec_parse_i32(node.name@) {
                        Some(id) => Some((m.insert(id, portal_of(node, id)), door)),
                        None => None,
                    }
                }
            },
        }
    }
}

proof fn lemma_portals_door_bound(children: Seq<NxNode>)
    ensures
        portals_loaded(children) matches Some((m, door)) ==> 0x80 <= door <= 0x80 + children.len(),
    decreases children.len(),
{
    if children.len() > 0 {
        lemma_portals_door_bound(children.drop_last());
    }
}

fn read_i32_or(node: &NxNode, name: &str, default: i64) -> (v: i32)
    ensures
        v == int_or(Some(*node), name@, default) as i32,
{
    match integer_of(node.get(name)) {
        Some(v) => v as i32,
        None => default as i32,
    }
}

fn read_i64_or(node: Option<&NxNode>, name: &str, default: i64) -> (v: i64)
    ensures
        v == int_or(
            match node {
                Some(n) => Some(*n),
                None => None,
            },
            name@,
            default,
        ),
{
    match integer_of(child(node, name)) {
        Some(v) => v,
        None => default,
    }
}

impl Portal {
    /// Loads the portals under a node, keyed by id. Every portal that is not a
    /// door must be named by its id (see `portals_loadable`).
    pub fn load(root: &NxNode) -> (portals: HashMap<i32, Portal>)
        requires
            root.children@.len() <= max_children(),
            portals_loaded(root.children@) is Some,
        ensures
            portals@.map_values(|v: Portal| v@) == portals_loaded(root.children@).unwrap().0,
    {
        let mut portals: HashMap<i32, Portal> = HashMap::new();
        let mut next_door_portal_id: i32 = 0x80;
        let n = root.children.len();
        let mut i: usize = 0;
        proof {
            assert(root.children@.take(0) =~= Seq::<NxNode>::empty());
            assert(portals@.map_values(|v: Portal| v@) =~= Map::<i32, PortalView>::empty());
        }
        while i < n
            invariant
                n == root.children@.len(),
                n <= max_children(),
                i <= n,
                portals_loaded(root.children@) is Some,
                portals_loaded(root.children@.take(i as int)) matches Some((m, door)) && portals@.map_values(
                    |v: Portal| v@,
                ) == m && door == next_door_portal_id,
            decreases n - i,
        {
            let data = &root.children[i];
            proof {
                assert(root.children@.take(i + 1).drop_last() =~= root.children@.take(i as int));
                assert(root.children@.take(i + 1).last() == *data);
                lemma_portals_door_bound(root.children@.take(i as int));
            }
            let name = text_or_default(data.get("pn"));
            let script = text_or_default(data.get("script"));
            let target = text_or_default(data.get("tn"));
            let target_map_id = read_i32_or(data, "tm", 0);
            let type_ = read_i32_or(data, "pt", 0);
            let x = read_i32_or(data, "x", 0);
            let y = read_i32_or(data, "x", 0);
            let id = if type_ == 6 {
                let id = next_door_portal_id;
                next_door_portal_id += 1;
                id
            } else {
                match crate::text::parse_i32(data.name.as_str()) {
                    Some(id) => id,
                    None => {
                        proof {
                            assert(spec_parse_i32(data.name@) is None);
                            assert(portals_loaded(root.children@.take(i + 1)) is None);
                            lemma_portals_none_extends(root.children@, (i + 1) as int);
                            assert(false);
                        }
                        return HashMap::new();
                    },
                }
            };
            let portal = Portal { id, name, script, target, target_map_id, type_, x, y };
            let ghost before = portals@;
            portals.insert(id, portal);
            proof {
                assert(portals@.map_values(|v: Portal| v@) =~= before.map_values(|v: Portal| v@).insert(
                    id,
                    portal_of(*data, id),
                ));
            }
            i += 1;
        }
        proof {
            assert(root.children@.take(n as int) =~= root.children@);
        }
        portals
    }
}

/// Whether the portals under a node can be loaded: every portal that is not a
/// door (type 6) is named by a number.
pub fn portals_loadable(root: &NxNode) -> (ok: bool)
    ensures
        ok == (portals_loaded(root.children@) is Some),
{
    let n = root.children.len();
    let mut i: usize = 0;
    while i < n
        invariant
            n == root.children@.len(),
            i <= n,
            portals_loaded(root.children@.take(i as int)) is Some,
        decreases n - i,
    {
        let data = &root.children[i];
        proof {
            assert(root.children@.take(i + 1).drop_last() =~= root.children@.take(i as int));
            assert(root.children@.take(i + 1).last() == *data);
        }
        if read_i32_or(data, "pt", 0) != 6 {
            if crate::text::parse_i32(data.name.as_str()).is_none() {
                proof {
                    lemma_portals_none_extends(root.children@, (i + 1) as int);
                }
                return false;
            }
        }
        i += 1;
    }
    proof {
        assert(root.children@.take(n as int) =~= root.children@);
    }
    true
}

proof fn lemma_portals_none_extends(children: Seq<NxNode>, k: int)
    requires
        0 <= k <= children.len(),
        portals_loaded(children.take(k)) is None,
    ensures
        portals_loaded(children) is None,
    decreases children.len() - k,
{
    if k < children.len() {
        assert(children.take(k + 1).drop_last() =~= children.take(k));
        lemma_portals_none_extends(children, k + 1);
    } else {
        assert(children.take(k) =~= children);
    }
}

// ---------------------------------------------------------------------------
// NPC names, map image names
// ---------------------------------------------------------------------------

/// The string under `key` of an NPC in the string data, or the empty text.
pub open spec fn spec_npc_string(strings: NxNode, npc_id: i32, key: Seq<char>) -> Seq<char> {
    let npc = spec_child(spec_child(Some(strings), "Npc.img"@), decimal(npc_id as int));
    text_or_empty(npc, key)
}

/// The string data holds NPC strings (`Npc.img`).
pub open spec fn has_npc_strings(strings: NxNode) -> bool {
    spec_child(Some(strings), "Npc.img"@) is Some
}

/// Looks up a string of an NPC (e.g. its `name`) in the string data (the root
/// of the string data file); empty when the NPC or the key is not there.
pub fn load_npc_string(strings: &NxNode, npc_id: i32, key: &str) -> (value: String)
    requires
        has_npc_strings(*strings),
    ensures
        value@ == spec_npc_string(*strings, npc_id, key@),
{
    let npc_root = strings.get("Npc.img");
    let id_text = crate::text::decimal_string(npc_id as i64);
    let npc = child(npc_root, id_text.as_str());
    if npc.is_none() {
        return String::new();
    }
    let val = child(npc, key);
    if val.is_none() {
        return String::new();
    }
    text_or_default(val)
}

/// The image node name of a map: its id left-padded with zeros to nine
/// characters, then `.img`.
pub open spec fn spec_map_img_name(map_id: i32) -> Seq<char> {
    Seq::new((9 - decimal(map_id as int).len()) as nat, |i: int| '0') + decimal(map_id as int)
        + ".img"@
}

/// Converts the given map id to the data's image node name
pub fn get_map_img_name(map_id: i32) -> (name: String)
    requires
        decimal(map_id as int).len() <= 9,
    ensures
        name@ == spec_map_img_name(map_id),
{
    let digits = crate::text::decimal_string(map_id as i64);
    let len = digits.as_str().unicode_len();
    let mut map_id_str = String::new();
    let mut i: usize = 0;
    while i < 9 - len
        invariant
            len == decimal(map_id as int).len(),
            len <= 9,
            i <= 9 - len,
            map_id_str@ == Seq::new(i as nat, |k: int| '0'),
        decreases 9 - len - i,
    {
        crate::text::push_char(&mut map_id_str, '0');
        proof {
            assert(map_id_str@ =~= Seq::new((i + 1) as nat, |k: int| '0'));
        }
        i += 1;
    }
    map_id_str.append(digits.as_str());
    map_id_str.append(".img");
    proof {
        assert(map_id_str@ =~= spec_map_img_name(map_id));
    }
    map_id_str
}

// ---------------------------------------------------------------------------
// Life (NPCs and monsters)
// ---------------------------------------------------------------------------

#[derive(PartialEq, Eq, Structural, Clone, Copy, Debug)]
pub enum LifeType {
    NPC,
    Monster,
}

#[derive(Debug)]
pub struct Life {
    pub id: i32,
    pub life_type: LifeType,
    pub name: String,
    pub position: (i16, i16),
    pub object_id: i32,
    pub stance: i32,
    pub f: u8,
    pub is_hidden: bool,
    pub fh: i16,
    pub start_fh: i16,
    pub cy: i16,
    pub rx0: i16,
    pub rx1: i16,
    pub mob_time: i64,
}

/// A life entry as plain values.
pub ghost struct LifeView {
    pub id: i32,
    pub life_type: LifeType,
    pub name: Seq<char>,
    pub position: (i16, i16),
    pub object_id: i32,
    pub stance: i32,
    pub f: u8,
    pub is_hidden: bool,
    pub fh: i16,
    pub start_fh: i16,
    pub cy: i16,
    pub rx0: i16,
    pub rx1: i16,
    pub mob_time: i64,
}

impl View for Life {
    type V = LifeView;

    open spec fn view(&self) -> LifeView {
        LifeView {
            id: self.id,
            life_type: self.life_type,
            name: self.name@,
            position: self.position,
            object_id: self.object_id,
            stance: self.stance,
            f: self.f,
            is_hidden: self.is_hidden,
            fh: self.fh,
            start_fh: self.start_fh,
            cy: self.cy,
            rx0: self.rx0,
            rx1: self.rx1,
            mob_time: self.mob_time,
        }
    }
}

/// Life entries as plain values.
pub open spec fn lives_view(m: Map<i32, Life>) -> Map<i32, LifeView> {
    m.map_values(|l: Life| l@)
}

/// The kind of life a node describes by its `type` (`n`/`N` an NPC, `m`/`M` a
/// monster); `None` for anything else.
pub open spec fn life_type_of(node: NxNode) -> Option<LifeType> {
    let t = text_or_empty(Some(node), "type"@);
    if t == "n"@ || t == "N"@ {
        Some(LifeType::NPC)
    } else if t == "m"@ || t == "M"@ {
        Some(LifeType::Monster)
    } else {
        None
    }
}

/// Loading stops at the first node whose type is neither an NPC nor a
/// monster: the number of nodes before it.
pub open spec fn life_cutoff(children: Seq<NxNode>) -> nat
    decreases children.len(),
{
    if children.len() == 0 {
        0
    } else if life_cutoff(children.drop_last()) < children.len() - 1 {
        life_cutoff(children.drop_last())
    } else if life_type_of(children.last()) is Some {
        children.len()
    } else {
        (children.len() - 1) as nat
    }
}

/// The life entry a node describes, with its object id (NPCs get their name
/// from the string data; monsters have none). The id is the node's `id` text
/// read as a number (0 when it is not one).
pub open spec fn life_of(node: NxNode, strings: NxNode, object_id: i32) -> LifeView {
    let id = match spec_parse_i32(text_or_empty(Some(node), "id"@)) {
        Some(v) => v,
        None => 0,
    };
    let life_type = life_type_of(node).unwrap();
    LifeView {
        id,
        life_type,
        name: if life_type == LifeType::NPC {
            spec_npc_string(strings, id, "name"@)
        } else {
            Seq::empty()
        },
        position: (int_or(Some(node), "x"@, 0) as i16, int_or(Some(node), "y"@, 0) as i16),
        object_id,
        stance: 0,
        f: int_or(Some(node), "f"@, 0) as u8,
        is_hidden: int_or(Some(node), "hide"@, 0) == 1,
        fh: int_or(Some(node), "fh"@, 0) as i16,
        start_fh: int_or(Some(node), "fh"@, 0) as i16,
        cy: int_or(Some(node), "cy"@, 0) as i16,
        rx0: int_or(Some(node), "rx0"@, 0) as i16,
        rx1: int_or(Some(node), "rx1"@, 0) as i16,
        mob_time: int_or(Some(node), "mobTime"@, 0),
    }
}

/// The NPCs and monsters of the first `k` nodes (all before the cutoff),
/// keyed by object id, node `i` getting object id `ids[i]` (a later entry
/// replaces an earlier one with the same object id).
pub open spec fn lives_loaded(children: Seq<NxNode>, strings: NxNode, ids: Seq<i32>, k: nat) -> (
    Map<i32, LifeView>,
    Map<i32, LifeView>,
)
    decreases k,
{
    if k == 0 {
        (Map::empty(), Map::empty())
    } else {
        let (npcs, monsters) = lives_loaded(children, strings, ids, (k - 1) as nat);
        let node = children[k - 1];
        let life = life_of(node, strings, ids[k - 1]);
        if life.life_type == LifeType::NPC {
            (npcs.insert(ids[k - 1], life), monsters)
        } else {
            (npcs, monsters.insert(ids[k - 1], life))
        }
    }
}

/// Some node before the cutoff is an NPC (so the string data is read).
pub open spec fn loads_npcs(children: Seq<NxNode>) -> bool {
    exists|i: int|
        0 <= i < life_cutoff(children) && life_type_of(#[trigger] children[i]) == Some(LifeType::NPC)
}

proof fn lemma_life_cutoff(children: Seq<NxNode>)
    ensures
        life_cutoff(children) <= children.len(),
        forall|i: int| 0 <= i < life_cutoff(children) ==> #[trigger] life_type_of(children[i]) is Some,
        life_cutoff(children) < children.len() ==> life_type_of(children[life_cutoff(children) as int]) is None,
    decreases children.len(),
{
    if children.len() > 0 {
        lemma_life_cutoff(children.drop_last());
        assert forall|i: int| 0 <= i < children.len() - 1 implies children.drop_last()[i] == #[trigger] children[i] by {}
    }
}

/// The smallest object id a life entry gets, so that it never collides with a
/// character id.
pub const FIRST_OBJECT_ID: i32 = 10000000;

/// `rand::Rng::gen_range(lo..=hi)` on the thread's generator: a random value
/// between `lo` and `hi`, both included (the range must not be empty, else
/// `gen_range` panics).
#[verifier::external_body]
fn random_in_range(lo: i32, hi: i32) -> (v: i32)
    requires
        lo <= hi,
    ensures
        lo <= v <= hi,
{
    rand::thread_rng().gen_range(lo..=hi)
}

fn life_type_from(node: &NxNode) -> (t: Option<LifeType>)
    ensures
        t == life_type_of(*node),
{
    let type_ = text_or_default(node.get("type"));
    let t = type_.as_str();
    if str_equal(t, "n") || str_equal(t, "N") {
        Some(LifeType::NPC)
    } else if str_equal(t, "m") || str_equal(t, "M") {
        Some(LifeType::Monster)
    } else {
        None
    }
}

impl Life {
    /// Loads the NPCs and monsters under a node, giving node `i` the object id
    /// `object_ids[i]`; stops at the first node of another type.
    pub fn load_with_ids(root: &NxNode, strings: &NxNode, object_ids: &Vec<i32>) -> (lives: (
        HashMap<i32, Life>,
        HashMap<i32, Life>,
    ))
        requires
            object_ids@.len() == root.children@.len(),
            loads_npcs(root.children@) ==> has_npc_strings(*strings),
        ensures
            ({
                let (npcs, monsters) = lives_loaded(
                    root.children@,
                    *strings,
                    object_ids@,
                    life_cutoff(root.children@),
                );
                &&& lives.0@.map_values(|l: Life| l@) == npcs
                &&& lives.1@.map_values(|l: Life| l@) == monsters
            }),
    {
        let mut npcs: HashMap<i32, Life> = HashMap::new();
        let mut monsters: HashMap<i32, Life> = HashMap::new();
        let n = root.children.len();
        let ghost cutoff = life_cutoff(root.children@);
        proof {
            lemma_life_cutoff(root.children@);
            assert(npcs@.map_values(|l: Life| l@) =~= Map::<i32, LifeView>::empty());
            assert(monsters@.map_values(|l: Life| l@) =~= Map::<i32, LifeView>::empty());
        }
        let mut i: usize = 0;
        while i < n
            invariant
                n == root.children@.len(),
                object_ids@.len() == n,
                cutoff == life_cutoff(root.children@),
                cutoff <= n,
                i <= cutoff,
                forall|k: int| 0 <= k < cutoff ==> #[trigger] life_type_of(root.children@[k]) is Some,
                cutoff < n ==> life_type_of(root.children@[cutoff as int]) is None,
                loads_npcs(root.children@) ==> has_npc_strings(*strings),
                ({
                    let (ln, lm) = lives_loaded(root.children@, *strings, object_ids@, i as nat);
                    npcs@.map_values(|l: Life| l@) == ln && monsters@.map_values(|l: Life| l@) == lm
                }),
            ensures
                i == cutoff,
                ({
                    let (ln, lm) = lives_loaded(root.children@, *strings, object_ids@, i as nat);
                    npcs@.map_values(|l: Life| l@) == ln && monsters@.map_values(|l: Life| l@) == lm
                }),
            decreases n - i,
        {
            let life = &root.children[i];
            let life_type = match life_type_from(life) {
                Some(t) => t,
                None => {
                    break;
                },
            };
            let id_text = text_or_default(life.get("id"));
            let id = match crate::text::parse_i32(id_text.as_str()) {
                Some(v) => v,
                None => 0,
            };
            let x = read_i64_or(Some(life), "x", 0) as i16;
            let y = read_i64_or(Some(life), "y", 0) as i16;
            let object_id = object_ids[i];
            let fh = read_i64_or(Some(life), "fh", 0) as i16;
            let mut entry = Life {
                id,
                life_type,
                name: String::new(),
                position: (x, y),
                object_id,
                stance: 0,
                f: read_i64_or(Some(life), "f", 0) as u8,
                is_hidden: read_i64_or(Some(life), "hide", 0) == 1,
                fh,
                start_fh: fh,
                cy: read_i64_or(Some(life), "cy", 0) as i16,
                rx0: read_i64_or(Some(life), "rx0", 0) as i16,
                rx1: read_i64_or(Some(life), "rx1", 0) as i16,
                mob_time: read_i64_or(Some(life), "mobTime", 0),
            };
            match life_type {
                LifeType::NPC => {
                    proof {
                        assert(life_type_of(root.children@[i as int]) == Some(LifeType::NPC));
                        assert(loads_npcs(root.children@));
                    }
                    entry.name = load_npc_string(strings, entry.id, "name");
                    let ghost before = npcs@;
                    npcs.insert(object_id, entry);
                    proof {
                        assert(npcs@.map_values(|l: Life| l@) =~= before.map_values(|l: Life| l@).insert(
                            object_id,
                            life_of(root.children@[i as int], *strings, object_id),
                        ));
                    }
                },
                LifeType::Monster => {
                    let ghost before = monsters@;
                    monsters.insert(object_id, entry);
                    proof {
                        assert(monsters@.map_values(|l: Life| l@) =~= before.map_values(|l: Life| l@).insert(
                            object_id,
                            life_of(root.children@[i as int], *strings, object_id),
                        ));
                    }
                },
            }
            i += 1;
        }
        (npcs, monsters)
    }

    /// Loads the NPCs and monsters under a node (see `load_with_ids`), each
    /// getting a random object id of at least 10000000.
    pub fn load(root: &NxNode, strings: &NxNode) -> (lives: (HashMap<i32, Life>, HashMap<i32, Life>))
        requires
            loads_npcs(root.children@) ==> has_npc_strings(*strings),
        ensures
            exists|ids: Seq<i32>|
                #[trigger] lives_with_ids(
                    lives_view(lives.0@),
                    lives_view(lives.1@),
                    root.children@,
                    *strings,
                    ids,
                ),
    {
        let n = root.children.len();
        let mut ids: Vec<i32> = Vec::new();
        let mut i: usize = 0;
        while i < n
            invariant
                n == root.children@.len(),
                i <= n,
                ids@.len() == i,
                forall|k: int| 0 <= k < i ==> FIRST_OBJECT_ID <= #[trigger] ids@[k],
            decreases n - i,
        {
            ids.push(random_in_range(FIRST_OBJECT_ID, i32::MAX));
            i += 1;
        }
        let lives = Self::load_with_ids(root, strings, &ids);
        proof {
            assert(lives_with_ids(
                lives_view(lives.0@),
                lives_view(lives.1@),
                root.children@,
                *strings,
                ids@,
            ));
        }
        lives
    }
}

// ---------------------------------------------------------------------------
// Footholds
// ---------------------------------------------------------------------------

#[derive(PartialEq, Eq, Structural, Debug)]
pub struct Foothold {
    pub x1: i64,
    pub y1: i64,
    pub x2: i64,
    pub y2: i64,
    pub prev: i64,
    pub next: i64,
}

/// The foothold a node describes (missing values are 0).
pub open spec fn foothold_of(node: NxNode) -> Foothold {
    Foothold {
        x1: int_or(Some(node), "x1"@, 0),
        y1: int_or(Some(node), "y1"@, 0),
        x2: int_or(Some(node), "x2"@, 0),
        y2: int_or(Some(node), "y2"@, 0),
        prev: int_or(Some(node), "prev"@, 0),
        next: int_or(Some(node), "next"@, 0),
    }
}

/// The footholds of a list of nodes, in order.
pub open spec fn footholds_in(nodes: Seq<NxNode>) -> Seq<Foothold> {
    nodes.map_values(|n: NxNode| foothold_of(n))
}

/// The footholds of the given categories, category by category.
pub open spec fn footholds_of(categories: Seq<NxNode>) -> Seq<Foothold>
    decreases categories.len(),
{
    if categories.len() == 0 {
        Seq::empty()
    } else {
        footholds_of(categories.drop_last()) + footholds_in(categories.last().children@)
    }
}

impl Foothold {
    /// Loads the footholds under a node: each child is a category whose
    /// children are footholds.
    pub fn load(root: &NxNode) -> (footholds: Vec<Self>)
        ensures
            footholds@ == footholds_of(root.children@),
    {
        let mut footholds: Vec<Foothold> = Vec::new();
        let n = root.children.len();
        let mut i: usize = 0;
        while i < n
            invariant
                n == root.children@.len(),
                i <= n,
                footholds@ == footholds_of(root.children@.take(i as int)),
            decreases n - i,
        {
            let category = &root.children[i];
            let m = category.children.len();
            let mut j: usize = 0;
            let ghost before = footholds@;
            while j < m
                invariant
                    m == category.children@.len(),
                    j <= m,
                    footholds@ == before + footholds_in(category.children@.take(j as int)),
                decreases m - j,
            {
                let data = &category.children[j];
                let foothold = Foothold {
                    x1: read_i64_or(Some(data), "x1", 0),
                    y1: read_i64_or(Some(data), "y1", 0),
                    x2: read_i64_or(Some(data), "x2", 0),
                    y2: read_i64_or(Some(data), "y2", 0),
                    prev: read_i64_or(Some(data), "prev", 0),
                    next: read_i64_or(Some(data), "next", 0),
                };
                footholds.push(foothold);
                proof {
                    assert(footholds_in(category.children@.take(j + 1)) =~= footholds_in(
                        category.children@.take(j as int),
                    ).push(foothold_of(*data)));
                    assert(footholds@ =~= before + footholds_in(category.children@.take(j + 1)));
                }
                j += 1;
            }
            proof {
                assert(category.children@.take(m as int) =~= category.children@);
                assert(root.children@.take(i + 1).drop_last() =~= root.children@.take(i as int));
                assert(root.children@.take(i + 1).last() == *category);
            }
            i += 1;
        }
        proof {
            assert(root.children@.take(n as int) =~= root.children@);
        }
        footholds
    }
}


// ---------------------------------------------------------------------------
// Maps
// ---------------------------------------------------------------------------

/// A map as the map data describes it.
#[derive(Debug)]
pub struct MapData {
    pub create_mob_interval: i64,
    pub field_limit: i64,
    /// The monster rate, as the bit pattern of its floating-point value.
    pub mob_rate: u64,
    pub on_user_enter: String,
    pub on_first_user_enter: String,
    pub npcs: HashMap<i32, Life>,
    pub monsters: HashMap<i32, Life>,
    pub portals: HashMap<i32, Portal>,
    pub return_map_id: i64,
    pub bounds: (i64, i64, i64, i64),
    pub footholds: Vec<Foothold>,
    pub town: i64,
}

/// A map as plain values.
pub ghost struct MapView {
    pub create_mob_interval: i64,
    pub field_limit: i64,
    pub mob_rate: u64,
    pub on_user_enter: Seq<char>,
    pub on_first_user_enter: Seq<char>,
    pub npcs: Map<i32, LifeView>,
    pub monsters: Map<i32, LifeView>,
    pub portals: Map<i32, PortalView>,
    pub return_map_id: i64,
    pub bounds: (i64, i64, i64, i64),
    pub footholds: Seq<Foothold>,
    pub town: i64,
}

impl View for MapData {
    type V = MapView;

    open spec fn view(&self) -> MapView {
        MapView {
            create_mob_interval: self.create_mob_interval,
            field_limit: self.field_limit,
            mob_rate: self.mob_rate,
            on_user_enter: self.on_user_enter@,
            on_first_user_enter: self.on_first_user_enter@,
            npcs: lives_view(self.npcs@),
            monsters: lives_view(self.monsters@),
            portals: self.portals@.map_values(|p: Portal| p@),
            return_map_id: self.return_map_id,
            bounds: self.bounds,
            footholds: self.footholds@,
            town: self.town,
        }
    }
}

/// Why a map could not be loaded.
#[derive(PartialEq, Eq, Structural, Clone, Copy, Debug)]
pub enum MapLoadError {
    /// The map's area (`Map<id / 100000000>`) is not in the data.
    AreaNotFound,
    /// The area has no image for the map.
    MapNotFound,
}

/// Integer division rounding toward zero, as Rust's `/` does (for `b > 0`).
pub open spec fn div_toward_zero(a: int, b: int) -> int {
    if a >= 0 {
        a / b
    } else {
        -((-a) / b)
    }
}

/// The name of the area node a map lies in: `Map` and the map id's hundred-millions.
pub open spec fn area_name(id: i32) -> Seq<char> {
    "Map"@ + decimal(div_toward_zero(id as int, 100000000))
}

/// The area node of a map in the map data.
pub open spec fn area_node(data: NxNode, id: i32) -> Option<NxNode> {
    spec_child(spec_child(Some(data), "Map"@), area_name(id))
}

/// The image node of a map in the map data.
pub open spec fn map_node(data: NxNode, id: i32) -> Option<NxNode> {
    spec_child(area_node(data, id), spec_map_img_name(id))
}

/// The children of a node that may be missing (none when it is).
pub open spec fn children_of(node: Option<NxNode>) -> Seq<NxNode> {
    match node {
        Some(n) => n.children@,
        None => Seq::empty(),
    }
}

/// A map's event script name: the one given, or the map id when none is.
pub open spec fn script_or_id(name: Seq<char>, id: i32) -> Seq<char> {
    if name.len() == 0 {
        decimal(id as int)
    } else {
        name
    }
}

/// A map's bounds. Maps whose `VRTop` equals `VRBottom` take them from their
/// minimap (negated centre, then width and height), or a square of side 2^18
/// centred on the origin when they have none; other maps give
/// (`VRTop`, `VRBottom`, `VRLeft`, `VRRight`).
pub open spec fn map_bounds(node: NxNode) -> (i64, i64, i64, i64) {
    let info = spec_child(Some(node), "info"@);
    let top = int_or(info, "VRTop"@, 0);
    let bottom = int_or(info, "VRBottom"@, 0);
    if top == bottom {
        let mini = spec_child(Some(node), "miniMap"@);
        if mini is Some {
            (
                (-int_or(mini, "centerX"@, 0)) as i64,
                (-int_or(mini, "centerY"@, 0)) as i64,
                int_or(mini, "width"@, 0),
                int_or(mini, "height"@, 0),
            )
        } else {
            (-131072i64, -131072i64, 262144i64, 262144i64)
        }
    } else {
        (top, bottom, int_or(info, "VRLeft"@, 0), int_or(info, "VRRight"@, 0))
    }
}

/// The life entries of a map node's `life` children, loaded with the object
/// ids `ids` (each at least 10000000, one per child).
pub open spec fn lives_with_ids(
    npcs: Map<i32, LifeView>,
    monsters: Map<i32, LifeView>,
    children: Seq<NxNode>,
    strings: NxNode,
    ids: Seq<i32>,
) -> bool {
    &&& ids.len() == children.len()
    &&& forall|i: int| 0 <= i < ids.len() ==> FIRST_OBJECT_ID <= #[trigger] ids[i]
    &&& (npcs, monsters) == lives_loaded(children, strings, ids, life_cutoff(children))
}

/// `v` is the map the map node describes (for map `id`; NPC names from the
/// string data), its NPCs and monsters under some object ids of at least
/// 10000000.
pub open spec fn map_matches(v: MapView, node: NxNode, strings: NxNode, id: i32) -> bool {
    let info = spec_child(Some(node), "info"@);
    let portals = children_of(spec_child(Some(node), "portal"@));
    &&& v.create_mob_interval == int_or(info, "createMobInterval"@, 50000)
    &&& v.field_limit == int_or(info, "fieldLimit"@, 0)
    &&& v.mob_rate == (match spec_float_bits(spec_child(info, "mobRate"@)) {
        Some(b) => b,
        None => 0u64,
    })
    &&& v.on_user_enter == script_or_id(text_or_empty(info, "onUserEnter"@), id)
    &&& v.on_first_user_enter == script_or_id(text_or_empty(info, "onFirstUserEnter"@), id)
    &&& v.return_map_id == int_or(info, "returnMap"@, 0)
    &&& v.town == int_or(info, "town"@, 0)
    &&& v.bounds == map_bounds(node)
    &&& v.portals == (match portals_loaded(portals) {
        Some((m, _)) => m,
        None => Map::empty(),
    })
    &&& v.footholds == footholds_of(children_of(spec_child(Some(node), "foothold"@)))
    &&& exists|ids: Seq<i32>|
        #[trigger] lives_with_ids(
            v.npcs,
            v.monsters,
            children_of(spec_child(Some(node), "life"@)),
            strings,
            ids,
        )
}

/// The map node holds what every map holds: its `info`, a minimap centre that
/// can be negated where the minimap gives the bounds, portals named by their
/// ids, and NPC names in the string data where it has NPCs.
pub open spec fn map_node_complete(node: NxNode, strings: NxNode) -> bool {
    let info = spec_child(Some(node), "info"@);
    let mini = spec_child(Some(node), "miniMap"@);
    let portal = spec_child(Some(node), "portal"@);
    &&& info is Some
    &&& (int_or(info, "VRTop"@, 0) == int_or(info, "VRBottom"@, 0) && mini is Some) ==> (int_or(
        mini,
        "centerX"@,
        0,
    ) != i64::MIN && int_or(mini, "centerY"@, 0) != i64::MIN)
    &&& portal is Some ==> children_of(portal).len() <= max_children()
    &&& portals_loaded(children_of(portal)) is Some
    &&& loads_npcs(children_of(spec_child(Some(node), "life"@))) ==> has_npc_strings(strings)
}

/// Loading map `id` from the map data is defined: where its area is there,
/// the id has at most nine characters, and where its image is there, the
/// image is complete.
pub open spec fn map_load_defined(data: NxNode, strings: NxNode, id: i32) -> bool {
    area_node(data, id) is Some ==> {
        &&& decimal(id as int).len() <= 9
        &&& map_node(data, id) matches Some(node) ==> map_node_complete(node, strings)
    }
}

/// The float bits of a node that may be missing.
fn float_of(node: Option<&NxNode>) -> (v: Option<u64>)
    ensures
        v == spec_float_bits(
            match node {
                Some(n) => Some(*n),
                None => None,
            },
        ),
{
    match node {
        Some(n) => n.float_bits(),
        None => None,
    }
}

/// The text under `name`, or the map id when it is missing or empty.
fn script_name(info: Option<&NxNode>, name: &str, id: i32) -> (s: String)
    ensures
        s@ == script_or_id(
            text_or_empty(
                match info {
                    Some(n) => Some(*n),
                    None => None,
                },
                name@,
            ),
            id,
        ),
{
    let text = text_or_default(child(info, name));
    if text.as_str().unicode_len() == 0 {
        crate::text::decimal_string(id as i64)
    } else {
        text
    }
}

/// `id / 100000000`, rounding toward zero.
fn area_number(id: i32) -> (n: i64)
    ensures
        n == div_toward_zero(id as int, 100000000),
{
    let v = id as i64;
    if v >= 0 {
        v / 100000000
    } else {
        -((-v) / 100000000)
    }
}

/// The name of the area node of a map.
pub fn area_name_of(id: i32) -> (name: String)
    ensures
        name@ == area_name(id),
{
    let mut name = String::new();
    name.append("Map");
    crate::text::push_decimal(&mut name, area_number(id));
    proof {
        assert(name@ =~= area_name(id));
    }
    name
}

/// The bounds of a map node.
fn load_bounds(node: &NxNode, info: Option<&NxNode>) -> (bounds: (i64, i64, i64, i64))
    requires
        info == (match spec_child(Some(*node), "info"@) {
            Some(c) => Some(&c),
            None => None::<&NxNode>,
        }),
        ({
            let info = spec_child(Some(*node), "info"@);
            let mini = spec_child(Some(*node), "miniMap"@);
            (int_or(info, "VRTop"@, 0) == int_or(info, "VRBottom"@, 0) && mini is Some) ==> (
            int_or(mini, "centerX"@, 0) != i64::MIN && int_or(mini, "centerY"@, 0) != i64::MIN)
        }),
    ensures
        bounds == map_bounds(*node),
{
    let vr_top = read_i64_or(info, "VRTop", 0);
    let vr_bottom = read_i64_or(info, "VRBottom", 0);
    if vr_top == vr_bottom {
        match node.get("miniMap") {
            Some(data) => {
                let center_x = read_i64_or(Some(data), "centerX", 0);
                let center_y = read_i64_or(Some(data), "centerY", 0);
                let width = read_i64_or(Some(data), "width", 0);
                let height = read_i64_or(Some(data), "height", 0);
                (-center_x, -center_y, width, height)
            },
            None => {
                let dist: i64 = 1 << 18;
                assert(dist == 262144) by (bit_vector)
                    requires
                        dist == 1i64 << 18i64,
                ;
                (-dist / 2, -dist / 2, dist, dist)
            },
        }
    } else {
        let vr_left = read_i64_or(info, "VRLeft", 0);
        let vr_right = read_i64_or(info, "VRRight", 0);
        (vr_top, vr_bottom, vr_left, vr_right)
    }
}

impl MapData {
    /// Loads map `id` from the map data (the root of the map data file), NPC
    /// names from the string data; each NPC and monster gets a random object id
    /// of at least 10000000.
    pub fn load(data: &NxNode, strings: &NxNode, id: i32) -> (map: Result<MapData, MapLoadError>)
        requires
            map_load_defined(*data, *strings, id),
        ensures
            map == Err::<MapData, MapLoadError>(MapLoadError::AreaNotFound) <==> area_node(*data, id) is None,
            map == Err::<MapData, MapLoadError>(MapLoadError::MapNotFound) <==> (area_node(*data, id) is Some
                && map_node(*data, id) is None),
            map matches Ok(m) ==> map_node(*data, id) matches Some(node) && map_matches(
                m@,
                node,
                *strings,
                id,
            ),
    {
        let area_name = area_name_of(id);
        let area = child(data.get("Map"), area_name.as_str());
        if area.is_none() {
            return Err(MapLoadError::AreaNotFound);
        }
        let map_name = get_map_img_name(id);
        let node = match child(area, map_name.as_str()) {
            Some(node) => node,
            None => {
                return Err(MapLoadError::MapNotFound);
            },
        };
        let info = node.get("info");
        let create_mob_interval = read_i64_or(info, "createMobInterval", 50000);
        let field_limit = read_i64_or(info, "fieldLimit", 0);
        let mob_rate = match float_of(child(info, "mobRate")) {
            Some(b) => b,
            None => 0,
        };
        let return_map_id = read_i64_or(info, "returnMap", 0);
        let town = read_i64_or(info, "town", 0);
        let on_user_enter = script_name(info, "onUserEnter", id);
        let on_first_user_enter = script_name(info, "onFirstUserEnter", id);
        let bounds = load_bounds(node, info);
        let ghost life = spec_child(Some(*node), "life"@);
        let (npcs, monsters) = match node.get("life") {
            Some(life_root) => Life::load(life_root, strings),
            None => {
                let lives: (HashMap<i32, Life>, HashMap<i32, Life>) = (HashMap::new(), HashMap::new());
                proof {
                    assert(lives_view(lives.0@) =~= Map::<i32, LifeView>::empty());
                    assert(lives_view(lives.1@) =~= Map::<i32, LifeView>::empty());
                    assert(lives_with_ids(
                        lives_view(lives.0@),
                        lives_view(lives.1@),
                        children_of(life),
                        *strings,
                        Seq::empty(),
                    ));
                }
                lives
            },
        };
        let ghost npcs_view = lives_view(npcs@);
        let ghost monsters_view = lives_view(monsters@);
        assert(exists|ids: Seq<i32>|
            #[trigger] lives_with_ids(npcs_view, monsters_view, children_of(life), *strings, ids));
        let portals = match node.get("portal") {
            Some(portal_root) => Portal::load(portal_root),
            None => HashMap::new(),
        };
        let footholds = match node.get("foothold") {
            Some(foothold_root) => Foothold::load(foothold_root),
            None => Vec::new(),
        };
        let map = MapData {
            create_mob_interval,
            field_limit,
            mob_rate,
            on_user_enter,
            on_first_user_enter,
            npcs,
            monsters,
            portals,
            return_map_id,
            bounds,
            footholds,
            town,
        };
        proof {
            if spec_child(Some(*node), "portal"@) is None {
                assert(map@.portals =~= Map::<i32, PortalView>::empty());
            }
            let ids = choose|ids: Seq<i32>|
                #[trigger] lives_with_ids(npcs_view, monsters_view, children_of(life), *strings, ids);
            assert(lives_with_ids(map@.npcs, map@.monsters, children_of(life), *strings, ids));
        }
        Ok(map)
    }
}


/// Whether some node before the life cutoff is an NPC.
fn life_has_npcs(root: &NxNode) -> (found: bool)
    ensures
        found == loads_npcs(root.children@),
{
    let n = root.children.len();
    proof {
        lemma_life_cutoff(root.children@);
    }
    let mut i: usize = 0;
    while i < n
        invariant
            n == root.children@.len(),
            i <= life_cutoff(root.children@),
            life_cutoff(root.children@) <= n,
            forall|k: int|
                0 <= k < life_cutoff(root.children@) ==> #[trigger] life_type_of(root.children@[k]) is Some,
            life_cutoff(root.children@) < n ==> life_type_of(
                root.children@[life_cutoff(root.children@) as int],
            ) is None,
            forall|k: int|
                0 <= k < i ==> #[trigger] life_type_of(root.children@[k]) != Some(LifeType::NPC),
        ensures
            forall|k: int|
                0 <= k < life_cutoff(root.children@) ==> #[trigger] life_type_of(root.children@[k])
                    != Some(LifeType::NPC),
        decreases n - i,
    {
        match life_type_from(&root.children[i]) {
            Some(LifeType::NPC) => {
                return true;
            },
            Some(LifeType::Monster) => {},
            None => {
                break;
            },
        }
        i += 1;
    }
    proof {
        if loads_npcs(root.children@) {
            let k = choose|k: int|
                0 <= k < life_cutoff(root.children@) && life_type_of(#[trigger] root.children@[k])
                    == Some(LifeType::NPC);
            assert(life_type_of(root.children@[k]) != Some(LifeType::NPC));
        }
    }
    false
}

/// Whether the minimap centre can be negated where the minimap gives the bounds.
fn bounds_loadable(node: &NxNode, info: Option<&NxNode>) -> (ok: bool)
    requires
        info == (match spec_child(Some(*node), "info"@) {
            Some(c) => Some(&c),
            None => None::<&NxNode>,
        }),
    ensures
        ok == ({
            let info = spec_child(Some(*node), "info"@);
            let mini = spec_child(Some(*node), "miniMap"@);
            (int_or(info, "VRTop"@, 0) == int_or(info, "VRBottom"@, 0) && mini is Some) ==> (
            int_or(mini, "centerX"@, 0) != i64::MIN && int_or(mini, "centerY"@, 0) != i64::MIN)
        }),
{
    if read_i64_or(info, "VRTop", 0) != read_i64_or(info, "VRBottom", 0) {
        return true;
    }
    match node.get("miniMap") {
        Some(data) => read_i64_or(Some(data), "centerX", 0) != i64::MIN && read_i64_or(
            Some(data),
            "centerY",
            0,
        ) != i64::MIN,
        None => true,
    }
}

impl MapData {
    /// Whether loading map `id` is defined (see `map_load_defined`); where it
    /// is not, the data is broken and loading must not be attempted.
    pub fn loadable(data: &NxNode, strings: &NxNode, id: i32) -> (ok: bool)
        ensures
            ok == map_load_defined(*data, *strings, id),
    {
        let area_name = area_name_of(id);
        let area = child(data.get("Map"), area_name.as_str());
        if area.is_none() {
            return true;
        }
        let digits = crate::text::decimal_string(id as i64);
        if digits.as_str().unicode_len() > 9 {
            return false;
        }
        let map_name = get_map_img_name(id);
        let node = match child(area, map_name.as_str()) {
            Some(node) => node,
            None => {
                return true;
            },
        };
        let info = node.get("info");
        if info.is_none() {
            return false;
        }
        if !bounds_loadable(node, info) {
            return false;
        }
        match node.get("portal") {
            Some(portal_root) => {
                if portal_root.children.len() > 65535 {
                    return false;
                }
                if !portals_loadable(portal_root) {
                    return false;
                }
            },
            None => {
                proof {
                    assert(portals_loaded(Seq::<NxNode>::empty()) is Some);
                }
            },
        }
        match node.get("life") {
            Some(life_root) => {
                if life_has_npcs(life_root) && strings.get("Npc.img").is_none() {
                    return false;
                }
            },
            None => {
                proof {
                    assert(life_cutoff(Seq::<NxNode>::empty()) == 0);
                }
            },
        }
        true
    }
}

} // verus!
