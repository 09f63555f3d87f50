use slate::maple::{ActiveMap, Character};
use slate::nx::{NxNode, NxValue};
use slate::nx_map::{
    get_map_img_name, load_npc_string, portals_loadable, Foothold, Life, LifeType, MapData,
    MapLoadError, Portal,
};
use slate::quest::{Quest, QuestActionType, QuestLoadError, QuestRequirementType};
use slate::sql;

fn node(name: &str, children: Vec<NxNode>) -> NxNode {
    NxNode { name: name.to_string(), value: NxValue::Empty, children }
}

fn num(name: &str, v: i64) -> NxNode {
    NxNode { name: name.to_string(), value: NxValue::Integer(v), children: vec![] }
}

/// The map data holding one map image (in area `Map0`).
fn map_file(image: &str, children: Vec<NxNode>) -> NxNode {
    let img = node(image, children);
    let area = node("Map0", vec![img]);
    let maps = node("Map", vec![area]);
    node("", vec![maps])
}

fn text(name: &str, v: &str) -> NxNode {
    NxNode { name: name.to_string(), value: NxValue::Text(v.to_string()), children: vec![] }
}

fn float(name: &str, v: f64) -> NxNode {
    NxNode { name: name.to_string(), value: NxValue::Float(v.to_bits()), children: vec![] }
}

fn row(id: i32, name: &str) -> sql::Character {
    sql::Character {
        id,
        account_id: 1,
        world_id: 0,
        name: name.to_string(),
        level: 10,
        job: 0,
        gm: 0,
        gender: 0,
        skin_colour: 0,
        face: 20000,
        hair: 30000,
        map: 10000,
        mesos: 0,
        buddy_capacity: 20,
        equip_slots: 24,
        use_slots: 24,
        setup_slots: 24,
        etc_slots: 24,
        cash_slots: 48,
        guild: None,
        rank: 0,
        rank_move: 0,
        job_rank: 0,
        job_rank_move: 0,
    }
}

fn portal(name: &str, kind: i64, target: i64, x: i64, script: &str) -> Vec<NxNode> {
    vec![
        text("pn", name),
        num("pt", kind),
        num("tm", target),
        num("x", x),
        num("y", 999),
        text("script", script),
        text("tn", ""),
    ]
}

fn strings() -> NxNode {
    let sera = node("2100", vec![text("name", "Sera")]);
    node("", vec![node("Npc.img", vec![sera])])
}

fn map_data() -> NxNode {
    let info = node(
        "info",
        vec![
            num("fieldLimit", 3),
            float("mobRate", 1.5),
            num("returnMap", 10000),
            num("town", 1),
            text("onUserEnter", ""),
            text("onFirstUserEnter", "start_script"),
            num("VRTop", -500),
            num("VRBottom", 200),
            num("VRLeft", -800),
            num("VRRight", 900),
        ],
    );
    let life = node(
        "life",
        vec![
            node("0", vec![text("id", "2100"), text("type", "n"), num("x", -10), num("y", 20), num("fh", 4), num("f", 1)]),
            node("1", vec![text("id", "100100"), text("type", "m"), num("x", 50), num("hide", 1), num("mobTime", 30)]),
        ],
    );
    let portals = node(
        "portal",
        vec![
            node("0", portal("sp", 0, 999999999, 0, "")),
            node("1", portal("sp", 1, 999999999, 300, "")),
            node("2", portal("east00", 2, 10000, 900, "go_east")),
            node("3", portal("door", 6, 999999999, 5, "")),
        ],
    );
    let foothold = node("1", vec![num("x1", 1), num("y1", 2), num("x2", 3), num("y2", 4), num("next", 2)]);
    let footholds = node("foothold", vec![node("0", vec![foothold])]);
    map_file("000010000.img", vec![info, life, portals, footholds])
}

#[test]
fn data_node_lookups() {
    let n = node("root", vec![num("a", 5), text("b", "hi"), float("c", 0.5)]);
    assert_eq!(n.get("a").unwrap().integer(), Some(5));
    assert_eq!(n.get("b").unwrap().string(), Some("hi"));
    assert_eq!(n.get("b").unwrap().integer(), None);
    assert_eq!(n.get("c").unwrap().float_bits(), Some(0.5f64.to_bits()));
    assert!(n.get("d").is_none());
}

#[test]
fn map_image_names() {
    assert_eq!(get_map_img_name(10000), "000010000.img");
    assert_eq!(get_map_img_name(100000000), "100000000.img");
    assert_eq!(get_map_img_name(0), "000000000.img");
}

#[test]
fn npc_strings() {
    let s = strings();
    assert_eq!(load_npc_string(&s, 2100, "name"), "Sera");
    assert_eq!(load_npc_string(&s, 2100, "func"), "");
    assert_eq!(load_npc_string(&s, 9999, "name"), "");
}

#[test]
fn portals_numbered_by_name_and_doors_from_0x80() {
    let root = node(
        "portal",
        vec![
            node("0", portal("sp", 0, 999999999, 0, "")),
            node("x", portal("door", 6, 0, 7, "")),
            node("5", portal("east", 2, 100, 8, "s")),
            node("y", portal("door2", 6, 0, 9, "")),
        ],
    );
    assert!(portals_loadable(&root));
    let portals = Portal::load(&root);
    assert_eq!(portals.len(), 4);
    assert_eq!(portals[&0].name, "sp");
    assert_eq!(portals[&0x80].name, "door");
    assert_eq!(portals[&0x81].name, "door2");
    let east = &portals[&5];
    assert_eq!((east.target_map_id, east.type_, east.x, east.y), (100, 2, 8, 8));
    assert_eq!(east.script, "s");
    let bad = node("portal", vec![node("nope", portal("sp", 0, 0, 0, ""))]);
    assert!(!portals_loadable(&bad));
}

#[test]
fn life_with_given_object_ids() {
    let root = node(
        "life",
        vec![
            node("0", vec![text("id", "2100"), text("type", "N"), num("x", 3), num("y", -4), num("f", 1), num("cy", 7), num("rx0", -1), num("rx1", 1), num("fh", 9)]),
            node("1", vec![text("id", "100100"), text("type", "m"), num("hide", 1), num("mobTime", 60)]),
            node("2", vec![text("id", "5"), text("type", "r")]),
            node("3", vec![text("id", "6"), text("type", "m")]),
        ],
    );
    let (npcs, monsters) = Life::load_with_ids(&root, &strings(), &vec![11, 12, 13, 14]);
    assert_eq!(npcs.len(), 1);
    assert_eq!(monsters.len(), 1);
    let sera = &npcs[&11];
    assert_eq!(sera.id, 2100);
    assert_eq!(sera.life_type, LifeType::NPC);
    assert_eq!(sera.name, "Sera");
    assert_eq!(sera.position, (3, -4));
    assert_eq!((sera.f, sera.cy, sera.rx0, sera.rx1, sera.fh, sera.start_fh), (1, 7, -1, 1, 9, 9));
    let mob = &monsters[&12];
    assert_eq!(mob.id, 100100);
    assert!(mob.is_hidden);
    assert_eq!(mob.mob_time, 60);
    assert_eq!(mob.name, "");
}

#[test]
fn life_gets_large_random_object_ids() {
    let root = node("life", vec![node("0", vec![text("id", "1"), text("type", "m")])]);
    let (npcs, monsters) = Life::load(&root, &strings());
    assert!(npcs.is_empty());
    assert_eq!(monsters.len(), 1);
    let (object_id, mob) = monsters.iter().next().unwrap();
    assert!(*object_id >= 10000000);
    assert_eq!(mob.object_id, *object_id);
}

#[test]
fn footholds_in_order() {
    let root = node(
        "foothold",
        vec![
            node("0", vec![node("1", vec![num("x1", 1), num("y1", 2)]), node("2", vec![num("x2", 3), num("prev", 1)])]),
            node("1", vec![node("3", vec![num("y2", 4), num("next", 9)])]),
        ],
    );
    let footholds = Foothold::load(&root);
    assert_eq!(
        footholds,
        vec![
            Foothold { x1: 1, y1: 2, x2: 0, y2: 0, prev: 0, next: 0 },
            Foothold { x1: 0, y1: 0, x2: 3, y2: 0, prev: 1, next: 0 },
            Foothold { x1: 0, y1: 0, x2: 0, y2: 4, prev: 0, next: 9 },
        ]
    );
}

#[test]
fn map_loading() {
    let data = map_data();
    let s = strings();
    assert!(MapData::loadable(&data, &s, 10000));
    let map = MapData::load(&data, &s, 10000).unwrap();
    assert_eq!(map.create_mob_interval, 50000);
    assert_eq!(map.field_limit, 3);
    assert_eq!(f64::from_bits(map.mob_rate), 1.5);
    assert_eq!(map.return_map_id, 10000);
    assert_eq!(map.town, 1);
    assert_eq!(map.on_user_enter, "10000");
    assert_eq!(map.on_first_user_enter, "start_script");
    assert_eq!(map.bounds, (-500, 200, -800, 900));
    assert_eq!(map.npcs.len(), 1);
    assert_eq!(map.monsters.len(), 1);
    assert_eq!(map.portals.len(), 4);
    assert_eq!(map.footholds.len(), 1);
    assert!(map.npcs.values().all(|n| n.name == "Sera" && n.object_id >= 10000000));
}

#[test]
fn map_load_errors() {
    let data = map_data();
    let s = strings();
    assert_eq!(MapData::load(&data, &s, 100000000).err(), Some(MapLoadError::AreaNotFound));
    assert_eq!(MapData::load(&data, &s, 20000).err(), Some(MapLoadError::MapNotFound));
    assert!(MapData::loadable(&data, &s, 100000000));
}

#[test]
fn map_bounds_from_minimap_or_default() {
    let info = node("info", vec![num("VRTop", 5), num("VRBottom", 5)]);
    let minimap = node("miniMap", vec![num("centerX", 100), num("centerY", -50), num("width", 640), num("height", 480)]);
    let with_minimap = map_file("000000001.img", vec![info, minimap]);
    let map = MapData::load(&with_minimap, &strings(), 1).unwrap();
    assert_eq!(map.bounds, (-100, 50, 640, 480));
    assert_eq!(map.on_user_enter, "1");
    let plain = map_file("000000002.img", vec![node("info", vec![])]);
    let map = MapData::load(&plain, &strings(), 2).unwrap();
    assert_eq!(map.bounds, (-131072, -131072, 262144, 262144));
    assert!(map.portals.is_empty() && map.npcs.is_empty() && map.footholds.is_empty());
}

#[test]
fn map_without_info_is_not_loadable() {
    let broken = map_file("000000003.img", vec![]);
    assert!(!MapData::loadable(&broken, &strings(), 3));
}

#[test]
fn closest_spawn_point_and_portal_names() {
    let map = ActiveMap::load(&map_data(), &strings(), 10000).unwrap();
    assert_eq!(map.id, 10000);
    assert!(map.spawn_distances_fit((10, 0)));
    assert!(!map.spawn_distances_fit((i32::MAX, 0)));
    let near_origin = map.get_closest_spawn_point((10, 0)).unwrap();
    assert_eq!(near_origin.x, 0);
    // A portal's y is read from its x field
    let near_right = map.get_closest_spawn_point((250, 250)).unwrap();
    assert_eq!((near_right.x, near_right.y), (300, 300));
    assert_eq!(map.get_portal_by_name("east00").unwrap().script, "go_east");
    assert!(map.get_portal_by_name("west00").is_none());
}

#[test]
fn no_spawn_point_without_spawn_portals() {
    let portals = node("portal", vec![node("0", portal("east", 2, 100, 0, ""))]);
    let data = map_file("000000004.img", vec![node("info", vec![]), portals]);
    let map = ActiveMap::load(&data, &strings(), 4).unwrap();
    assert!(map.get_closest_spawn_point((0, 0)).is_none());
}

fn quest_data() -> NxNode {
    let info = node("1000", vec![text("name", "Borrowing Sera's Mirror"), num("autoStart", 1), num("timeLimit", 30)]);
    let start_check = node("0", vec![num("npc", 2100)]);
    let complete_check = node("1", vec![num("npc", 2101), num("interval", 60), num("lvmin", 5)]);
    let check = node("1000", vec![start_check, complete_check]);
    let start_act = node("0", vec![num("exp", 100)]);
    let complete_act = node("1", vec![num("money", 50), num("nextQuest", 1001)]);
    let act = node("1000", vec![start_act, complete_act]);
    node(
        "",
        vec![
            node("QuestInfo.img", vec![info]),
            node("Check.img", vec![check]),
            node("Act.img", vec![act]),
        ],
    )
}

fn player() -> Character {
    Character::from_rows(row(1, "Hero"), vec![], vec![], vec![])
}

#[test]
fn quest_loading() {
    let quest = Quest::load(&quest_data(), 1000).unwrap();
    assert_eq!(quest.name, "Borrowing Sera's Mirror");
    assert!(quest.auto_start);
    assert!(!quest.auto_complete);
    assert_eq!(quest.time_limit, 30);
    assert_eq!(quest.start_requirements.len(), 1);
    assert_eq!(quest.complete_requirements.len(), 3);
    assert!(!quest.repeatable);
    assert!(matches!(quest.complete_requirements[1], QuestRequirementType::Interval(60)));
    assert!(matches!(&quest.complete_requirements[2], QuestRequirementType::Undefined(n) if n == "lvmin"));
    assert!(matches!(&quest.start_actions[0], QuestActionType::Exp(a) if a.exp == 100));
    assert!(matches!(&quest.complete_actions[1], QuestActionType::NextQuest(a) if a.next_quest_id == 1001));
}

#[test]
fn quest_load_errors() {
    assert_eq!(Quest::load(&quest_data(), 999).err(), Some(QuestLoadError::NoInfo(999)));
    let bad_check = node("7", vec![node("0", vec![text("npc", "not a number")])]);
    let malformed = node(
        "",
        vec![node("QuestInfo.img", vec![node("7", vec![])]), node("Check.img", vec![bad_check])],
    );
    assert!(!Quest::loadable(&malformed, 7));
    assert!(Quest::loadable(&quest_data(), 1000));
    assert!(Quest::loadable(&quest_data(), 999));
}

#[test]
fn quest_start_needs_its_npc() {
    let quest = Quest::load(&quest_data(), 1000).unwrap();
    let character = player();
    assert!(quest.can_start(&character, 2100));
    assert!(quest.start(&character, 2100));
    assert!(!quest.start(&character, 2101));
    assert!(quest.complete(&character, 2101, None));
    assert!(quest.can_complete(&character, 2101));
    assert!(!quest.complete(&character, 2100, Some(1)));
}

#[test]
fn blocked_portals() {
    let mut character = player();
    assert!(!character.is_portal_blocked("go_east"));
    character.block_portal("go_east");
    character.block_portal("go_east");
    assert!(character.is_portal_blocked("go_east"));
    assert_eq!(character.blocked_portals.len(), 1);
    assert_eq!(character.pos, (0, 0));
}
