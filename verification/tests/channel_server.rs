use slate::channel::{
    admit_connect, channel_address, channel_port, character_info_at, character_keymap,
    character_info_with, client_time, client_time_checked, client_time_now, complete_quest, complete_quest_at, connect_error,
    cooldowns_ready, delivers_to, enter_portal, forfeit_quest, general_chat, handle_general_chat,
    handle_packet, handle_world_packet, inventory_ready, move_character, move_player,
    quest_outcome, read_movement, read_portal_request, read_quest_request, spawn_character,
    spawn_character_with, spawn_npc, spawn_npc_request_controller, spawn_portal, update_quest,
    update_quest_info, write_character_inventory, write_character_quests,
    write_character_skills_at, write_equip, write_item, ChannelHandler, ChatOutcome,
    ConnectError, MoveOutcome, PortalEntry, PortalScriptEngine, QuestOutcome, QuestRequest,
    WorldHandler,
};
use slate::login::{Account, LoginState};
use slate::look::{character_list, create_character, ListedCharacter};
use slate::maple::{ActiveMap, Character, PacketBroadcast};
use slate::nx::{NxNode, NxValue};
use slate::nx_map::{Life, LifeType, Portal};
use slate::packet::Packet;
use slate::quest::Quest;
use slate::sql;

fn bytes_of(packet: &Packet) -> Vec<u8> {
    packet.bytes.to_vec()
}

fn row(id: i32, name: &str) -> sql::Character {
    sql::Character {
        id,
        account_id: 1,
        world_id: 0,
        name: name.to_string(),
        level: 30,
        job: 100,
        gm: 0,
        gender: 1,
        skin_colour: 2,
        face: 20000,
        hair: 30000,
        map: 10000,
        mesos: 1000,
        buddy_capacity: 20,
        equip_slots: 24,
        use_slots: 25,
        setup_slots: 26,
        etc_slots: 27,
        cash_slots: 48,
        guild: None,
        rank: 1,
        rank_move: 2,
        job_rank: 3,
        job_rank_move: 4,
    }
}

fn equip(position: i32, item_id: i32) -> sql::Equipment {
    sql::Equipment {
        id: 1,
        item_id,
        character_id: 1,
        position,
        amount: 1,
        upgrade_slots: 7,
        level: 0,
        item_level: 1,
        exp: 0,
        str: 1,
        dex: 2,
        int: 3,
        luk: 4,
        hp: 5,
        mp: 6,
        w_atk: 7,
        m_atk: 8,
        w_def: 9,
        m_def: 10,
        acc: 11,
        avoid: 12,
        hands: 13,
        speed: 14,
        jump: 15,
        locked: 0,
        vicious: 2,
        owner: "me".to_string(),
        flag: 0,
    }
}

fn item(tab: sql::InventoryType, position: i32, item_id: i32) -> sql::Item {
    sql::Item {
        id: 1,
        item_id,
        character_id: 1,
        inventory_type: tab,
        position,
        amount: 3,
        owner: String::new(),
        flag: 0,
    }
}

fn player() -> Character {
    Character::from_rows(row(1, "Hero"), vec![equip(-5, 1040002)], vec![], vec![])
}

#[test]
fn equip_bytes() {
    let mut packet = Packet::empty();
    write_equip(&mut packet, &equip(-105, 1302000));
    let mut expected = vec![5, 0, 1, 0xF0, 0xDD, 0x13, 0, 0];
    expected.extend_from_slice(&[0xFF; 8]);
    expected.extend_from_slice(&[7, 0]);
    for v in 1..=15u8 {
        expected.extend_from_slice(&[v, 0]);
    }
    expected.extend_from_slice(&[2, 0, b'm', b'e', 0, 0, 0, 1, 0, 0, 0, 0, 2, 0, 0, 0]);
    expected.extend_from_slice(&[0; 8]);
    expected.extend_from_slice(&94354848000000000i64.to_le_bytes());
    expected.extend_from_slice(&[0xFF; 4]);
    assert_eq!(bytes_of(&packet), expected);
}

#[test]
fn item_bytes() {
    let mut packet = Packet::empty();
    write_item(&mut packet, &item(sql::InventoryType::Use, 0, 2000000));
    let mut expected = vec![1, 2, 0x80, 0x84, 0x1E, 0, 0];
    expected.extend_from_slice(&[0xFF; 8]);
    expected.extend_from_slice(&[3, 0, 0, 0, 0, 0]);
    assert_eq!(bytes_of(&packet), expected);
}

#[test]
fn inventory_lists_tabs_in_order() {
    let mut character = player();
    character.equipment = vec![];
    character.items = vec![
        item(sql::InventoryType::Etc, 1, 4000000),
        item(sql::InventoryType::Use, 0, 2000000),
        item(sql::InventoryType::Etc, 2, 4000001),
    ];
    assert!(inventory_ready(&character));
    let mut packet = Packet::empty();
    write_character_inventory(&mut packet, &character);
    let mut with_items = Packet::empty();
    with_items.write_bytes(&[24, 25, 26, 27, 48]);
    with_items.write_long(94354848000000000);
    with_items.write_short(0);
    with_items.write_short(0);
    with_items.write_int(0);
    write_item(&mut with_items, &character.items[1]);
    with_items.write_byte(0);
    with_items.write_byte(0);
    write_item(&mut with_items, &character.items[0]);
    write_item(&mut with_items, &character.items[2]);
    with_items.write_byte(0);
    assert_eq!(bytes_of(&packet), bytes_of(&with_items));
}

#[test]
fn inventory_positions_that_cannot_be_written() {
    let mut character = player();
    assert!(inventory_ready(&character));
    character.equipment = vec![equip(i32::MIN, 1)];
    assert!(!inventory_ready(&character));
    character.equipment = vec![];
    character.items = vec![item(sql::InventoryType::Use, i32::MAX, 1)];
    assert!(!inventory_ready(&character));
}

#[test]
fn skills_and_cooldowns_at_a_time() {
    let mut character = player();
    character.skills = vec![sql::Skill { id: 1001, character_id: 1, level: 3, mastery: 0, expiration: -1 }];
    character.cooldowns = vec![
        sql::Cooldown { character_id: 1, skill_id: 1001, start: 1000, length: 5500 },
        sql::Cooldown { character_id: 1, skill_id: 1002, start: 0, length: 0 },
    ];
    assert!(cooldowns_ready(&character.cooldowns, 2000));
    let mut packet = Packet::empty();
    write_character_skills_at(&mut packet, &character, 2000);
    let mut expected = vec![0, 1, 0, 0xE9, 3, 0, 0, 3, 0, 0, 0];
    expected.extend_from_slice(&[0xFF; 8]);
    expected.extend_from_slice(&[2, 0, 0xE9, 3, 0, 0, 4, 0, 0xEA, 3, 0, 0, 0xFE, 0xFF]);
    assert_eq!(bytes_of(&packet), expected);
    let overflow = vec![sql::Cooldown { character_id: 1, skill_id: 1, start: i64::MAX, length: 1 }];
    assert!(!cooldowns_ready(&overflow, 0));
}

#[test]
fn quests_grouped_by_status() {
    let mut character = player();
    let quest = |id, status, completed| sql::Quest {
        id,
        character_id: 1,
        status,
        time: 0,
        expires: 0,
        forfeited: 0,
        completed,
        info: 0,
    };
    character.quests = vec![
        quest(10, sql::QuestStatus::Completed, 77),
        quest(11, sql::QuestStatus::Started, 0),
        quest(12, sql::QuestStatus::NotStarted, 0),
        quest(13, sql::QuestStatus::Started, 0),
    ];
    let mut packet = Packet::empty();
    write_character_quests(&mut packet, &character);
    let expected = vec![2, 0, 11, 0, 0, 0, 13, 0, 0, 0, 1, 0, 10, 0, 77, 0, 0, 0, 0, 0, 0, 0];
    assert_eq!(bytes_of(&packet), expected);
}

#[test]
fn keymap_covers_all_keys_with_last_binding() {
    let mut character = player();
    character.keymaps = vec![
        sql::Keymap { character_id: 1, key_id: 2, key_type: 4, action: 10 },
        sql::Keymap { character_id: 1, key_id: 2, key_type: 5, action: 11 },
        sql::Keymap { character_id: 1, key_id: 89, key_type: 6, action: 12 },
        sql::Keymap { character_id: 1, key_id: 90, key_type: 7, action: 13 },
    ];
    let bytes = bytes_of(&character_keymap(&character));
    assert_eq!(bytes.len(), 453);
    assert_eq!(&bytes[0..3], &[0x4F, 0x01, 0]);
    assert_eq!(&bytes[3 + 5 * 2..3 + 5 * 3], &[5, 11, 0, 0, 0]);
    assert_eq!(&bytes[3 + 5 * 89..], &[6, 12, 0, 0, 0]);
    assert_eq!(&bytes[3..8], &[0, 0, 0, 0, 0]);
}

#[test]
fn connect_error_packet() {
    assert_eq!(bytes_of(&connect_error(ConnectError::Unknown)), vec![9, 0, 9, 0]);
}

#[test]
fn client_clock() {
    assert_eq!(client_time(0, 0), 116444736010800000);
    assert_eq!(client_time(1000, 3600), 10000000 + 116444736010800000 + 36000000000);
    let now = client_time_now().unwrap();
    assert_eq!(now % 10000, 0);
    assert!(now > 116444736010800000 + 10000 * 1_600_000_000_000 - 864_000_000_000);
}

#[test]
fn character_info_with_given_values() {
    let character = player();
    let stats = [9u8, 9, 9];
    let packet = character_info_at(4, &character, &stats, (1, 2, 3), 0, 0);
    let bytes = bytes_of(&packet);
    assert_eq!(&bytes[0..19], &[0x7D, 0, 4, 0, 0, 0, 1, 1, 0, 0, 1, 0, 0, 0, 2, 0, 0, 0, 3]);
    assert_eq!(&bytes[19..22], &[0, 0, 0]);
    assert_eq!(&bytes[22..31], &[0xFF, 0xFF, 0xFF, 0xFF, 0xFF, 0xFF, 0xFF, 0xFF, 0]);
    assert_eq!(&bytes[31..34], &stats);
    assert_eq!(&bytes[34..40], &[20, 0, 0xE8, 3, 0, 0]);
    assert_eq!(&bytes[bytes.len() - 8..], &116444736010800000i64.to_le_bytes());
}

#[test]
fn character_info_now() {
    let character = player();
    let packet = slate::channel::character_info(4, &character, &[1, 2]).unwrap();
    let fixed = character_info_at(4, &character, &[1, 2], (0, 0, 0), 0, 0);
    assert_eq!(packet.len(), fixed.len());
}

#[test]
fn spawned_character_and_buffs() {
    let character = player();
    let a = bytes_of(&spawn_character_with(&character, true, 0x11223344));
    let b = bytes_of(&spawn_character_with(&character, false, 0x11223344));
    assert_eq!(&a[0..13], &[0xA0, 0, 1, 0, 0, 0, 30, 4, 0, b'H', b'e', b'r', b'o']);
    assert_eq!(a.len(), b.len());
    let magic = 0x11223344i32.to_le_bytes();
    assert_eq!(&a[92..96], &magic);
    let random = bytes_of(&spawn_character(&character, true));
    assert_eq!(random.len(), a.len());
    assert_eq!(&random[0..92], &a[0..92]);
    // Entering: just above the origin with stance 6
    let n = a.len();
    assert_eq!(&a[n - 30..n - 25], &[0, 0, 0xD6, 0xFF, 6]);
    assert_eq!(&b[n - 30..n - 25], &[0, 0, 0, 0, 0]);
}

fn npc() -> Life {
    Life {
        id: 2100,
        life_type: LifeType::NPC,
        name: "Sera".to_string(),
        position: (-10, 20),
        object_id: 10000001,
        stance: 0,
        f: 1,
        is_hidden: false,
        fh: 4,
        start_fh: 4,
        cy: 22,
        rx0: -60,
        rx1: 40,
        mob_time: 0,
    }
}

#[test]
fn npc_and_portal_packets() {
    let body = vec![0x81, 0x96, 0x98, 0, 0x34, 8, 0, 0, 0xF6, 0xFF, 22, 0, 0, 4, 0, 0xC4, 0xFF, 40, 0, 1];
    let mut spawn = vec![0x01, 0x01];
    spawn.extend_from_slice(&body);
    assert_eq!(bytes_of(&spawn_npc(&npc())), spawn);
    let mut control = vec![0x03, 0x01, 1];
    control.extend_from_slice(&body);
    assert_eq!(bytes_of(&spawn_npc_request_controller(&npc())), control);
    let portal = Portal {
        id: 0,
        name: "sp".to_string(),
        script: String::new(),
        target: String::new(),
        target_map_id: 999999999,
        type_: 0,
        x: -5,
        y: 7,
    };
    assert_eq!(
        bytes_of(&spawn_portal(10000, &portal)),
        vec![0x43, 0, 0x10, 0x27, 0, 0, 0xFF, 0xC9, 0x9A, 0x3B, 0xFB, 0xFF, 7, 0]
    );
}

#[test]
fn quest_packets() {
    assert_eq!(bytes_of(&update_quest(1000, false)), vec![0x27, 0, 1, 0xE8, 3, 1, 0, 0, 0, 0, 0, 0, 0]);
    assert_eq!(bytes_of(&update_quest(1000, true)), vec![0x27, 0, 1, 0xE8, 3, 0, 0, 0, 0, 0, 0, 0]);
    assert_eq!(bytes_of(&update_quest_info(1000, 2100)), vec![0xD3, 0, 8, 0xE8, 3, 0x34, 8, 0, 0, 0, 0, 0, 0]);
    let mut done = vec![0x27, 0, 1, 0xE8, 3, 2];
    done.extend_from_slice(&5i64.to_le_bytes());
    assert_eq!(bytes_of(&complete_quest_at(1000, 5)), done);
    let now = bytes_of(&complete_quest(1000).unwrap());
    assert_eq!(&now[0..6], &[0x27, 0, 1, 0xE8, 3, 2]);
    assert_ne!(&now[6..], &[0u8; 8]);
    assert_eq!(bytes_of(&forfeit_quest(1000)), vec![0x27, 0, 1, 0xE8, 3, 0]);
}

#[test]
fn quest_requests() {
    let mut start = Packet::empty();
    start.write_byte(1);
    start.write_short(1000);
    start.write_int(2100);
    assert_eq!(read_quest_request(&mut start), Some((1000, QuestRequest::Start { npc_id: 2100 })));
    let mut complete = Packet::empty();
    complete.write_byte(2);
    complete.write_short(1000);
    complete.write_int(2101);
    complete.write_short(3);
    assert_eq!(
        read_quest_request(&mut complete),
        Some((1000, QuestRequest::Complete { npc_id: 2101, selection: Some(3) }))
    );
    let mut no_selection = Packet::empty();
    no_selection.write_byte(2);
    no_selection.write_short(1000);
    no_selection.write_int(2101);
    no_selection.write_byte(9);
    assert_eq!(
        read_quest_request(&mut no_selection),
        Some((1000, QuestRequest::Complete { npc_id: 2101, selection: None }))
    );
    for (action, expected) in [
        (0u8, QuestRequest::RestoreLostItem),
        (3, QuestRequest::Forfeit),
        (4, QuestRequest::ScriptedStart),
        (5, QuestRequest::ScriptedComplete),
        (9, QuestRequest::Invalid { action: 9 }),
    ] {
        let mut packet = Packet::empty();
        packet.write_byte(action);
        packet.write_short(7);
        assert_eq!(read_quest_request(&mut packet), Some((7, expected)));
    }
    let mut short = Packet::empty();
    short.write_byte(1);
    short.write_short(7);
    assert_eq!(read_quest_request(&mut short), None);
}

fn node(name: &str, children: Vec<NxNode>) -> NxNode {
    NxNode { name: name.to_string(), value: NxValue::Empty, children }
}

fn num(name: &str, v: i64) -> NxNode {
    NxNode { name: name.to_string(), value: NxValue::Integer(v), children: vec![] }
}

fn text(name: &str, v: &str) -> NxNode {
    NxNode { name: name.to_string(), value: NxValue::Text(v.to_string()), children: vec![] }
}

#[test]
fn quest_outcomes() {
    let check = node("5", vec![node("0", vec![num("npc", 10)]), node("1", vec![num("npc", 11)])]);
    let data = node(
        "",
        vec![node("QuestInfo.img", vec![node("5", vec![])]), node("Check.img", vec![check])],
    );
    let quest = Quest::load(&data, 5).unwrap();
    let character = player();
    assert_eq!(quest_outcome(QuestRequest::Start { npc_id: 10 }, &quest, &character), QuestOutcome::Started);
    assert_eq!(quest_outcome(QuestRequest::Start { npc_id: 11 }, &quest, &character), QuestOutcome::Nothing);
    assert_eq!(
        quest_outcome(QuestRequest::Complete { npc_id: 11, selection: None }, &quest, &character),
        QuestOutcome::Completed
    );
    assert_eq!(quest_outcome(QuestRequest::Forfeit, &quest, &character), QuestOutcome::Forfeited);
    assert_eq!(quest_outcome(QuestRequest::ScriptedStart, &quest, &character), QuestOutcome::Nothing);
}

fn movement_packet(commands: &[&[u8]]) -> Packet {
    let mut packet = Packet::empty();
    packet.write_bytes(&[0; 9]);
    packet.write_byte(commands.len() as u8);
    for c in commands {
        packet.write_bytes(c);
    }
    packet
}

#[test]
fn movement_parsing() {
    let absolute: &[u8] = &[0, 0x2C, 0x01, 0xFE, 0xFF, 0, 0, 0, 0, 0, 0, 4, 0, 0];
    let relative: &[u8] = &[1, 0, 0, 0, 0, 7, 0, 0];
    let mut packet = movement_packet(&[absolute, relative, &[10, 0], &[99]]);
    let movement = read_movement(&mut packet).unwrap();
    assert_eq!(movement.position, Some((300, -2)));
    assert_eq!(movement.stance, Some(7));
    let mut truncated = movement_packet(&[&absolute[..10]]);
    assert!(read_movement(&mut truncated).is_none());
    let mut still = movement_packet(&[&[14, 0, 0, 0, 0, 0, 0, 0, 0, 0], &[21, 0, 0, 0]]);
    let movement = read_movement(&mut still).unwrap();
    assert_eq!((movement.position, movement.stance), (None, None));
}

#[test]
fn moving_a_character() {
    let mut character = player();
    let teleport: &[u8] = &[3, 0, 0, 0, 0, 0, 0, 0, 0, 5];
    let packet = movement_packet(&[teleport]);
    let movement_bytes = bytes_of(&packet)[9..].to_vec();
    match move_character(&mut character, packet) {
        MoveOutcome::Moved(b) => {
            let mut expected = vec![0xB9, 0, 1, 0, 0, 0, 0, 0, 0, 0];
            expected.extend_from_slice(&movement_bytes);
            assert_eq!(bytes_of(&b.packet), expected);
            assert_eq!(b.sender_id, 1);
            assert!(!b.send_to_sender);
        }
        _ => panic!("the character moved"),
    }
    assert_eq!(character.stance, 5);
    assert_eq!(character.pos, (0, 0));
    let still = movement_packet(&[&[10, 0]]);
    assert!(matches!(move_character(&mut character, still), MoveOutcome::Still));
    let broken = movement_packet(&[&[15, 0]]);
    assert!(matches!(move_character(&mut character, broken), MoveOutcome::Malformed));
    assert_eq!(character.stance, 5);
}

#[test]
fn move_player_packet() {
    let mut data = Packet::empty();
    data.write_bytes(&[1, 2, 3]);
    assert_eq!(bytes_of(&move_player(9, &data)), vec![0xB9, 0, 9, 0, 0, 0, 0, 0, 0, 0, 1, 2, 3]);
}

#[test]
fn routing_packets() {
    let mut connect = Packet::new(0x14);
    assert_eq!(handle_packet(&mut connect), Some(ChannelHandler::Connect));
    let mut moving = Packet::new(0x29);
    assert_eq!(handle_packet(&mut moving), Some(ChannelHandler::MoveCharacter));
    let mut quest = Packet::new(0x6B);
    assert_eq!(handle_packet(&mut quest), Some(ChannelHandler::QuestAction));
    let mut chat = Packet::new(0x31);
    assert_eq!(handle_packet(&mut chat), Some(ChannelHandler::Unhandled { op_code: 0x31 }));
    let mut chat = Packet::new(0x31);
    assert_eq!(handle_world_packet(&mut chat), Some(WorldHandler::GeneralChat));
    let mut other = Packet::new(0x14);
    assert_eq!(handle_world_packet(&mut other), Some(WorldHandler::Connect));
    let mut empty = Packet::empty();
    assert_eq!(handle_packet(&mut empty), None);
}

#[test]
fn broadcast_delivery() {
    let own = PacketBroadcast { packet: Packet::empty(), sender_id: 1, send_to_sender: false };
    assert!(!delivers_to(&own, 1));
    assert!(delivers_to(&own, 2));
    let to_all = PacketBroadcast { packet: Packet::empty(), sender_id: 1, send_to_sender: true };
    assert!(delivers_to(&to_all, 1));
}

fn account(state: LoginState) -> Account {
    Account {
        id: 1,
        name: "a".to_string(),
        password: String::new(),
        state,
        banned: false,
        tos: true,
        pin: String::new(),
        pic: String::new(),
        gender: 0,
    }
}

#[test]
fn admitting_connections() {
    assert_eq!(admit_connect(Some(&account(LoginState::Transitioning))), Ok(()));
    assert_eq!(admit_connect(Some(&account(LoginState::LoggedIn))), Err(ConnectError::Unknown));
    assert_eq!(admit_connect(None), Err(ConnectError::Unknown));
}

#[test]
fn channel_ports_and_addresses() {
    assert_eq!(channel_port(10000, 1, 1), 10000);
    assert_eq!(channel_port(10000, 2, 2), 11001);
    assert_eq!(channel_address("127.0.0.1", 11001), "127.0.0.1:11001");
}

#[test]
fn portal_scripts() {
    assert_eq!(PortalScriptEngine::script_path("go_east"), "slate-channel/scripts/portal/go_east.js");
    assert!(PortalScriptEngine::has_level_30_character(&vec![10, 30]));
    assert!(!PortalScriptEngine::has_level_30_character(&vec![10, 29]));
    assert!(!PortalScriptEngine::has_level_30_character(&vec![]));
}

fn map() -> ActiveMap {
    let portal = |name: &str, script: &str| {
        vec![text("pn", name), num("pt", 2), num("tm", 100), text("script", script)]
    };
    let portals = node("portal", vec![node("0", portal("in00", "enter_shop")), node("1", portal("out00", ""))]);
    let image = node("000000005.img", vec![node("info", vec![]), portals]);
    let area = node("Map0", vec![image]);
    let data = node("", vec![node("Map", vec![area])]);
    ActiveMap::load(&data, &node("", vec![]), 5).unwrap()
}

#[test]
fn entering_portals() {
    let map = map();
    let mut character = player();
    assert!(matches!(enter_portal(&map, &character, "nowhere"), PortalEntry::EnableActions));
    assert!(matches!(enter_portal(&map, &character, "out00"), PortalEntry::Stay));
    match enter_portal(&map, &character, "in00") {
        PortalEntry::RunScript(s) => assert_eq!(s, "enter_shop"),
        _ => panic!("the portal has a script"),
    }
    character.block_portal("enter_shop");
    assert!(matches!(enter_portal(&map, &character, "in00"), PortalEntry::EnableActions));
    let mut request = Packet::empty();
    request.write_byte(1);
    request.write_string("in00");
    request.write_short(0);
    assert_eq!(read_portal_request(&mut request), Some("in00".to_string()));
    let mut short = Packet::empty();
    short.write_byte(1);
    short.write_string("in00");
    assert_eq!(read_portal_request(&mut short), None);
}

#[test]
fn general_chat_packets() {
    let character = player();
    assert_eq!(
        bytes_of(&general_chat(&character, "hi", 1)),
        vec![0xA2, 0, 1, 0, 0, 0, 0, 2, 0, b'h', b'i', 1]
    );
    let mut packet = Packet::empty();
    packet.write_string("hello");
    packet.write_byte(0);
    match handle_general_chat(&character, &mut packet) {
        ChatOutcome::Broadcast(b) => {
            assert_eq!(bytes_of(&b.packet), bytes_of(&general_chat(&character, "hello", 0)));
            assert_eq!(b.sender_id, character.data.id);
            assert!(b.send_to_sender);
        }
        _ => panic!("a short message is shown"),
    }
    let long = "x".repeat(128);
    let mut packet = Packet::empty();
    packet.write_string(&long);
    packet.write_byte(0);
    assert!(matches!(handle_general_chat(&character, &mut packet), ChatOutcome::Disconnect));
    let mut ok = Packet::empty();
    ok.write_string(&"x".repeat(127));
    assert!(matches!(handle_general_chat(&character, &mut ok), ChatOutcome::Malformed));
}

#[test]
fn character_list_and_creation() {
    let listed = ListedCharacter { character: row(1, "Hero"), equipment: vec![equip(-5, 1040002)], stats: vec![7, 7] };
    let mut session = slate::login::Session::new(1);
    session.pic = "1".to_string();
    let config = slate::login::Config { enable_pin: false, enable_pic: true, worlds: vec![] };
    let packet = bytes_of(&character_list(&vec![listed], &session, &config));
    let mut entry = vec![7, 7, 1, 2, 0x20, 0x4E, 0, 0, 1, 0x30, 0x75, 0, 0, 0xFB, 0x82, 0xDE, 0x0F, 0];
    entry.extend_from_slice(&[0xFF, 0xFF, 0, 0, 0, 0, 0, 0, 0, 0, 0, 0, 0, 0, 0, 0, 0, 0]);
    entry.push(0);
    entry.extend_from_slice(&[1, 1, 0, 0, 0, 2, 0, 0, 0, 3, 0, 0, 0, 4, 0, 0, 0]);
    let mut expected = vec![0x0B, 0, 0, 1];
    expected.extend_from_slice(&entry);
    expected.extend_from_slice(&[1, 3, 0, 0, 0]);
    assert_eq!(packet, expected);
    let mut gm = row(2, "Boss");
    gm.gm = 2;
    let created = ListedCharacter { character: gm, equipment: vec![], stats: vec![] };
    let bytes = bytes_of(&create_character(&created));
    assert_eq!(&bytes[0..3], &[0x0E, 0, 0]);
    assert_eq!(&bytes[bytes.len() - 2..], &[0, 0]);
}

#[test]
fn client_clock_checked() {
    assert_eq!(client_time_checked(0, 0), Some(116444736010800000));
    assert_eq!(client_time_checked(1, 3600), Some(116444772010810000));
    assert_eq!(client_time_checked(i64::MAX, 0), None);
    assert_eq!(client_time_checked(i64::MIN, 0), None);
    assert_eq!(client_time_checked(922337203685477, 0), None);
    assert_eq!(client_time_checked(-922337203685477, 0), Some(-9223372036854770000 + 116444736010800000));
}

#[test]
fn character_info_with_checks_the_time() {
    let character = player();
    let fixed = bytes_of(&character_info_at(4, &character, &[1, 2], (1, 2, 3), 0, 0));
    let packet = character_info_with(4, &character, &[1, 2], (1, 2, 3), 0, 0).unwrap();
    assert_eq!(bytes_of(&packet), fixed);
    assert!(character_info_with(4, &character, &[1, 2], (1, 2, 3), i64::MAX, 0).is_none());
    let mut cooling = player();
    cooling.cooldowns = vec![sql::Cooldown { character_id: 1, skill_id: 5, start: i64::MAX, length: 1 }];
    assert!(character_info_with(4, &cooling, &[1, 2], (1, 2, 3), 0, 0).is_none());
}
