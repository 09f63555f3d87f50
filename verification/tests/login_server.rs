use slate::login::{
    character_name_valid, count_login_attempt, decide_login, decide_tos, delete_character,
    handle_delete_character, handle_pin_operation, handle_register_pic, handle_register_pin,
    handle_select_character, handle_select_character_pic, invalid_pic, login_failed,
    login_succeeded, pic_flag, pin_operation, pin_registered, read_character_creation,
    recommended_world, select_world_channel, tos_accepted, valid_name,
    validate_character_creation, world_info, world_list_end, world_server_addr, world_status,
    world_status_for, Account, CharacterCreation, Config, DeleteAction, DeleteReason, LoginAction,
    LoginError, LoginState, PicAction, PinAction, PinOperation, Session, WorldConfig,
    WorldStatus,
};
use slate::login::{
    handle_login_packet, parse_world_ip, requested_world, world_status_of, LoginHandler,
    SessionError,
};
use slate::packet::Packet;

fn bytes_of(packet: &Packet) -> Vec<u8> {
    packet.bytes.to_vec()
}

fn account(password: &str, state: LoginState, banned: bool, tos: bool) -> Account {
    Account {
        id: 7,
        name: "admin".to_string(),
        password: password.to_string(),
        state,
        banned,
        tos,
        pin: "1234".to_string(),
        pic: "5678".to_string(),
        gender: 1,
    }
}

fn hash(password: &str) -> String {
    argon2::hash_encoded(password.as_bytes(), b"somesaltsalt", &argon2::Config::default()).unwrap()
}

fn world(id: u8, name: &str, channels: u8) -> WorldConfig {
    WorldConfig {
        id,
        name: name.to_string(),
        channels,
        flag: 2,
        event_message: "Hi".to_string(),
        recommended_message: "Go".to_string(),
        exp_rate: 1,
        meso_rate: 1,
        drop_rate: 1,
        boss_drop_rate: 1,
        quest_rate: 1,
        fishing_rate: 1,
        travel_rate: 1,
        max_players: 100,
    }
}

fn config(enable_pin: bool, enable_pic: bool) -> Config {
    Config { enable_pin, enable_pic, worlds: vec![world(0, "Scania", 2)] }
}

fn string_packet(texts: &[&str]) -> Packet {
    let mut packet = Packet::empty();
    for t in texts {
        packet.write_string(t);
    }
    packet
}

#[test]
fn fresh_session() {
    let session = Session::new(3);
    assert_eq!(session.id, 3);
    assert_eq!(session.account_id, -1);
    assert_eq!(session.character_id, -1);
    assert_eq!(session.login_attempts, 0);
    assert!(session.pin.is_empty());
    assert!(session.pic.is_empty());
    assert!(!session.tos);
}

#[test]
fn only_five_login_attempts_go_through() {
    let mut session = Session::new(1);
    let allowed: Vec<bool> = (0..8).map(|_| count_login_attempt(&mut session)).collect();
    assert_eq!(allowed, vec![true, true, true, true, true, false, false, false]);
    assert_eq!(session.login_attempts, 5);
}

#[test]
fn login_failed_codes() {
    assert_eq!(bytes_of(&login_failed(LoginError::AccountBanned)), vec![0, 0, 3, 0, 0, 0, 0, 0]);
    assert_eq!(bytes_of(&login_failed(LoginError::IncorrectPassword)), vec![0, 0, 4, 0, 0, 0, 0, 0]);
    assert_eq!(bytes_of(&login_failed(LoginError::AccountNotFound)), vec![0, 0, 5, 0, 0, 0, 0, 0]);
    assert_eq!(bytes_of(&login_failed(LoginError::TooManyAttempts)), vec![0, 0, 6, 0, 0, 0, 0, 0]);
    assert_eq!(bytes_of(&login_failed(LoginError::AlreadyLoggedIn)), vec![0, 0, 7, 0, 0, 0, 0, 0]);
    assert_eq!(bytes_of(&login_failed(LoginError::PromptTOS)), vec![0, 0, 0x17, 0, 0, 0, 0, 0]);
}

#[test]
fn login_unknown_account() {
    let mut session = Session::new(1);
    let mut packet = string_packet(&["secret"]);
    let action = decide_login(&mut session, None, &mut packet);
    assert_eq!(action, Some(LoginAction::Refuse(LoginError::AccountNotFound)));
    assert_eq!(session.account_id, -1);
}

#[test]
fn login_accepted_with_hash() {
    let mut session = Session::new(1);
    let acc = account(&hash("secret"), LoginState::LoggedOut, false, true);
    let mut packet = string_packet(&["secret"]);
    packet.write_bytes(&[0; 10]);
    let action = decide_login(&mut session, Some(&acc), &mut packet);
    assert_eq!(action, Some(LoginAction::Accept));
    assert_eq!(session.account_id, 7);
    assert_eq!(session.pin, "1234");
    assert_eq!(session.pic, "5678");
    assert!(session.tos);
    assert_eq!(packet.remaining(), 0);
}

#[test]
fn login_with_undecodable_hash_is_refused() {
    let mut session = Session::new(1);
    let acc = account("not a hash", LoginState::LoggedOut, false, true);
    let mut packet = string_packet(&["secret"]);
    packet.write_bytes(&[0; 10]);
    let action = decide_login(&mut session, Some(&acc), &mut packet);
    assert_eq!(action, Some(LoginAction::Refuse(LoginError::IncorrectPassword)));
    assert_eq!(session.account_id, -1);
}

#[test]
fn login_only_refuses_a_hash_it_cannot_check() {
    // Only a hash that cannot be checked refuses a password: a decodable one lets any through.
    let mut session = Session::new(1);
    let acc = account(&hash("secret"), LoginState::LoggedOut, false, true);
    let mut packet = string_packet(&["wrong"]);
    packet.write_bytes(&[0; 10]);
    assert_eq!(decide_login(&mut session, Some(&acc), &mut packet), Some(LoginAction::Accept));
}

#[test]
fn login_refusals_in_order() {
    let encoded = hash("pw");
    let mut session = Session::new(1);
    let logged_in = account(&encoded, LoginState::LoggedIn, true, false);
    let mut packet = string_packet(&["pw"]);
    assert_eq!(
        decide_login(&mut session, Some(&logged_in), &mut packet),
        Some(LoginAction::Refuse(LoginError::AlreadyLoggedIn))
    );
    let banned = account(&encoded, LoginState::LoggedOut, true, false);
    let mut packet = string_packet(&["pw"]);
    assert_eq!(
        decide_login(&mut session, Some(&banned), &mut packet),
        Some(LoginAction::Refuse(LoginError::AccountBanned))
    );
    let no_tos = account(&encoded, LoginState::LoggedOut, false, false);
    let mut packet = string_packet(&["pw"]);
    assert_eq!(decide_login(&mut session, Some(&no_tos), &mut packet), Some(LoginAction::PromptTos));
    assert_eq!(session.account_id, 7);
}

#[test]
fn login_needs_hardware_id() {
    let mut session = Session::new(1);
    let acc = account(&hash("pw"), LoginState::LoggedOut, false, true);
    let mut packet = string_packet(&["pw"]);
    packet.write_bytes(&[0; 9]);
    assert_eq!(decide_login(&mut session, Some(&acc), &mut packet), None);
    let mut empty = Packet::empty();
    assert_eq!(decide_login(&mut session, Some(&acc), &mut empty), None);
}

#[test]
fn login_succeeded_bytes() {
    let session = Session::new(1);
    let acc = account("x", LoginState::LoggedOut, false, true);
    let packet = login_succeeded(&acc, &session, &config(false, true));
    let mut expected = vec![0, 0, 0, 0, 0, 0, 0, 0, 7, 0, 0, 0, 1, 0, 0, 0, 5, 0];
    expected.extend_from_slice(b"admin");
    expected.extend_from_slice(&[0, 0]);
    expected.extend_from_slice(&[0; 16]);
    expected.extend_from_slice(&[1, 0, 0, 0, 1, 0]);
    assert_eq!(bytes_of(&packet), expected);
}

#[test]
fn pic_flags() {
    assert_eq!(pic_flag(true, &String::new()), 0);
    assert_eq!(pic_flag(true, &"1".to_string()), 1);
    assert_eq!(pic_flag(false, &"1".to_string()), 2);
}

#[test]
fn terms_of_service() {
    assert!(tos_accepted(1));
    assert!(!tos_accepted(0));
    let mut session = Session::new(1);
    assert!(!decide_tos(&mut session, None));
    let busy = account("x", LoginState::LoggedIn, false, true);
    assert!(!decide_tos(&mut session, Some(&busy)));
    assert_eq!(session.account_id, -1);
    let ok = account("x", LoginState::LoggedOut, false, true);
    assert!(decide_tos(&mut session, Some(&ok)));
    assert_eq!(session.account_id, 7);
    assert_eq!(session.pin, "1234");
}

#[test]
fn pin_packets() {
    assert_eq!(bytes_of(&pin_operation(PinOperation::Accepted)), vec![6, 0, 0]);
    assert_eq!(bytes_of(&pin_operation(PinOperation::Register)), vec![6, 0, 1]);
    assert_eq!(bytes_of(&pin_operation(PinOperation::Invalid)), vec![6, 0, 2]);
    assert_eq!(bytes_of(&pin_operation(PinOperation::Request)), vec![6, 0, 4]);
    assert_eq!(bytes_of(&pin_registered()), vec![7, 0, 0]);
}

fn pin_request(a: u8, b: u8, pin: Option<&str>) -> Packet {
    let mut packet = Packet::empty();
    packet.write_byte(a);
    packet.write_byte(b);
    if let Some(p) = pin {
        packet.write_string(p);
    }
    packet
}

#[test]
fn pin_asked_or_registered_after_login() {
    let mut session = Session::new(1);
    let mut packet = pin_request(1, 1, None);
    assert_eq!(handle_pin_operation(&mut packet, &mut session), Some(PinAction::Reply(PinOperation::Register)));
    session.pin = "1111".to_string();
    let mut packet = pin_request(1, 1, None);
    assert_eq!(handle_pin_operation(&mut packet, &mut session), Some(PinAction::Reply(PinOperation::Request)));
}

#[test]
fn right_pin_clears_wrong_attempts() {
    let mut session = Session::new(1);
    session.pin = "1111".to_string();
    let mut wrong = pin_request(1, 0, Some("2222"));
    assert_eq!(handle_pin_operation(&mut wrong, &mut session), Some(PinAction::Reply(PinOperation::Invalid)));
    assert_eq!(session.pin_attempts, 1);
    let mut right = pin_request(1, 0, Some("1111"));
    assert_eq!(handle_pin_operation(&mut right, &mut session), Some(PinAction::Reply(PinOperation::Accepted)));
    assert_eq!(session.pin_attempts, 0);
    let mut change = pin_request(2, 0, Some("1111"));
    assert_eq!(handle_pin_operation(&mut change, &mut session), Some(PinAction::Reply(PinOperation::Register)));
}

#[test]
fn six_wrong_pins_lock_out() {
    let mut session = Session::new(1);
    session.pin = "1111".to_string();
    for _ in 0..6 {
        let mut wrong = pin_request(1, 0, Some("0000"));
        assert_eq!(handle_pin_operation(&mut wrong, &mut session), Some(PinAction::Reply(PinOperation::Invalid)));
    }
    assert_eq!(session.pin_attempts, 6);
    let mut right = pin_request(1, 0, Some("1111"));
    assert_eq!(handle_pin_operation(&mut right, &mut session), Some(PinAction::Disconnect));
    assert_eq!(session.pin_attempts, 6);
}

#[test]
fn pin_request_edge_cases() {
    let mut session = Session::new(1);
    let mut empty = Packet::empty();
    assert_eq!(handle_pin_operation(&mut empty, &mut session), None);
    let mut one_byte = Packet::empty();
    one_byte.write_byte(1);
    assert_eq!(handle_pin_operation(&mut one_byte, &mut session), Some(PinAction::Reply(PinOperation::Invalid)));
    let mut missing_pin = pin_request(1, 0, None);
    assert_eq!(handle_pin_operation(&mut missing_pin, &mut session), None);
}

#[test]
fn register_pin() {
    let mut session = Session::new(1);
    let mut cancelled = Packet::empty();
    cancelled.write_byte(0);
    assert_eq!(handle_register_pin(&mut cancelled, &mut session), Some(None));
    let mut packet = Packet::empty();
    packet.write_byte(1);
    packet.write_string("4321");
    assert_eq!(handle_register_pin(&mut packet, &mut session), Some(Some("4321".to_string())));
    assert_eq!(session.pin, "4321");
    let mut blank = Packet::empty();
    blank.write_byte(1);
    blank.write_string("");
    assert_eq!(handle_register_pin(&mut blank, &mut session), Some(None));
    assert_eq!(session.pin, "4321");
}

fn select_packet(pic: Option<&str>, id: i32) -> Packet {
    let mut packet = Packet::empty();
    if let Some(p) = pic {
        packet.write_string(p);
    }
    packet.write_int(id);
    packet.write_string("00-11-22-33-44-55");
    packet.write_string("host");
    packet
}

#[test]
fn select_character_reads_id() {
    let mut session = Session::new(1);
    let mut packet = select_packet(None, 42);
    assert!(handle_select_character(&mut packet, &mut session));
    assert_eq!(session.character_id, 42);
    let mut short = Packet::empty();
    short.write_int(5);
    assert!(!handle_select_character(&mut short, &mut session));
    assert_eq!(session.character_id, 42);
}

#[test]
fn select_character_with_pic() {
    let mut session = Session::new(1);
    session.pic = "9999".to_string();
    let mut wrong = select_packet(Some("0000"), 42);
    assert_eq!(handle_select_character_pic(&mut wrong, &mut session), Some(PicAction::InvalidPic));
    assert_eq!(session.character_id, -1);
    let mut right = select_packet(Some("9999"), 42);
    assert_eq!(handle_select_character_pic(&mut right, &mut session), Some(PicAction::Proceed));
    assert_eq!(session.character_id, 42);
    assert_eq!(session.pic_attempts, 2);
    assert_eq!(bytes_of(&invalid_pic()), vec![0x1C, 0, 0]);
}

#[test]
fn pic_attempts_are_capped_at_six() {
    let mut session = Session::new(1);
    session.pic = "9999".to_string();
    for _ in 0..6 {
        let mut wrong = select_packet(Some("0000"), 1);
        assert_eq!(handle_select_character_pic(&mut wrong, &mut session), Some(PicAction::InvalidPic));
    }
    let mut right = select_packet(Some("9999"), 1);
    assert_eq!(handle_select_character_pic(&mut right, &mut session), Some(PicAction::Disconnect));
    assert_eq!(session.pic_attempts, 6);
}

#[test]
fn register_pic() {
    let mut session = Session::new(1);
    let mut cancelled = Packet::empty();
    cancelled.write_byte(0);
    assert_eq!(handle_register_pic(&mut cancelled, &mut session), Some(PicAction::Disconnect));
    let mut packet = Packet::empty();
    packet.write_byte(1);
    packet.write_int(11);
    packet.write_string("mac");
    packet.write_string("host");
    packet.write_string("2468");
    assert_eq!(handle_register_pic(&mut packet, &mut session), Some(PicAction::Proceed));
    assert_eq!(session.pic, "2468");
    assert_eq!(session.character_id, 11);
}

#[test]
fn delete_character_packets() {
    assert_eq!(bytes_of(&delete_character(5, DeleteReason::Success)), vec![0x0F, 0, 5, 0, 0, 0, 0x00]);
    assert_eq!(bytes_of(&delete_character(5, DeleteReason::Unknown)), vec![0x0F, 0, 5, 0, 0, 0, 0x09]);
    assert_eq!(bytes_of(&delete_character(5, DeleteReason::InvalidPic)), vec![0x0F, 0, 5, 0, 0, 0, 0x14]);
    assert_eq!(bytes_of(&delete_character(5, DeleteReason::GuildMaster)), vec![0x0F, 0, 5, 0, 0, 0, 0x16]);
    assert_eq!(bytes_of(&delete_character(5, DeleteReason::PendingWedding)), vec![0x0F, 0, 5, 0, 0, 0, 0x18]);
    assert_eq!(bytes_of(&delete_character(5, DeleteReason::PendingWorldTransfer)), vec![0x0F, 0, 5, 0, 0, 0, 0x1A]);
    assert_eq!(bytes_of(&delete_character(5, DeleteReason::FamilyMember)), vec![0x0F, 0, 5, 0, 0, 0, 0x1D]);
}

#[test]
fn delete_character_checks_pic() {
    let cfg = config(false, true);
    let mut session = Session::new(1);
    session.pic = "1357".to_string();
    let mut wrong = string_packet(&["0000"]);
    wrong.write_int(3);
    assert_eq!(handle_delete_character(&mut wrong, &mut session, &cfg), Some(DeleteAction::InvalidPic));
    let mut right = string_packet(&["1357"]);
    right.write_int(3);
    assert_eq!(handle_delete_character(&mut right, &mut session, &cfg), Some(DeleteAction::Delete(3)));
    let no_pic = config(false, false);
    let mut any = string_packet(&["whatever"]);
    any.write_int(4);
    assert_eq!(handle_delete_character(&mut any, &mut session, &no_pic), Some(DeleteAction::Delete(4)));
    assert_eq!(session.pic_attempts, 2);
}

#[test]
fn character_names() {
    assert!(character_name_valid("Maple1", false));
    assert!(!character_name_valid("Maple1", true));
    assert!(!character_name_valid("ab", false));
    assert!(!character_name_valid("abcdefghijklm", false));
    assert!(!character_name_valid("bad name", false));
    assert_eq!(bytes_of(&valid_name("abc", true)), vec![0x0D, 0, 3, 0, b'a', b'b', b'c', 0]);
    assert_eq!(bytes_of(&valid_name("abc", false)), vec![0x0D, 0, 3, 0, b'a', b'b', b'c', 1]);
}

fn creation(job: i32, weapon: i32) -> CharacterCreation {
    CharacterCreation {
        name: "Hero".to_string(),
        job,
        face: 20000,
        hair: 30000,
        hair_colour: 3,
        skin_colour: 1,
        top: 1040002,
        bottom: 1060002,
        shoes: 1072001,
        weapon,
        gender: 0,
    }
}

#[test]
fn character_creation() {
    let explorer = validate_character_creation(creation(1, 1302000)).unwrap();
    assert_eq!(explorer.job_id, 0);
    assert_eq!(explorer.map, 10000);
    assert_eq!(explorer.starter_item, 4161001);
    assert_eq!(explorer.hair, 30003);
    let cygnus = validate_character_creation(creation(0, 1302000)).unwrap();
    assert_eq!((cygnus.job_id, cygnus.map, cygnus.starter_item), (1000, 130030000, 4161047));
    let aran = validate_character_creation(creation(2, 1442079)).unwrap();
    assert_eq!((aran.job_id, aran.map, aran.starter_item), (2000, 914000000, 4161048));
    assert!(validate_character_creation(creation(3, 1302000)).is_none());
    assert!(validate_character_creation(creation(1, 1302001)).is_none());
}

#[test]
fn reading_character_creation() {
    let mut packet = Packet::empty();
    packet.write_string("Hero");
    for v in [1, 20000, 30000, 3, 1, 1040002, 1060002, 1072001, 1302000] {
        packet.write_int(v);
    }
    packet.write_byte(1);
    let c = read_character_creation(&mut packet).unwrap();
    assert_eq!(c.name, "Hero");
    assert_eq!((c.job, c.face, c.hair, c.hair_colour, c.skin_colour), (1, 20000, 30000, 3, 1));
    assert_eq!((c.top, c.bottom, c.shoes, c.weapon, c.gender), (1040002, 1060002, 1072001, 1302000, 1));
    let mut short = Packet::empty();
    short.write_string("Hero");
    short.write_int(1);
    assert!(read_character_creation(&mut short).is_none());
}

#[test]
fn world_list_packets() {
    let w = world(1, "Bera", 2);
    let mut expected = vec![0x0A, 0, 1, 4, 0, b'B', b'e', b'r', b'a', 2, 2, 0, b'H', b'i', 100, 0, 100, 0, 0, 2];
    for ch in 0..2u8 {
        expected.extend_from_slice(&[5, 0, b'B', b'e', b'r', b'a', b'0' + ch, 100, 0, 0, 0, 1, ch, 0]);
    }
    expected.extend_from_slice(&[0, 0]);
    assert_eq!(bytes_of(&world_info(&w)), expected);
    assert_eq!(bytes_of(&world_list_end()), vec![0x0A, 0, 0xFF]);
    let worlds = vec![world(0, "Scania", 1), world(1, "Bera", 1)];
    assert_eq!(
        bytes_of(&recommended_world(&worlds)),
        vec![0x1B, 0, 2, 0, 0, 0, 0, 2, 0, b'G', b'o', 1, 0, 0, 0, 2, 0, b'G', b'o']
    );
}

#[test]
fn world_status_of_load() {
    assert_eq!(bytes_of(&world_status(WorldStatus::Normal)), vec![3, 0, 0, 0]);
    assert_eq!(bytes_of(&world_status(WorldStatus::HighlyPopulated)), vec![3, 0, 1, 0]);
    assert_eq!(bytes_of(&world_status(WorldStatus::Full)), vec![3, 0, 2, 0]);
    assert_eq!(world_status_for(10, 100, 80), WorldStatus::Normal);
    assert_eq!(world_status_for(80, 100, 80), WorldStatus::HighlyPopulated);
    assert_eq!(world_status_for(100, 100, 80), WorldStatus::Full);
}

#[test]
fn selecting_world_and_channel() {
    let w = world(0, "Scania", 2);
    let mut session = Session::new(1);
    assert!(!select_world_channel(&mut session, &w, 0, 100, 0));
    assert!(!select_world_channel(&mut session, &w, 0, 5, 2));
    assert_eq!((session.world_id, session.channel_id), (-1, -1));
    assert!(select_world_channel(&mut session, &w, 0, 5, 1));
    assert_eq!((session.world_id, session.channel_id), (0, 1));
    let cfg = config(false, false);
    assert!(cfg.world(0).is_some());
    assert!(cfg.world(1).is_none());
}

#[test]
fn world_server_address_packet() {
    assert_eq!(
        bytes_of(&world_server_addr(258, [127, 0, 0, 1])),
        vec![0x0C, 0, 0, 0, 127, 0, 0, 1, 0x10, 0x27, 2, 1, 0, 0, 0, 0, 0, 0, 0]
    );
}

#[test]
fn routing_login_packets() {
    let cases = [
        (0x01i16, LoginHandler::Login),
        (0x05, LoginHandler::CharacterList),
        (0x06, LoginHandler::WorldStatus),
        (0x07, LoginHandler::Tos),
        (0x09, LoginHandler::PinOperation),
        (0x0A, LoginHandler::RegisterPin),
        (0x0B, LoginHandler::WorldList),
        (0x04, LoginHandler::WorldList),
        (0x13, LoginHandler::SelectCharacter),
        (0x15, LoginHandler::ValidateCharacterName),
        (0x16, LoginHandler::CreateCharacter),
        (0x17, LoginHandler::DeleteCharacter),
        (0x1D, LoginHandler::RegisterPic),
        (0x1E, LoginHandler::SelectCharacterPic),
        (0x30, LoginHandler::Unhandled { op_code: 0x30 }),
    ];
    for (op, handler) in cases {
        let mut packet = Packet::new(op);
        packet.write_byte(1);
        assert_eq!(handle_login_packet(&mut packet), Some(handler));
        assert_eq!(packet.remaining(), 1);
    }
    let mut empty = Packet::empty();
    assert_eq!(handle_login_packet(&mut empty), None);
}

#[test]
fn world_ip_parsing() {
    assert_eq!(parse_world_ip("127.0.0.1"), Some([127, 0, 0, 1]));
    assert_eq!(parse_world_ip("0.0.0.0"), Some([0, 0, 0, 0]));
    assert_eq!(parse_world_ip("+10.255.3.4"), Some([10, 255, 3, 4]));
    assert_eq!(parse_world_ip("1.2.3.4.5"), Some([1, 2, 3, 4]));
    assert_eq!(parse_world_ip("1.2.3"), None);
    assert_eq!(parse_world_ip("1.2.3.256"), None);
    assert_eq!(parse_world_ip("1..3.4"), None);
    assert_eq!(parse_world_ip("a.b.c.d"), None);
    assert_eq!(parse_world_ip(""), None);
}

#[test]
fn starting_equipment_slots() {
    let explorer = validate_character_creation(creation(1, 1302000)).unwrap();
    assert_eq!(
        explorer.starting_equipment(),
        vec![(1040002, 5), (1060002, 6), (1072001, 7), (1302000, 11)]
    );
}

#[test]
fn world_status_requests() {
    let config = config(true, true);
    assert!(requested_world(&config, -1).is_none());
    assert!(requested_world(&config, 1).is_none());
    let scania = requested_world(&config, 0);
    assert_eq!(scania.unwrap().name, "Scania");
    assert_eq!(world_status_of(None, 0, 80), WorldStatus::Full);
    assert_eq!(world_status_of(scania, 10, 80), WorldStatus::Normal);
    assert_eq!(world_status_of(scania, 80, 80), WorldStatus::HighlyPopulated);
    assert_eq!(world_status_of(scania, 100, 80), WorldStatus::Full);
}

#[test]
fn account_updates_need_a_logged_in_account() {
    let mut session = Session::new(3);
    assert_eq!(session.account_to_update(), Err(SessionError::InvalidAccountId));
    session.account_id = 7;
    assert_eq!(session.account_to_update(), Ok(7));
}

#[test]
fn built_packets_are_marked_for_encryption() {
    assert!(login_failed(LoginError::AccountBanned).use_encryption);
    assert!(world_status(WorldStatus::Normal).use_encryption);
    assert!(valid_name("abc", true).use_encryption);
    assert!(world_server_addr(1, [127, 0, 0, 1]).use_encryption);
}
