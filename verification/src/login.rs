//! Login server: configuration, the session a client carries, the decisions
//! each login packet leads to, and the packets the server answers with.
use crate::codec::{le_i16, le_i32, le_i64};
use crate::packet::{
    string_field, string_field_len, string_field_readable, string_field_text, Packet,
};
use vstd::prelude::*;
use vstd::string::{StrSliceExecFns, StringSliceAdditionalSpecFns};
use vstd::utf8::encode_utf8;

verus! {

// ---------------------------------------------------------------------------
// Configuration and session state
// ---------------------------------------------------------------------------

/// Server configuration (loaded from `config/config.json`).
pub struct Config {
    pub enable_pin: bool,
    pub enable_pic: bool,
    pub worlds: Vec<WorldConfig>,
}

/// One world's configuration.
pub struct WorldConfig {
    pub id: u8,
    pub name: String,
    pub channels: u8,
    pub flag: u8,
    pub event_message: String,
    pub recommended_message: String,
    pub exp_rate: u8,
    pub meso_rate: u8,
    pub drop_rate: u8,
    pub boss_drop_rate: u8,
    pub quest_rate: u8,
    pub fishing_rate: u8,
    pub travel_rate: u8,
    pub max_players: i32,
}

impl Config {
    /// The configuration of the world at index `world_id`, if there is one.
    pub fn world(&self, world_id: usize) -> (world: Option<&WorldConfig>)
        ensures
            world matches Some(w) ==> world_id < self.worlds@.len() && w == &self.worlds@[world_id as int],
            world is None <==> world_id >= self.worlds@.len(),
    {
        if world_id < self.worlds.len() {
            Some(&self.worlds[world_id])
        } else {
            None
        }
    }
}

/// Login state of an account.
#[derive(PartialEq, Eq, Structural, Clone, Copy, Debug)]
pub enum LoginState {
    LoggedOut,
    LoggedIn,
    Transitioning,
}

/// An account as stored in the database.
pub struct Account {
    pub id: i32,
    pub name: String,
    pub password: String,
    pub state: LoginState,
    pub banned: bool,
    pub tos: bool,
    pub pin: String,
    pub pic: String,
    pub gender: i32,
}

/// What the login server remembers of a connected client.
pub struct Session {
    pub id: i32,
    pub account_id: i32,
    pub character_id: i32,
    pub world_id: i32,
    pub channel_id: i32,
    pub map_id: i32,
    pub login_attempts: i32,
    pub pin: String,
    pub pin_attempts: i32,
    pub pic: String,
    pub pic_attempts: i32,
    pub tos: bool,
}

impl Session {
    /// The session of a client that just connected: no account, world,
    /// channel, character or map yet (all `-1`), no attempts, no pin or pic.
    pub fn new(id: i32) -> (session: Self)
        ensures
            session.id == id,
            session.account_id == -1,
            session.character_id == -1,
            session.world_id == -1,
            session.channel_id == -1,
            session.map_id == -1,
            session.login_attempts == 0,
            session.pin@ == Seq::<char>::empty(),
            session.pin_attempts == 0,
            session.pic@ == Seq::<char>::empty(),
            session.pic_attempts == 0,
            !session.tos,
    {
        Session {
            id,
            account_id: -1,
            character_id: -1,
            world_id: -1,
            channel_id: -1,
            map_id: -1,
            login_attempts: 0,
            pin: String::new(),
            pin_attempts: 0,
            pic: String::new(),
            pic_attempts: 0,
            tos: false,
        }
    }

    /// The account to read or update for this session (its login state, its
    /// row): refused while no account has logged in (`account_id` is `-1`).
    pub fn account_to_update(&self) -> (account: Result<i32, SessionError>)
        ensures
            self.account_id == -1 ==> account == Err::<i32, SessionError>(
                SessionError::InvalidAccountId,
            ),
            self.account_id != -1 ==> account == Ok::<i32, SessionError>(self.account_id),
    {
        if self.account_id == -1 {
            Err(SessionError::InvalidAccountId)
        } else {
            Ok(self.account_id)
        }
    }
}

/// Why a session cannot act on its account.
#[derive(PartialEq, Eq, Structural, Clone, Copy, Debug)]
pub enum SessionError {
    /// No account has logged in on this session.
    InvalidAccountId,
}

/// Number of UTF-8 bytes of a text.
pub open spec fn text_len(s: Seq<char>) -> nat {
    encode_utf8(s).len()
}

// ---------------------------------------------------------------------------
// Password verification (argon2)
// ---------------------------------------------------------------------------

/// What `argon2::verify_encoded(encoded, password)` returns: `None` when the
/// encoded hash cannot be decoded, else whether the password matches it.
pub uninterp spec fn argon2_verification(encoded: Seq<char>, password: Seq<u8>) -> Option<bool>;

/// `argon2::verify_encoded`: checks a password against an encoded argon2 hash.
/// Its result is named, not stated: it is a function of the two arguments.
#[verifier::external_body]
fn verify_encoded(encoded: &str, password: &[u8]) -> (r: Option<bool>)
    ensures
        r == argon2_verification(encoded@, password@),
{
    argon2::verify_encoded(encoded, password).ok()
}

// ---------------------------------------------------------------------------
// Login (0x01)
// ---------------------------------------------------------------------------

/// Why a login is refused (the number is the client's code).
#[derive(PartialEq, Eq, Structural, Clone, Copy, Debug)]
pub enum LoginError {
    AccountBanned,
    IncorrectPassword,
    AccountNotFound,
    TooManyAttempts,
    AlreadyLoggedIn,
    PromptTOS,
}

pub open spec fn spec_login_error_code(error: LoginError) -> i32 {
    match error {
        LoginError::AccountBanned => 0x03,
        LoginError::IncorrectPassword => 0x04,
        LoginError::AccountNotFound => 0x05,
        LoginError::TooManyAttempts => 0x06,
        LoginError::AlreadyLoggedIn => 0x07,
        LoginError::PromptTOS => 0x17,
    }
}

/// The client's code for a login error.
pub fn login_error_code(error: LoginError) -> (code: i32)
    ensures
        code == spec_login_error_code(error),
{
    match error {
        LoginError::AccountBanned => 0x03,
        LoginError::IncorrectPassword => 0x04,
        LoginError::AccountNotFound => 0x05,
        LoginError::TooManyAttempts => 0x06,
        LoginError::AlreadyLoggedIn => 0x07,
        LoginError::PromptTOS => 0x17,
    }
}

/// Bytes of the login-failed packet.
pub open spec fn login_failed_bytes(error: LoginError) -> Seq<u8> {
    le_i16(0x00) + le_i32(spec_login_error_code(error)) + le_i16(0)
}

/// Packet indicating login failed due to the given error
pub fn login_failed(error: LoginError) -> (packet: Packet)
    ensures
        packet.use_encryption,
        packet@ == login_failed_bytes(error),
{
    let mut packet = Packet::new(0x00);
    packet.write_int(login_error_code(error));
    packet.write_short(0);
    proof {
        assert(packet@ =~= login_failed_bytes(error));
    }
    packet
}

/// The pic flag of the login-succeeded and character-list packets:
/// 0 to register a pic, 1 to ask for it, 2 when pics are disabled.
pub open spec fn spec_pic_flag(enable_pic: bool, pic: Seq<char>) -> u8 {
    if enable_pic {
        if pic.len() == 0 {
            0
        } else {
            1
        }
    } else {
        2
    }
}

pub fn pic_flag(enable_pic: bool, pic: &String) -> (flag: u8)
    ensures
        flag == spec_pic_flag(enable_pic, pic@),
{
    if enable_pic {
        if pic.as_str().is_empty() {
            0
        } else {
            1
        }
    } else {
        2
    }
}

/// Bytes of the login-succeeded packet.
pub open spec fn login_succeeded_bytes(
    account_id: i32,
    gender: i32,
    name: Seq<char>,
    enable_pin: bool,
    enable_pic: bool,
    pic: Seq<char>,
) -> Seq<u8> {
    le_i16(0x00) + le_i32(0) + le_i16(0) + le_i32(account_id) + seq![gender as u8, 0u8, 0u8, 0u8]
        + string_field(name) + seq![0u8, 0u8] + le_i64(0) + le_i64(0) + le_i32(1) + seq![
        (if enable_pin {
            0u8
        } else {
            1u8
        }),
        spec_pic_flag(enable_pic, pic),
    ]
}

/// The login-succeeded packet ends with two flags: the pin byte, 0 when pins
/// are enabled in the configuration and 1 when not, then the pic byte, 2 when
/// pics are disabled, 0 when the account has no pic yet and 1 when it has one.
pub proof fn lemma_login_succeeded_flags(
    account_id: i32,
    gender: i32,
    name: Seq<char>,
    enable_pin: bool,
    enable_pic: bool,
    pic: Seq<char>,
)
    ensures
        ({
            let b = login_succeeded_bytes(account_id, gender, name, enable_pin, enable_pic, pic);
            &&& b.len() >= 2
            &&& enable_pin ==> b[b.len() - 2] == 0
            &&& !enable_pin ==> b[b.len() - 2] == 1
            &&& !enable_pic ==> b[b.len() - 1] == 2
            &&& enable_pic && pic.len() == 0 ==> b[b.len() - 1] == 0
            &&& enable_pic && pic.len() > 0 ==> b[b.len() - 1] == 1
        }),
{
    let b = login_succeeded_bytes(account_id, gender, name, enable_pin, enable_pic, pic);
    let n = b.len();
    assert(n >= 2);
}

/// Packet indicating login succeeded
pub fn login_succeeded(account: &Account, session: &Session, config: &Config) -> (packet: Packet)
    requires
        crate::packet::buffer_fits(text_len(account.name@) + 50),
    ensures
        packet.use_encryption,
        packet@ == login_succeeded_bytes(
            account.id,
            account.gender,
            account.name@,
            config.enable_pin,
            config.enable_pic,
            session.pic@,
        ),
{
    let mut packet = Packet::new(0x00);
    packet.write_int(0);
    packet.write_short(0);
    packet.write_int(account.id);
    packet.write_byte(account.gender as u8);
    packet.write_byte(0);
    packet.write_byte(0);
    packet.write_byte(0);
    packet.write_string(account.name.as_str());
    packet.write_byte(0);
    packet.write_byte(0);
    packet.write_long(0);
    packet.write_long(0);
    packet.write_int(1);
    packet.write_byte(!config.enable_pin as u8);
    packet.write_byte(pic_flag(config.enable_pic, &session.pic));
    proof {
        assert(packet@ =~= login_succeeded_bytes(
            account.id,
            account.gender,
            account.name@,
            config.enable_pin,
            config.enable_pic,
            session.pic@,
        ));
    }
    packet
}

/// What the server does with a login request once the account is looked up.
#[derive(PartialEq, Eq, Structural, Clone, Copy, Debug)]
pub enum LoginAction {
    /// Send `login_failed` with the error.
    Refuse(LoginError),
    /// Send `login_failed(PromptTOS)`: the account has not accepted the terms yet.
    PromptTos,
    /// Mark the account logged in and send `login_succeeded`.
    Accept,
}

/// The session's login attempts after one more login request: counted while
/// fewer than five were made.
pub open spec fn login_attempts_after(attempts: i32) -> i32 {
    if attempts < 5 {
        (attempts + 1) as i32
    } else {
        attempts
    }
}

/// The login attempts of a fresh session after `n` login requests.
pub open spec fn login_attempts_after_requests(n: nat) -> i32
    decreases n,
{
    if n == 0 {
        0
    } else {
        login_attempts_after(login_attempts_after_requests((n - 1) as nat))
    }
}

/// However many login requests a client makes on one session, the server lets
/// at most five through: after `n` requests the counter is `min(n, 5)`, and
/// every request after the fifth is refused.
pub proof fn lemma_login_attempts_capped(n: nat)
    ensures
        login_attempts_after_requests(n) == (if n < 5 {
            n as int
        } else {
            5
        }),
        n >= 5 ==> !(login_attempts_after_requests(n) < 5),
    decreases n,
{
    if n > 0 {
        lemma_login_attempts_capped((n - 1) as nat);
    }
}

/// First step of a login request: refused once five attempts were made on the
/// session; otherwise the attempt is counted.
pub fn count_login_attempt(session: &mut Session) -> (allowed: bool)
    ensures
        allowed == (old(session).login_attempts < 5),
        final(session).login_attempts == login_attempts_after(old(session).login_attempts),
        allowed ==> final(session).login_attempts == old(session).login_attempts + 1,
        !allowed ==> final(session).login_attempts == old(session).login_attempts,
        final(session).account_id == old(session).account_id,
        final(session).pin == old(session).pin,
        final(session).pic == old(session).pic,
        final(session).tos == old(session).tos,
        final(session).pin_attempts == old(session).pin_attempts,
        final(session).pic_attempts == old(session).pic_attempts,
{
    if session.login_attempts >= 5 {
        false
    } else {
        session.login_attempts = session.login_attempts + 1;
        true
    }
}

/// The action a login leads to, given the looked-up account and the password sent.
/// A password is refused only when the stored hash cannot be checked at all.
pub open spec fn spec_login_action(account: Option<Account>, password: Seq<char>) -> LoginAction {
    match account {
        None => LoginAction::Refuse(LoginError::AccountNotFound),
        Some(account) => {
            if argon2_verification(account.password@, encode_utf8(password)) is None {
                LoginAction::Refuse(LoginError::IncorrectPassword)
            } else if account.state != LoginState::LoggedOut {
                LoginAction::Refuse(LoginError::AlreadyLoggedIn)
            } else if account.banned {
                LoginAction::Refuse(LoginError::AccountBanned)
            } else if !account.tos {
                LoginAction::PromptTos
            } else {
                LoginAction::Accept
            }
        },
    }
}

/// Reads the next string field of a packet, if one is there.
pub fn read_string_field(packet: &mut Packet) -> (text: Option<String>)
    ensures
        final(packet).use_encryption == old(packet).use_encryption,
        text is Some <==> string_field_readable(old(packet)@),
        text matches Some(t) ==> t@ == string_field_text(old(packet)@) && final(packet)@ == old(
            packet,
        )@.skip(string_field_len(old(packet)@)),
        text is None ==> final(packet)@ == old(packet)@,
{
    if packet_has_string_field(packet) {
        Some(packet.read_string())
    } else {
        None
    }
}

/// Whether the packet starts with a readable string field.
pub fn packet_has_string_field(packet: &Packet) -> (readable: bool)
    ensures
        readable == string_field_readable(packet@),
{
    crate::packet::has_string_field(packet)
}

/// Second step of a login request (the name was read, and the account under it looked up):
/// reads the password, decides, and records the account in the session.
/// `None` when the packet ends before a field the request needs (the password,
/// or the six skipped bytes and four hardware-id bytes of an accepted login).
pub fn decide_login(session: &mut Session, account: Option<&Account>, packet: &mut Packet) -> (action: Option<LoginAction>)
    ensures
        final(packet).use_encryption == old(packet).use_encryption,
        account is None ==> action == Some(LoginAction::Refuse(LoginError::AccountNotFound))
            && final(packet)@ == old(packet)@,
        account is Some && !string_field_readable(old(packet)@) ==> action is None,
        account is Some && string_field_readable(old(packet)@) ==> {
            let expected = spec_login_action(Some(*account.unwrap()), string_field_text(old(packet)@));
            let after = old(packet)@.skip(string_field_len(old(packet)@));
            &&& expected != LoginAction::Accept ==> action == Some(expected) && final(packet)@ == after
            &&& expected == LoginAction::Accept ==> (if after.len() >= 10 {
                action == Some(LoginAction::Accept) && final(packet)@ == after.skip(10)
            } else {
                action is None
            })
        },
        action == Some(LoginAction::PromptTos) ==> final(session).account_id == account.unwrap().id
            && final(session).pin == old(session).pin && final(session).pic == old(session).pic
            && final(session).tos == old(session).tos,
        action == Some(LoginAction::Accept) ==> final(session).account_id == account.unwrap().id
            && final(session).pin@ == account.unwrap().pin@ && final(session).pic@
            == account.unwrap().pic@ && final(session).tos == account.unwrap().tos,
        !(action == Some(LoginAction::PromptTos) || action == Some(LoginAction::Accept))
            ==> final(session).account_id == old(session).account_id && final(session).pin
            == old(session).pin && final(session).pic == old(session).pic && final(session).tos
            == old(session).tos,
        final(session).login_attempts == old(session).login_attempts,
        final(session).pin_attempts == old(session).pin_attempts,
        final(session).pic_attempts == old(session).pic_attempts,
        final(session).id == old(session).id,
{
    let account = match account {
        Some(account) => account,
        None => {
            return Some(LoginAction::Refuse(LoginError::AccountNotFound));
        },
    };
    let password = match read_string_field(packet) {
        Some(password) => password,
        None => {
            return None;
        },
    };
    if verify_encoded(account.password.as_str(), password.as_str().as_bytes()).is_none() {
        return Some(LoginAction::Refuse(LoginError::IncorrectPassword));
    }
    if account.state != LoginState::LoggedOut {
        return Some(LoginAction::Refuse(LoginError::AlreadyLoggedIn));
    }
    if account.banned {
        return Some(LoginAction::Refuse(LoginError::AccountBanned));
    }
    if !account.tos {
        session.account_id = account.id;
        return Some(LoginAction::PromptTos);
    }
    if packet.remaining() < 10 {
        return None;
    }
    packet.skip(6);
    let _hwid = packet.read_bytes(4);
    session.account_id = account.id;
    session.pin = account.pin.clone();
    session.pic = account.pic.clone();
    session.tos = account.tos;
    Some(LoginAction::Accept)
}

// ---------------------------------------------------------------------------
// Terms of service (0x07)
// ---------------------------------------------------------------------------

/// Whether the client accepted the terms of service (it sends 1; on anything
/// else it disconnects by itself and the server does nothing).
pub fn tos_accepted(accepted: u8) -> (yes: bool)
    ensures
        yes == (accepted == 1),
{
    accepted == 1
}

/// After the terms were accepted and the session's account looked up: `true`
/// when the account exists and is logged out; then the session takes the
/// account's id, pin, pic and terms flag, and the server marks the terms
/// accepted, logs the account in and sends `login_succeeded`.
pub fn decide_tos(session: &mut Session, account: Option<&Account>) -> (proceed: bool)
    ensures
        proceed == (account matches Some(a) && a.state == LoginState::LoggedOut),
        proceed ==> final(session).account_id == account.unwrap().id && final(session).pin@
            == account.unwrap().pin@ && final(session).pic@ == account.unwrap().pic@
            && final(session).tos == account.unwrap().tos,
        !proceed ==> final(session).account_id == old(session).account_id && final(session).pin
            == old(session).pin && final(session).pic == old(session).pic && final(session).tos
            == old(session).tos,
        final(session).id == old(session).id,
        final(session).login_attempts == old(session).login_attempts,
        final(session).pin_attempts == old(session).pin_attempts,
        final(session).pic_attempts == old(session).pic_attempts,
{
    let account = match account {
        Some(account) => account,
        None => {
            return false;
        },
    };
    if account.state != LoginState::LoggedOut {
        return false;
    }
    session.account_id = account.id;
    session.pin = account.pin.clone();
    session.pic = account.pic.clone();
    session.tos = account.tos;
    true
}

// ---------------------------------------------------------------------------
// Pin (0x09, 0x0A)
// ---------------------------------------------------------------------------

/// Answers to a pin operation (the number is the client's code).
#[derive(PartialEq, Eq, Structural, Clone, Copy, Debug)]
pub enum PinOperation {
    Accepted,
    Register,
    Invalid,
    Request,
}

pub open spec fn spec_pin_operation_code(op: PinOperation) -> u8 {
    match op {
        PinOperation::Accepted => 0x00,
        PinOperation::Register => 0x01,
        PinOperation::Invalid => 0x02,
        PinOperation::Request => 0x04,
    }
}

pub fn pin_operation_code(op: PinOperation) -> (code: u8)
    ensures
        code == spec_pin_operation_code(op),
{
    match op {
        PinOperation::Accepted => 0x00,
        PinOperation::Register => 0x01,
        PinOperation::Invalid => 0x02,
        PinOperation::Request => 0x04,
    }
}

/// Packet indicating a pin operation
pub fn pin_operation(op: PinOperation) -> (packet: Packet)
    ensures
        packet.use_encryption,
        packet@ == le_i16(0x06).push(spec_pin_operation_code(op)),
{
    let mut packet = Packet::new(0x06);
    packet.write_byte(pin_operation_code(op));
    packet
}

/// What the server does with a pin request.
#[derive(PartialEq, Eq, Structural, Clone, Copy, Debug)]
pub enum PinAction {
    /// Too many wrong pins: close the connection.
    Disconnect,
    /// Send `pin_operation` with the answer.
    Reply(PinOperation),
}

/// The fields of a pin request: two mode bytes `a` and `b` (`b` is 5 when the
/// packet ends after `a`) and the pin (sent only when `b` is 0, else empty).
pub open spec fn pin_request_fields(s: Seq<u8>) -> Option<(u8, u8, Seq<char>)> {
    if s.len() < 1 {
        None
    } else if s.len() == 1 {
        Some((s[0], 5u8, Seq::empty()))
    } else if s[1] != 0 {
        Some((s[0], s[1], Seq::empty()))
    } else if string_field_readable(s.skip(2)) {
        Some((s[0], 0u8, string_field_text(s.skip(2))))
    } else {
        None
    }
}

/// The answer to a pin request with modes `a`, `b` and pin `pin`, and the
/// session's pin attempts afterwards.
pub open spec fn spec_pin_decision(
    session_pin: Seq<char>,
    attempts: i32,
    a: u8,
    b: u8,
    pin: Seq<char>,
) -> (PinAction, i32) {
    if a == 1 && b == 1 {
        if session_pin.len() == 0 {
            (PinAction::Reply(PinOperation::Register), attempts)
        } else {
            (PinAction::Reply(PinOperation::Request), attempts)
        }
    } else if (a == 1 || a == 2) && b == 0 {
        if attempts >= 6 {
            (PinAction::Disconnect, attempts)
        } else if session_pin.len() != 0 && session_pin == pin {
            if a == 1 {
                (PinAction::Reply(PinOperation::Accepted), 0)
            } else {
                (PinAction::Reply(PinOperation::Register), 0)
            }
        } else {
            (PinAction::Reply(PinOperation::Invalid), (attempts + 1) as i32)
        }
    } else {
        (PinAction::Reply(PinOperation::Invalid), attempts)
    }
}

/// A client can never make more than six wrong pin attempts in a row: from
/// any count between 0 and 6, a pin request leaves it between 0 and 6.
pub proof fn lemma_pin_attempts_bounded(
    session_pin: Seq<char>,
    attempts: i32,
    a: u8,
    b: u8,
    pin: Seq<char>,
)
    requires
        0 <= attempts <= 6,
    ensures
        0 <= spec_pin_decision(session_pin, attempts, a, b, pin).1 <= 6,
{
}

/// Once six pins were sent, every further pin is answered by closing the
/// connection, and the count stays.
pub proof fn lemma_pin_lockout(session_pin: Seq<char>, attempts: i32, a: u8, pin: Seq<char>)
    requires
        attempts >= 6,
        a == 1 || a == 2,
    ensures
        spec_pin_decision(session_pin, attempts, a, 0, pin) == (PinAction::Disconnect, attempts),
{
}

/// Before the lockout, the right pin is accepted and clears the count of wrong
/// attempts; a wrong one is answered as invalid and counted.
pub proof fn lemma_pin_check(session_pin: Seq<char>, attempts: i32, pin: Seq<char>)
    requires
        attempts < 6,
    ensures
        session_pin.len() != 0 && session_pin == pin ==> spec_pin_decision(
            session_pin,
            attempts,
            1,
            0,
            pin,
        ) == (PinAction::Reply(PinOperation::Accepted), 0i32),
        !(session_pin.len() != 0 && session_pin == pin) ==> spec_pin_decision(
            session_pin,
            attempts,
            1,
            0,
            pin,
        ) == (PinAction::Reply(PinOperation::Invalid), (attempts + 1) as i32),
{
}

/// Pin operation / after-login packet: reads the request and decides.
/// `None` when the packet is too short for its fields.
pub fn handle_pin_operation(packet: &mut Packet, session: &mut Session) -> (action: Option<PinAction>)
    ensures
        final(packet).use_encryption == old(packet).use_encryption,
        action is None <==> pin_request_fields(old(packet)@) is None,
        action matches Some(act) ==> {
            let (a, b, pin) = pin_request_fields(old(packet)@).unwrap();
            let (expected, attempts) = spec_pin_decision(old(session).pin@, old(session).pin_attempts, a, b, pin);
            act == expected && final(session).pin_attempts == attempts
        },
        action is None ==> final(session).pin_attempts == old(session).pin_attempts,
        final(session).pin == old(session).pin,
        final(session).pic == old(session).pic,
        final(session).account_id == old(session).account_id,
        final(session).pic_attempts == old(session).pic_attempts,
        final(session).login_attempts == old(session).login_attempts,
{
    if packet.remaining() < 1 {
        return None;
    }
    let a = packet.read_byte();
    let b = if packet.remaining() == 0 {
        5
    } else {
        packet.read_byte()
    };
    proof {
        let s = old(packet)@;
        if s.len() >= 2 {
            assert(s.skip(1).skip(1) =~= s.skip(2));
        }
    }
    let pin = if b == 0 {
        match read_string_field(packet) {
            Some(pin) => pin,
            None => {
                return None;
            },
        }
    } else {
        String::new()
    };
    if a == 1 && b == 1 {
        if session.pin.as_str().is_empty() {
            return Some(PinAction::Reply(PinOperation::Register));
        } else {
            return Some(PinAction::Reply(PinOperation::Request));
        }
    }
    if (a == 1 || a == 2) && b == 0 {
        if session.pin_attempts >= 6 {
            return Some(PinAction::Disconnect);
        }
        session.pin_attempts = session.pin_attempts + 1;
        if !session.pin.as_str().is_empty() && session.pin == pin {
            session.pin_attempts = 0;
            if a == 1 {
                return Some(PinAction::Reply(PinOperation::Accepted));
            } else {
                return Some(PinAction::Reply(PinOperation::Register));
            }
        }
    }
    Some(PinAction::Reply(PinOperation::Invalid))
}

/// Packet confirming a pin was registered
pub fn pin_registered() -> (packet: Packet)
    ensures
        packet.use_encryption,
        packet@ == le_i16(0x07).push(0u8),
{
    let mut packet = Packet::new(0x07);
    packet.write_byte(0);
    packet
}

/// Register-pin packet: `Some(Some(pin))` when a non-empty pin is to be
/// registered (the session takes it; the server stores it, logs the account
/// out and sends `pin_registered`), `Some(None)` when the client cancelled or
/// sent an empty pin (the server closes the connection), `None` when the
/// packet is too short.
pub fn handle_register_pin(packet: &mut Packet, session: &mut Session) -> (pin: Option<Option<String>>)
    ensures
        final(packet).use_encryption == old(packet).use_encryption,
        old(packet)@.len() < 1 ==> pin is None,
        old(packet)@.len() >= 1 && old(packet)@[0] == 0 ==> pin == Some(None::<String>),
        old(packet)@.len() >= 1 && old(packet)@[0] != 0 ==> {
            let rest = old(packet)@.skip(1);
            &&& !string_field_readable(rest) ==> pin is None
            &&& string_field_readable(rest) && string_field_text(rest).len() == 0 ==> pin == Some(None::<String>)
            &&& string_field_readable(rest) && string_field_text(rest).len() != 0 ==> (pin matches Some(Some(p))
                && p@ == string_field_text(rest))
        },
        pin matches Some(Some(p)) ==> final(session).pin@ == p@,
        !(pin matches Some(Some(_))) ==> final(session).pin == old(session).pin,
        final(session).pic == old(session).pic,
        final(session).account_id == old(session).account_id,
        final(session).pin_attempts == old(session).pin_attempts,
{
    if packet.remaining() < 1 {
        return None;
    }
    if packet.read_byte() == 0 {
        return Some(None);
    }
    let pin = match read_string_field(packet) {
        Some(pin) => pin,
        None => {
            return None;
        },
    };
    if pin.as_str().is_empty() {
        return Some(None);
    }
    session.pin = pin.clone();
    Some(Some(pin))
}

// ---------------------------------------------------------------------------
// Pic and character selection (0x13, 0x17, 0x1D, 0x1E)
// ---------------------------------------------------------------------------

/// Packet telling the client the pic it sent is wrong
pub fn invalid_pic() -> (packet: Packet)
    ensures
        packet.use_encryption,
        packet@ == le_i16(0x1C).push(0u8),
{
    let mut packet = Packet::new(0x1C);
    packet.write_byte(0);
    packet
}

/// The character id, MAC address and host address fields that select a character:
/// the id when all three are there.
pub open spec fn character_select_fields(s: Seq<u8>) -> Option<i32> {
    if s.len() >= 4 && string_field_readable(s.skip(4)) && string_field_readable(
        s.skip(4).skip(string_field_len(s.skip(4))),
    ) {
        Some(crate::codec::i32_of_le(s))
    } else {
        None
    }
}

/// What follows the character id, MAC address and host address fields.
pub open spec fn character_select_rest(s: Seq<u8>) -> Seq<u8> {
    let after_id = s.skip(4);
    let after_mac = after_id.skip(string_field_len(after_id));
    after_mac.skip(string_field_len(after_mac))
}

/// Reads a character id, a MAC address and a host address (the addresses are not used).
fn read_character_select(packet: &mut Packet) -> (character_id: Option<i32>)
    ensures
        final(packet).use_encryption == old(packet).use_encryption,
        character_id == character_select_fields(old(packet)@),
        character_id is Some ==> final(packet)@ == character_select_rest(old(packet)@),
{
    if packet.remaining() < 4 {
        return None;
    }
    let character_id = packet.read_int();
    let _mac_addr = match read_string_field(packet) {
        Some(mac) => mac,
        None => {
            return None;
        },
    };
    let _host_addr = match read_string_field(packet) {
        Some(host) => host,
        None => {
            return None;
        },
    };
    Some(character_id)
}

/// Select-character packet (sent when the client has no pic): records the
/// selected character. `false` when the packet is too short.
pub fn handle_select_character(packet: &mut Packet, session: &mut Session) -> (read: bool)
    ensures
        final(packet).use_encryption == old(packet).use_encryption,
        read == character_select_fields(old(packet)@) is Some,
        read ==> final(session).character_id == character_select_fields(old(packet)@).unwrap(),
        !read ==> final(session).character_id == old(session).character_id,
        final(session).account_id == old(session).account_id,
        final(session).pic == old(session).pic,
        final(session).pic_attempts == old(session).pic_attempts,
{
    match read_character_select(packet) {
        Some(character_id) => {
            session.character_id = character_id;
            true
        },
        None => false,
    }
}

/// What the server does with a request guarded by the pic.
#[derive(PartialEq, Eq, Structural, Clone, Copy, Debug)]
pub enum PicAction {
    /// Too many wrong pics (or a cancelled registration): close the connection.
    Disconnect,
    /// Send `invalid_pic`.
    InvalidPic,
    /// The pic is right: go on with the request.
    Proceed,
}

/// The session's pic attempts after one more request guarded by the pic:
/// counted while fewer than six were made (a right pic does not clear them).
pub open spec fn pic_attempts_after(attempts: i32) -> i32 {
    if attempts < 6 {
        (attempts + 1) as i32
    } else {
        attempts
    }
}

/// The pic attempts of a fresh session after `n` pic-guarded requests.
pub open spec fn pic_attempts_after_requests(n: nat) -> i32
    decreases n,
{
    if n == 0 {
        0
    } else {
        pic_attempts_after(pic_attempts_after_requests((n - 1) as nat))
    }
}

/// However many pic-guarded requests a client makes on one session, at most
/// six are looked at: after `n` of them the counter is `min(n, 6)`, and every
/// one after the sixth closes the connection.
pub proof fn lemma_pic_attempts_capped(n: nat)
    ensures
        pic_attempts_after_requests(n) == (if n < 6 {
            n as int
        } else {
            6
        }),
        n >= 6 ==> pic_attempts_after_requests(n) >= 6,
    decreases n,
{
    if n > 0 {
        lemma_pic_attempts_capped((n - 1) as nat);
    }
}

/// Whether a pic the client sent matches the session's (an unset pic never matches).
pub open spec fn pic_matches(session_pic: Seq<char>, sent: Seq<char>) -> bool {
    session_pic.len() != 0 && session_pic == sent
}

/// Select-character-with-pic packet. Once six attempts were made the server
/// disconnects; otherwise the attempt is counted, and a wrong pic is answered
/// with `invalid_pic`. With the right pic the selected character is recorded and
/// the client is sent to the world server. `None` when the packet is too short.
pub fn handle_select_character_pic(packet: &mut Packet, session: &mut Session) -> (action: Option<
    PicAction,
>)
    ensures
        final(packet).use_encryption == old(packet).use_encryption,
        final(session).pic_attempts == pic_attempts_after(old(session).pic_attempts),
        old(session).pic_attempts >= 6 ==> action == Some(PicAction::Disconnect)
            && final(session).pic_attempts == old(session).pic_attempts
            && final(session).character_id == old(session).character_id,
        old(session).pic_attempts < 6 ==> {
            let s = old(packet)@;
            &&& final(session).pic_attempts == old(session).pic_attempts + 1
            &&& !string_field_readable(s) ==> action is None
            &&& string_field_readable(s) && !pic_matches(old(session).pic@, string_field_text(s))
                ==> action == Some(PicAction::InvalidPic) && final(session).character_id == old(session).character_id
            &&& string_field_readable(s) && pic_matches(old(session).pic@, string_field_text(s))
                ==> {
                let rest = s.skip(string_field_len(s));
                &&& character_select_fields(rest) is None ==> action is None
                &&& character_select_fields(rest) is Some ==> action == Some(PicAction::Proceed)
                    && final(session).character_id == character_select_fields(rest).unwrap()
            }
        },
        final(session).pic == old(session).pic,
        final(session).account_id == old(session).account_id,
        final(session).pin == old(session).pin,
{
    if session.pic_attempts >= 6 {
        return Some(PicAction::Disconnect);
    }
    session.pic_attempts = session.pic_attempts + 1;
    let pic = match read_string_field(packet) {
        Some(pic) => pic,
        None => {
            return None;
        },
    };
    if session.pic.as_str().is_empty() || session.pic != pic {
        return Some(PicAction::InvalidPic);
    }
    match read_character_select(packet) {
        Some(character_id) => {
            session.character_id = character_id;
            Some(PicAction::Proceed)
        },
        None => None,
    }
}

/// Register-pic packet: a cancelled request (first byte 0) or an empty pic
/// closes the connection; otherwise the session takes the pic and the selected
/// character and the client is sent to the world server. `None` when the packet
/// is too short.
pub fn handle_register_pic(packet: &mut Packet, session: &mut Session) -> (action: Option<
    PicAction,
>)
    ensures
        final(packet).use_encryption == old(packet).use_encryption,
        old(packet)@.len() < 1 ==> action is None,
        old(packet)@.len() >= 1 && old(packet)@[0] == 0 ==> action == Some(PicAction::Disconnect),
        old(packet)@.len() >= 1 && old(packet)@[0] != 0 ==> {
            let s = old(packet)@.skip(1);
            &&& character_select_fields(s) is None ==> action is None
            &&& character_select_fields(s) is Some ==> {
                let after_id = s.skip(4);
                let after_mac = after_id.skip(string_field_len(after_id));
                let after_host = after_mac.skip(string_field_len(after_mac));
                &&& !string_field_readable(after_host) ==> action is None
                &&& string_field_readable(after_host) && string_field_text(after_host).len() == 0
                    ==> action == Some(PicAction::Disconnect)
                &&& string_field_readable(after_host) && string_field_text(after_host).len() != 0
                    ==> action == Some(PicAction::Proceed) && final(session).pic@ == string_field_text(
                    after_host,
                ) && final(session).character_id == character_select_fields(s).unwrap()
            }
        },
        action != Some(PicAction::Proceed) ==> final(session).pic == old(session).pic
            && final(session).character_id == old(session).character_id,
        action != Some(PicAction::InvalidPic),
        final(session).pic_attempts == old(session).pic_attempts,
        final(session).account_id == old(session).account_id,
{
    if packet.remaining() < 1 {
        return None;
    }
    if packet.read_byte() == 0 {
        return Some(PicAction::Disconnect);
    }
    let character_id = match read_character_select(packet) {
        Some(character_id) => character_id,
        None => {
            return None;
        },
    };
    let pic = match read_string_field(packet) {
        Some(pic) => pic,
        None => {
            return None;
        },
    };
    if pic.as_str().is_empty() {
        return Some(PicAction::Disconnect);
    }
    session.pic = pic;
    session.character_id = character_id;
    Some(PicAction::Proceed)
}

/// Results of a character deletion (the number is the client's code).
#[derive(PartialEq, Eq, Structural, Clone, Copy, Debug)]
pub enum DeleteReason {
    Success,
    Unknown,
    InvalidPic,
    GuildMaster,
    PendingWedding,
    PendingWorldTransfer,
    FamilyMember,
}

pub open spec fn spec_delete_reason_code(reason: DeleteReason) -> u8 {
    match reason {
        DeleteReason::Success => 0x00,
        DeleteReason::Unknown => 0x09,
        DeleteReason::InvalidPic => 0x14,
        DeleteReason::GuildMaster => 0x16,
        DeleteReason::PendingWedding => 0x18,
        DeleteReason::PendingWorldTransfer => 0x1A,
        DeleteReason::FamilyMember => 0x1D,
    }
}

pub fn delete_reason_code(reason: DeleteReason) -> (code: u8)
    ensures
        code == spec_delete_reason_code(reason),
{
    match reason {
        DeleteReason::Success => 0x00,
        DeleteReason::Unknown => 0x09,
        DeleteReason::InvalidPic => 0x14,
        DeleteReason::GuildMaster => 0x16,
        DeleteReason::PendingWedding => 0x18,
        DeleteReason::PendingWorldTransfer => 0x1A,
        DeleteReason::FamilyMember => 0x1D,
    }
}

/// Packet indicating the delete character result
pub fn delete_character(character_id: i32, reason: DeleteReason) -> (packet: Packet)
    ensures
        packet.use_encryption,
        packet@ == le_i16(0x0F) + le_i32(character_id) + seq![spec_delete_reason_code(reason)],
{
    let mut packet = Packet::new(0x0F);
    packet.write_int(character_id);
    packet.write_byte(delete_reason_code(reason));
    proof {
        assert(packet@ =~= le_i16(0x0F) + le_i32(character_id) + seq![spec_delete_reason_code(reason)]);
    }
    packet
}

/// What the server does with a delete-character request.
#[derive(PartialEq, Eq, Structural, Clone, Copy, Debug)]
pub enum DeleteAction {
    /// Too many wrong pics: close the connection.
    Disconnect,
    /// Send `invalid_pic`.
    InvalidPic,
    /// Look the character up; delete it and answer `Success`, or answer `Unknown`
    /// when there is no such character.
    Delete(i32),
}

/// Delete-character packet: the pic (checked when pics are enabled, with the
/// same attempt limit as selection), then the character's id. `None` when the
/// packet is too short.
pub fn handle_delete_character(packet: &mut Packet, session: &mut Session, config: &Config) -> (action: Option<DeleteAction>)
    ensures
        final(packet).use_encryption == old(packet).use_encryption,
        ({
            let s = old(packet)@;
            let checked = config.enable_pic;
            &&& !string_field_readable(s) ==> action is None
            &&& string_field_readable(s) && checked && old(session).pic_attempts >= 6
                ==> action == Some(DeleteAction::Disconnect)
            &&& string_field_readable(s) && checked && old(session).pic_attempts < 6 && !pic_matches(
                old(session).pic@,
                string_field_text(s),
            ) ==> action == Some(DeleteAction::InvalidPic)
            &&& string_field_readable(s) && (!checked || (old(session).pic_attempts < 6 && pic_matches(
                old(session).pic@,
                string_field_text(s),
            ))) ==> {
                let rest = s.skip(string_field_len(s));
                &&& rest.len() < 4 ==> action is None
                &&& rest.len() >= 4 ==> action == Some(DeleteAction::Delete(crate::codec::i32_of_le(rest)))
            }
        }),
        final(session).pic_attempts == (if config.enable_pic && string_field_readable(old(packet)@)
            && old(session).pic_attempts < 6 {
            old(session).pic_attempts + 1
        } else {
            old(session).pic_attempts as int
        }),
        final(session).pic == old(session).pic,
        final(session).character_id == old(session).character_id,
        final(session).account_id == old(session).account_id,
{
    let pic = match read_string_field(packet) {
        Some(pic) => pic,
        None => {
            return None;
        },
    };
    if config.enable_pic {
        if session.pic_attempts >= 6 {
            return Some(DeleteAction::Disconnect);
        }
        session.pic_attempts = session.pic_attempts + 1;
        if session.pic.as_str().is_empty() || session.pic != pic {
            return Some(DeleteAction::InvalidPic);
        }
    }
    if packet.remaining() < 4 {
        return None;
    }
    Some(DeleteAction::Delete(packet.read_int()))
}

// ---------------------------------------------------------------------------
// Character names (0x15)
// ---------------------------------------------------------------------------

/// A character name is accepted when it is not taken, every character is
/// alphanumeric, and its UTF-8 length is between 3 and 12 bytes.
pub open spec fn spec_character_name_valid(name: Seq<char>, taken: bool) -> bool {
    &&& !taken
    &&& forall|i: int| 0 <= i < name.len() ==> #[trigger] crate::text::unicode_alphanumeric(name[i])
    &&& 3 <= text_len(name) <= 12
}

/// Whether a new character may take the name (`taken`: a character already has it).
pub fn character_name_valid(name: &str, taken: bool) -> (valid: bool)
    ensures
        valid == spec_character_name_valid(name@, taken),
{
    if taken {
        return false;
    }
    let n = name.unicode_len();
    let mut i: usize = 0;
    while i < n
        invariant
            n == name@.len(),
            i <= n,
            forall|k: int| 0 <= k < i ==> #[trigger] crate::text::unicode_alphanumeric(name@[k]),
        decreases n - i,
    {
        if !crate::text::char_is_alphanumeric(name.get_char(i)) {
            return false;
        }
        i += 1;
    }
    let len = name.as_bytes().len();
    3 <= len && len <= 12
}

/// Packet answering a name check (the last byte is 0 when the name is accepted)
pub fn valid_name(name: &str, valid: bool) -> (packet: Packet)
    requires
        crate::packet::buffer_fits(text_len(name@) + 10),
    ensures
        packet.use_encryption,
        packet@ == le_i16(0x0D) + string_field(name@) + seq![(if valid { 0u8 } else { 1u8 })],
{
    let mut packet = Packet::new(0x0D);
    packet.write_string(name);
    packet.write_byte(!valid as u8);
    proof {
        assert(packet@ =~= le_i16(0x0D) + string_field(name@) + seq![(if valid { 0u8 } else { 1u8 })]);
    }
    packet
}

// ---------------------------------------------------------------------------
// Character creation (0x16)
// ---------------------------------------------------------------------------

pub open spec fn is_starter_weapon(id: i32) -> bool {
    id == 1302000 || id == 1312004 || id == 1322005 || id == 1442079
}

pub open spec fn is_starter_top(id: i32) -> bool {
    id == 1040002 || id == 1040006 || id == 1040010 || id == 1041002 || id == 1041006 || id
        == 1041010 || id == 1041011 || id == 1042167
}

pub open spec fn is_starter_bottom(id: i32) -> bool {
    id == 1060002 || id == 1060006 || id == 1061002 || id == 1061008 || id == 1062115
}

pub open spec fn is_starter_shoes(id: i32) -> bool {
    id == 1072001 || id == 1072005 || id == 1072037 || id == 1072038 || id == 1072383
}

pub open spec fn is_starter_hair(id: i32) -> bool {
    id == 30000 || id == 30010 || id == 30020 || id == 30030 || id == 31000 || id == 31040 || id
        == 31050
}

pub open spec fn is_starter_face(id: i32) -> bool {
    id == 20000 || id == 20001 || id == 20002 || id == 21000 || id == 21001 || id == 21002 || id
        == 21201 || id == 20401 || id == 20402 || id == 21700 || id == 20100
}

/// The starter weapons a new character may hold are exactly the sword
/// (1302000), the hand axe (1312004), the wooden club (1322005) and the basic
/// polearm (1442079): a creation request whose other parts are all from the
/// starter sets, for a class the client offers, is accepted exactly when its
/// weapon is one of these.
pub proof fn lemma_starter_weapons(c: CharacterCreation)
    requires
        is_starter_top(c.top),
        is_starter_bottom(c.bottom),
        is_starter_shoes(c.shoes),
        is_starter_hair(c.hair),
        is_starter_face(c.face),
        c.job == 0 || c.job == 1 || c.job == 2,
    ensures
        (starter_outfit(c) && spec_class_start(c.job) is Some) <==> (c.weapon == 1302000 || c.weapon
            == 1312004 || c.weapon == 1322005 || c.weapon == 1442079),
{
}

fn starter_weapon(id: i32) -> (r: bool)
    ensures
        r == is_starter_weapon(id),
{
    match id {
        1302000 | 1312004 | 1322005 | 1442079 => true,
        _ => false,
    }
}

fn starter_top(id: i32) -> (r: bool)
    ensures
        r == is_starter_top(id),
{
    match id {
        1040002 | 1040006 | 1040010 | 1041002 | 1041006 | 1041010 | 1041011 | 1042167 => true,
        _ => false,
    }
}

fn starter_bottom(id: i32) -> (r: bool)
    ensures
        r == is_starter_bottom(id),
{
    match id {
        1060002 | 1060006 | 1061002 | 1061008 | 1062115 => true,
        _ => false,
    }
}

fn starter_shoes(id: i32) -> (r: bool)
    ensures
        r == is_starter_shoes(id),
{
    match id {
        1072001 | 1072005 | 1072037 | 1072038 | 1072383 => true,
        _ => false,
    }
}

fn starter_hair(id: i32) -> (r: bool)
    ensures
        r == is_starter_hair(id),
{
    match id {
        30000 | 30010 | 30020 | 30030 | 31000 | 31040 | 31050 => true,
        _ => false,
    }
}

fn starter_face(id: i32) -> (r: bool)
    ensures
        r == is_starter_face(id),
{
    match id {
        20000 | 20001 | 20002 | 21000 | 21001 | 21002 | 21201 | 20401 | 20402 | 21700 | 20100 => true,
        _ => false,
    }
}

/// What the client sends to create a character.
pub struct CharacterCreation {
    pub name: String,
    pub job: i32,
    pub face: i32,
    pub hair: i32,
    pub hair_colour: i32,
    pub skin_colour: i32,
    pub top: i32,
    pub bottom: i32,
    pub shoes: i32,
    pub weapon: i32,
    pub gender: u8,
}

/// A character ready to be stored: starting job, map and guide book for the
/// chosen class, and the starting equipment.
pub struct NewCharacter {
    pub name: String,
    pub job_id: i32,
    pub skin_colour: i32,
    pub gender: i32,
    pub hair: i32,
    pub face: i32,
    pub map: i32,
    pub starter_item: i32,
    pub top: i32,
    pub bottom: i32,
    pub shoes: i32,
    pub weapon: i32,
}

/// The equipment slots a new character's starting outfit is stored in: top 5,
/// bottom 6, shoes 7, weapon 11.
pub open spec fn starting_equipment_of(c: NewCharacter) -> Seq<(i32, i32)> {
    seq![(c.top, 5i32), (c.bottom, 6i32), (c.shoes, 7i32), (c.weapon, 11i32)]
}

impl NewCharacter {
    /// The equipment rows the new character starts with, in the order they are
    /// stored: each item id with the slot it is worn in.
    pub fn starting_equipment(&self) -> (equips: Vec<(i32, i32)>)
        ensures
            equips@ == starting_equipment_of(*self),
    {
        let equips = vec![(self.top, 5i32), (self.bottom, 6i32), (self.shoes, 7i32), (self.weapon, 11i32)];
        proof {
            assert(equips@ =~= starting_equipment_of(*self));
        }
        equips
    }
}

/// The creation fields of a create-character packet, when they are all there.
pub open spec fn creation_fields_present(s: Seq<u8>) -> bool {
    string_field_readable(s) && s.skip(string_field_len(s)).len() >= 37
}

/// Reads the fields of a create-character packet. `None` when the packet is too short.
pub fn read_character_creation(packet: &mut Packet) -> (creation: Option<CharacterCreation>)
    ensures
        final(packet).use_encryption == old(packet).use_encryption,
        creation is Some <==> creation_fields_present(old(packet)@),
        creation matches Some(c) ==> {
            let s = old(packet)@;
            let r = s.skip(string_field_len(s));
            &&& c.name@ == string_field_text(s)
            &&& c.job == crate::codec::i32_of_le(r)
            &&& c.face == crate::codec::i32_of_le(r.skip(4))
            &&& c.hair == crate::codec::i32_of_le(r.skip(8))
            &&& c.hair_colour == crate::codec::i32_of_le(r.skip(12))
            &&& c.skin_colour == crate::codec::i32_of_le(r.skip(16))
            &&& c.top == crate::codec::i32_of_le(r.skip(20))
            &&& c.bottom == crate::codec::i32_of_le(r.skip(24))
            &&& c.shoes == crate::codec::i32_of_le(r.skip(28))
            &&& c.weapon == crate::codec::i32_of_le(r.skip(32))
            &&& c.gender == r[36]
        },
{
    let name = match read_string_field(packet) {
        Some(name) => name,
        None => {
            return None;
        },
    };
    if packet.remaining() < 37 {
        return None;
    }
    let ghost r = packet@;
    let job = packet.read_int();
    let face = packet.read_int();
    let hair = packet.read_int();
    let hair_colour = packet.read_int();
    let skin_colour = packet.read_int();
    let top = packet.read_int();
    let bottom = packet.read_int();
    let shoes = packet.read_int();
    let weapon = packet.read_int();
    proof {
        assert(packet@ =~= r.skip(36));
    }
    let gender = packet.read_byte();
    proof {
        assert(r.skip(4).skip(4) =~= r.skip(8));
        assert(r.skip(8).skip(4) =~= r.skip(12));
        assert(r.skip(12).skip(4) =~= r.skip(16));
        assert(r.skip(16).skip(4) =~= r.skip(20));
        assert(r.skip(20).skip(4) =~= r.skip(24));
        assert(r.skip(24).skip(4) =~= r.skip(28));
        assert(r.skip(28).skip(4) =~= r.skip(32));
    }
    Some(
        CharacterCreation {
            name,
            job,
            face,
            hair,
            hair_colour,
            skin_colour,
            top,
            bottom,
            shoes,
            weapon,
            gender,
        },
    )
}

/// Starting guide book, job id and map of each class the client offers:
/// 0 Cygnus (noblesse), 1 explorer (beginner), 2 Aran (legend).
pub open spec fn spec_class_start(job: i32) -> Option<(i32, i32, i32)> {
    if job == 0 {
        Some((4161047, 1000, 130030000))
    } else if job == 1 {
        Some((4161001, 0, 10000))
    } else if job == 2 {
        Some((4161048, 2000, 914000000))
    } else {
        None
    }
}

/// The equipment is all from the starter sets.
pub open spec fn starter_outfit(c: CharacterCreation) -> bool {
    is_starter_weapon(c.weapon) && is_starter_top(c.top) && is_starter_bottom(c.bottom)
        && is_starter_shoes(c.shoes) && is_starter_hair(c.hair) && is_starter_face(c.face)
}

/// Checks a character creation request: the outfit must come from the starter
/// sets (anything else is a packet edit) and the class must be one the client
/// offers. `None` when the request is refused (the server then does nothing).
/// The hair is the hair style plus the hair colour.
pub fn validate_character_creation(creation: CharacterCreation) -> (character: Option<NewCharacter>)
    requires
        starter_outfit(creation) && spec_class_start(creation.job) is Some ==> i32::MIN
            <= creation.hair + creation.hair_colour <= i32::MAX,
    ensures
        character is Some <==> starter_outfit(creation) && spec_class_start(creation.job) is Some,
        character matches Some(c) ==> {
            let (item, job_id, map) = spec_class_start(creation.job).unwrap();
            &&& c.name@ == creation.name@
            &&& c.job_id == job_id
            &&& c.map == map
            &&& c.starter_item == item
            &&& c.skin_colour == creation.skin_colour
            &&& c.gender == creation.gender as i32
            &&& c.hair == creation.hair + creation.hair_colour
            &&& c.face == creation.face
            &&& c.top == creation.top
            &&& c.bottom == creation.bottom
            &&& c.shoes == creation.shoes
            &&& c.weapon == creation.weapon
        },
{
    if !starter_weapon(creation.weapon) || !starter_top(creation.top) || !starter_bottom(
        creation.bottom,
    ) || !starter_shoes(creation.shoes) || !starter_hair(creation.hair) || !starter_face(
        creation.face,
    ) {
        return None;
    }
    let (starter_item, job_id, map): (i32, i32, i32) = match creation.job {
        0 => (4161047, 1000, 130030000),
        1 => (4161001, 0, 10000),
        2 => (4161048, 2000, 914000000),
        _ => {
            return None;
        },
    };
    Some(
        NewCharacter {
            name: creation.name,
            job_id,
            skin_colour: creation.skin_colour,
            gender: creation.gender as i32,
            hair: creation.hair + creation.hair_colour,
            face: creation.face,
            map,
            starter_item,
            top: creation.top,
            bottom: creation.bottom,
            shoes: creation.shoes,
            weapon: creation.weapon,
        },
    )
}

// ---------------------------------------------------------------------------
// Worlds (0x04/0x0B world list, 0x06 world status, 0x05 character list)
// ---------------------------------------------------------------------------

/// The channel entries of a world's info packet, for its first `n` channels:
/// name (world name followed by the channel number), load (always 100), world
/// id, channel number, adult flag 0.
pub open spec fn channel_entries(name: Seq<char>, world_id: u8, n: nat) -> Seq<u8>
    decreases n,
{
    if n == 0 {
        Seq::empty()
    } else {
        let i = (n - 1) as nat;
        channel_entries(name, world_id, i) + string_field(name + crate::text::decimal(i as int))
            + le_i32(100) + seq![world_id, i as u8, 0u8]
    }
}

/// Bytes of a world's info packet.
pub open spec fn world_info_bytes(world: WorldConfig) -> Seq<u8> {
    le_i16(0x0A) + seq![world.id] + string_field(world.name@) + seq![world.flag] + string_field(
        world.event_message@,
    ) + seq![100u8, 0u8, 100u8, 0u8, 0u8, world.channels] + channel_entries(
        world.name@,
        world.id,
        world.channels as nat,
    ) + le_i16(0)
}

proof fn lemma_channel_entries_grow(name: Seq<char>, world_id: u8, i: nat, n: nat)
    requires
        i <= n,
    ensures
        channel_entries(name, world_id, i).len() <= channel_entries(name, world_id, n).len(),
    decreases n,
{
    if i < n {
        lemma_channel_entries_grow(name, world_id, i, (n - 1) as nat);
    }
}

/// Packet containing info for each world (name, rates, etc.)
pub fn world_info(world: &WorldConfig) -> (packet: Packet)
    requires
        crate::packet::buffer_fits(world_info_bytes(*world).len()),
    ensures
        packet.use_encryption,
        packet@ == world_info_bytes(*world),
{
    let ghost head = le_i16(0x0A) + seq![world.id] + string_field(world.name@) + seq![world.flag]
        + string_field(world.event_message@) + seq![100u8, 0u8, 100u8, 0u8, 0u8, world.channels];
    let mut packet = Packet::new(0x0A);
    packet.write_byte(world.id);
    packet.write_string(world.name.as_str());
    packet.write_byte(world.flag);
    packet.write_string(world.event_message.as_str());
    packet.write_bytes(&[100, 0, 100, 0, 0]);
    packet.write_byte(world.channels);
    proof {
        assert(packet@ =~= head);
    }
    let mut i: u8 = 0;
    while i < world.channels
        invariant
            packet.use_encryption,
            i <= world.channels,
            packet@ == head + channel_entries(world.name@, world.id, i as nat),
            crate::packet::buffer_fits(world_info_bytes(*world).len()),
            world_info_bytes(*world) == head + channel_entries(
                world.name@,
                world.id,
                world.channels as nat,
            ) + le_i16(0),
        decreases world.channels - i,
    {
        proof {
            lemma_channel_entries_grow(world.name@, world.id, (i + 1) as nat, world.channels as nat);
        }
        let mut name = world.name.clone();
        crate::text::push_decimal(&mut name, i as i64);
        packet.write_string(name.as_str());
        packet.write_int(100);
        packet.write_byte(world.id);
        packet.write_byte(i);
        packet.write_byte(0);
        proof {
            assert(packet@ =~= head + channel_entries(world.name@, world.id, (i + 1) as nat));
        }
        i += 1;
    }
    packet.write_short(0);
    packet
}

/// Packet indicating we are finished sending world_info packets
pub fn world_list_end() -> (packet: Packet)
    ensures
        packet.use_encryption,
        packet@ == le_i16(0x0A).push(0xFFu8),
{
    let mut packet = Packet::new(0x0A);
    packet.write_byte(0xFF);
    packet
}

/// The entries of the recommended-world packet: each world's id and message.
pub open spec fn recommended_entries(worlds: Seq<WorldConfig>) -> Seq<u8>
    decreases worlds.len(),
{
    if worlds.len() == 0 {
        Seq::empty()
    } else {
        recommended_entries(worlds.drop_last()) + le_i32(worlds.last().id as i32) + string_field(
            worlds.last().recommended_message@,
        )
    }
}

/// Bytes of the recommended-world packet.
pub open spec fn recommended_world_bytes(worlds: Seq<WorldConfig>) -> Seq<u8> {
    le_i16(0x1B) + seq![worlds.len() as u8] + recommended_entries(worlds)
}

proof fn lemma_recommended_entries_grow(worlds: Seq<WorldConfig>, i: int)
    requires
        0 <= i <= worlds.len(),
    ensures
        recommended_entries(worlds.take(i)).len() <= recommended_entries(worlds).len(),
    decreases worlds.len() - i,
{
    if i < worlds.len() {
        lemma_recommended_entries_grow(worlds, i + 1);
        assert(worlds.take(i + 1).drop_last() =~= worlds.take(i));
    } else {
        assert(worlds.take(i) =~= worlds);
    }
}

/// Packet containing recommended message for each world
pub fn recommended_world(worlds: &Vec<WorldConfig>) -> (packet: Packet)
    requires
        crate::packet::buffer_fits(recommended_world_bytes(worlds@).len()),
    ensures
        packet.use_encryption,
        packet@ == recommended_world_bytes(worlds@),
{
    let mut packet = Packet::new(0x1B);
    packet.write_byte(worlds.len() as u8);
    let ghost head = le_i16(0x1B) + seq![worlds@.len() as u8];
    proof {
        assert(packet@ =~= head + recommended_entries(worlds@.take(0)));
    }
    let mut i: usize = 0;
    while i < worlds.len()
        invariant
            packet.use_encryption,
            i <= worlds@.len(),
            packet@ == head + recommended_entries(worlds@.take(i as int)),
            head == le_i16(0x1B) + seq![worlds@.len() as u8],
            crate::packet::buffer_fits(recommended_world_bytes(worlds@).len()),
        decreases worlds@.len() - i,
    {
        proof {
            lemma_recommended_entries_grow(worlds@, i + 1);
            assert(worlds@.take(i + 1).drop_last() =~= worlds@.take(i as int));
            assert(worlds@.take(i + 1).last() == worlds@[i as int]);
        }
        let world = &worlds[i];
        packet.write_int(world.id as i32);
        packet.write_string(world.recommended_message.as_str());
        proof {
            assert(packet@ =~= head + recommended_entries(worlds@.take(i + 1)));
        }
        i += 1;
    }
    proof {
        assert(worlds@.take(worlds@.len() as int) =~= worlds@);
    }
    packet
}

// ---------------------------------------------------------------------------
// Packet routing
// ---------------------------------------------------------------------------

/// The handler of a login-server packet.
#[derive(PartialEq, Eq, Structural, Clone, Copy, Debug)]
pub enum LoginHandler {
    Login,
    CharacterList,
    WorldStatus,
    Tos,
    PinOperation,
    RegisterPin,
    WorldList,
    SelectCharacter,
    ValidateCharacterName,
    CreateCharacter,
    DeleteCharacter,
    RegisterPic,
    SelectCharacterPic,
    Unhandled { op_code: i16 },
}

/// The handler for an op code of the login server.
pub open spec fn spec_login_handler(op_code: i16) -> LoginHandler {
    if op_code == 0x01 {
        LoginHandler::Login
    } else if op_code == 0x05 {
        LoginHandler::CharacterList
    } else if op_code == 0x06 {
        LoginHandler::WorldStatus
    } else if op_code == 0x07 {
        LoginHandler::Tos
    } else if op_code == 0x09 {
        LoginHandler::PinOperation
    } else if op_code == 0x0A {
        LoginHandler::RegisterPin
    } else if op_code == 0x0B || op_code == 0x04 {
        LoginHandler::WorldList
    } else if op_code == 0x13 {
        LoginHandler::SelectCharacter
    } else if op_code == 0x15 {
        LoginHandler::ValidateCharacterName
    } else if op_code == 0x16 {
        LoginHandler::CreateCharacter
    } else if op_code == 0x17 {
        LoginHandler::DeleteCharacter
    } else if op_code == 0x1D {
        LoginHandler::RegisterPic
    } else if op_code == 0x1E {
        LoginHandler::SelectCharacterPic
    } else {
        LoginHandler::Unhandled { op_code }
    }
}

/// Reads the op code of a login-server packet and picks its handler; `None`
/// when the packet has no op code.
pub fn handle_login_packet(packet: &mut Packet) -> (handler: Option<LoginHandler>)
    ensures
        final(packet).use_encryption == old(packet).use_encryption,
        old(packet)@.len() < 2 ==> handler is None,
        old(packet)@.len() >= 2 ==> handler == Some(spec_login_handler(crate::codec::i16_of_le(old(packet)@)))
            && final(packet)@ == old(packet)@.skip(2),
{
    if packet.remaining() < 2 {
        return None;
    }
    let op = packet.read_short();
    let handler = match op {
        0x01 => LoginHandler::Login,
        0x05 => LoginHandler::CharacterList,
        0x06 => LoginHandler::WorldStatus,
        0x07 => LoginHandler::Tos,
        0x09 => LoginHandler::PinOperation,
        0x0A => LoginHandler::RegisterPin,
        0x0B | 0x04 => LoginHandler::WorldList,
        0x13 => LoginHandler::SelectCharacter,
        0x15 => LoginHandler::ValidateCharacterName,
        0x16 => LoginHandler::CreateCharacter,
        0x17 => LoginHandler::DeleteCharacter,
        0x1D => LoginHandler::RegisterPic,
        0x1E => LoginHandler::SelectCharacterPic,
        _ => LoginHandler::Unhandled { op_code: op },
    };
    Some(handler)
}

/// A world's load as the client shows it.
#[derive(PartialEq, Eq, Structural, Clone, Copy, Debug)]
pub enum WorldStatus {
    Normal,
    HighlyPopulated,
    Full,
}

pub open spec fn spec_world_status_code(status: WorldStatus) -> i16 {
    match status {
        WorldStatus::Normal => 0,
        WorldStatus::HighlyPopulated => 1,
        WorldStatus::Full => 2,
    }
}

/// Packet containing the world's capacity status
pub fn world_status(status: WorldStatus) -> (packet: Packet)
    ensures
        packet.use_encryption,
        packet@ == le_i16(0x03) + le_i16(spec_world_status_code(status)),
{
    let mut packet = Packet::new(0x03);
    let code: i16 = match status {
        WorldStatus::Normal => 0,
        WorldStatus::HighlyPopulated => 1,
        WorldStatus::Full => 2,
    };
    packet.write_short(code);
    packet
}

/// The status of a world with `connected` players: full at its configured
/// maximum, highly populated from `busy_threshold` on (80% of the maximum,
/// computed in single-precision floating point), normal below.
pub fn world_status_for(connected: i32, max_players: i32, busy_threshold: i32) -> (status: WorldStatus)
    ensures
        connected >= max_players ==> status == WorldStatus::Full,
        connected < max_players && connected >= busy_threshold ==> status == WorldStatus::HighlyPopulated,
        connected < max_players && connected < busy_threshold ==> status == WorldStatus::Normal,
{
    if connected >= max_players {
        WorldStatus::Full
    } else if connected >= busy_threshold {
        WorldStatus::HighlyPopulated
    } else {
        WorldStatus::Normal
    }
}

/// The world a world-status request names: the configured world at that index,
/// none for a negative or too large index.
pub fn requested_world(config: &Config, world_id: i16) -> (world: Option<&WorldConfig>)
    ensures
        world is None <==> world_id < 0 || world_id >= config.worlds@.len(),
        world matches Some(w) ==> w == &config.worlds@[world_id as int],
{
    if world_id < 0 {
        return None;
    }
    config.world(world_id as usize)
}

/// The status a world-status request is answered with: `Full` for an unknown
/// world, otherwise the status of the world at its `connected` players.
pub fn world_status_of(world: Option<&WorldConfig>, connected: i32, busy_threshold: i32) -> (status:
    WorldStatus)
    ensures
        world is None ==> status == WorldStatus::Full,
        world matches Some(w) ==> {
            &&& connected >= w.max_players ==> status == WorldStatus::Full
            &&& connected < w.max_players && connected >= busy_threshold ==> status
                == WorldStatus::HighlyPopulated
            &&& connected < w.max_players && connected < busy_threshold ==> status
                == WorldStatus::Normal
        },
{
    match world {
        None => WorldStatus::Full,
        Some(w) => world_status_for(connected, w.max_players, busy_threshold),
    }
}

/// Character-list request, after the world's player count was looked up:
/// `true` when the world is not full and the channel exists (the session then
/// takes the world and channel); otherwise the server answers `Full`.
pub fn select_world_channel(
    session: &mut Session,
    world: &WorldConfig,
    world_id: u8,
    connected: i32,
    channel_id: u8,
) -> (accepted: bool)
    ensures
        accepted == (connected < world.max_players && channel_id < world.channels),
        accepted ==> final(session).world_id == world_id && final(session).channel_id == channel_id,
        !accepted ==> final(session).world_id == old(session).world_id && final(session).channel_id
            == old(session).channel_id,
        final(session).account_id == old(session).account_id,
        final(session).character_id == old(session).character_id,
{
    if connected >= world.max_players {
        return false;
    }
    if channel_id >= world.channels {
        return false;
    }
    session.world_id = world_id as i32;
    session.channel_id = channel_id as i32;
    true
}

/// Bytes of the packet that sends the client to the world server.
pub open spec fn world_server_addr_bytes(session_id: i32, ip: [u8; 4]) -> Seq<u8> {
    le_i16(0x0C) + le_i16(0) + ip@ + le_i16(10000) + le_i32(session_id) + seq![0u8, 0u8, 0u8, 0u8, 0u8]
}

/// Packet containing the world server address and the client's session id
/// (sent where the client expects a character id, so that the world server
/// can find the session).
pub fn world_server_addr(session_id: i32, ip: [u8; 4]) -> (packet: Packet)
    ensures
        packet.use_encryption,
        packet@ == world_server_addr_bytes(session_id, ip),
{
    let mut packet = Packet::new(0x0C);
    packet.write_short(0);
    packet.write_bytes(&ip);
    packet.write_short(10000);
    packet.write_int(session_id);
    packet.write_bytes(&[0, 0, 0, 0, 0]);
    proof {
        assert(packet@ =~= world_server_addr_bytes(session_id, ip));
    }
    packet
}


/// The four bytes of a dotted world server address: the first four parts
/// between dots, each a decimal `u8`; parts after the fourth are not read.
pub open spec fn world_ip_of(text: Seq<char>) -> Option<[u8; 4]> {
    let parts = crate::text::dot_parts(text);
    if parts.len() < 4 {
        None
    } else if crate::text::spec_parse_u8(parts[0]) is None
        || crate::text::spec_parse_u8(parts[1]) is None
        || crate::text::spec_parse_u8(parts[2]) is None
        || crate::text::spec_parse_u8(parts[3]) is None {
        None
    } else {
        Some(
            [
                crate::text::spec_parse_u8(parts[0])->0,
                crate::text::spec_parse_u8(parts[1])->0,
                crate::text::spec_parse_u8(parts[2])->0,
                crate::text::spec_parse_u8(parts[3])->0,
            ],
        )
    }
}

/// Reads a world server address such as `127.0.0.1`; `None` where it has
/// fewer than four parts or one of the first four is no `u8`.
pub fn parse_world_ip(text: &str) -> (ip: Option<[u8; 4]>)
    ensures
        match world_ip_of(text@) {
            Some(want) => ip matches Some(got) && got@ == want@,
            None => ip is None,
        },
{
    let parts = crate::text::split_dots(text);
    if parts.len() < 4 {
        return None;
    }
    let a = crate::text::parse_u8(parts[0].as_str());
    let b = crate::text::parse_u8(parts[1].as_str());
    let c = crate::text::parse_u8(parts[2].as_str());
    let d = crate::text::parse_u8(parts[3].as_str());
    match (a, b, c, d) {
        (Some(a), Some(b), Some(c), Some(d)) => {
            let ip = [a, b, c, d];
            proof {
                let want = world_ip_of(text@)->0;
                assert(ip@ =~= want@);
            }
            Some(ip)
        },
        _ => None,
    }
}

} // verus!
