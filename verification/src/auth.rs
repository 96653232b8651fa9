//! Account sign-in results: offline accounts, the Microsoft device-code flow's answers,
//! Yggdrasil (authlib) servers, and the expiry timestamps written into results.
use vstd::prelude::*;
use crate::text::{chars_of, push_all, seq_eq, string_of, trim_end_char, trim_end_char_exec};
use crate::num::{decimal, u64_decimal};
use vstd::utf8::encode_utf8;
use crate::checksum::{hex_chars, hex_lower, hex_text};
use crate::datetime::{is_civil_of, unix_secs_to_iso8601_utc, unsigned_secs_to_iso8601_utc, utc_timestamp};

verus! {

/// The outcome of a sign-in.
pub struct AuthResult {
    pub success: bool,
    pub username: Option<String>,
    pub access_token: Option<String>,
    pub client_token: Option<String>,
    pub refresh_token: Option<String>,
    pub uuid: Option<String>,
    pub user_type: Option<String>,
    pub expires_at: Option<String>,
    pub error_message: Option<String>,
}

pub open spec fn opt_seq(o: Option<String>) -> Option<Seq<char>> {
    match o {
        Some(s) => Some(s@),
        None => None,
    }
}

fn copy_opt(o: &Option<String>) -> (r: Option<String>)
    ensures
        opt_seq(r) == opt_seq(*o),
{
    match o {
        Some(s) => Some(string_of(chars_of(s.as_str()).as_slice())),
        None => None,
    }
}

/// A failed sign-in carrying only its message.
pub fn failed_auth_result(error_message: &str) -> (r: AuthResult)
    ensures
        !r.success,
        r.username is None && r.access_token is None && r.client_token is None,
        r.refresh_token is None && r.uuid is None && r.user_type is None && r.expires_at is None,
        opt_seq(r.error_message) == Some(error_message@),
{
    AuthResult {
        success: false,
        username: None,
        access_token: None,
        client_token: None,
        refresh_token: None,
        uuid: None,
        user_type: None,
        expires_at: None,
        error_message: Some(String::from_str(error_message)),
    }
}

// ---------------------------------------------------------------------------
// Clock and random identifiers
// ---------------------------------------------------------------------------

/// Seconds since the Unix epoch by the system clock (`SystemTime::now()` since
/// `UNIX_EPOCH`, 0 for a clock set before it, as `i64`); nothing is stated of the value.
#[verifier::external_body]
pub fn unix_timestamp_secs() -> (r: i64) {
    std::time::SystemTime::now().duration_since(std::time::UNIX_EPOCH).unwrap_or_default().as_secs() as i64
}

/// A random (version 4) UUID in its 36-character hyphenated form (`Uuid::new_v4()`
/// displayed); only its length is stated.
#[verifier::external_body]
fn uuid_v4_hyphenated() -> (r: String)
    ensures
        r@.len() == 36,
{
    uuid::Uuid::new_v4().to_string()
}

/// A random (version 4) UUID as 32 hexadecimal digits (`Uuid::new_v4().simple()`);
/// only its length is stated.
#[verifier::external_body]
fn uuid_v4_simple() -> (r: String)
    ensures
        r@.len() == 32,
{
    uuid::Uuid::new_v4().simple().to_string()
}

// ---------------------------------------------------------------------------
// Offline player UUIDs
// ---------------------------------------------------------------------------

/// The MD5 digest of a byte sequence.
pub uninterp spec fn md5_digest(data: Seq<u8>) -> Seq<u8>;

/// `Md5::digest` of the md-5 crate: the digest is named by `md5_digest`; MD5 digests
/// are 16 bytes long.
#[verifier::external_body]
fn md5_bytes(data: &[u8]) -> (r: Vec<u8>)
    ensures
        r@ == md5_digest(data@),
        r@.len() == 16,
{
    <md5::Md5 as md5::Digest>::digest(data).to_vec()
}

/// A digest marked as a name-based (version 3) UUID: version bits `0011` in byte 6 and
/// variant bits `10` in byte 8.
pub open spec fn v3_bytes(d: Seq<u8>) -> Seq<u8> {
    d.update(6, (d[6] & 0x0f) | 0x30).update(8, (d[8] & 0x3f) | 0x80)
}

/// The offline UUID of a player: the version 3 UUID of the MD5 digest of
/// `OfflinePlayer:{name}` in UTF-8, as 32 lower-case hexadecimal digits.
pub open spec fn offline_player_uuid(name: Seq<char>) -> Seq<char> {
    hex_text(v3_bytes(md5_digest(encode_utf8("OfflinePlayer:"@ + name))))
}

/// The offline UUID of a player (see `offline_player_uuid`).
pub fn generate_uuid(username: &str) -> (r: String)
    ensures
        r@ == offline_player_uuid(username@),
        r@.len() == 32,
        r@[12] == '3',
{
    let mut text = chars_of("OfflinePlayer:");
    push_all(&mut text, chars_of(username).as_slice());
    let key = string_of(text.as_slice());
    let mut d = md5_bytes(key.as_str().as_bytes());
    let b6 = d[6];
    d.set(6, (b6 & 0x0f) | 0x30);
    let b8 = d[8];
    d.set(8, (b8 & 0x3f) | 0x80);
    proof {
        lemma_hex_text_len(d@);
        lemma_hex_text_at(d@, 6);
        let v = (b6 & 0x0f) | 0x30;
        assert(v / 16 == 3) by (bit_vector)
            requires
                v == (b6 & 0x0f) | 0x30,
        ;
    }
    string_of(hex_chars(d.as_slice()).as_slice())
}

proof fn lemma_hex_text_at(b: Seq<u8>, i: int)
    requires
        0 <= i < b.len(),
    ensures
        hex_text(b).len() == 2 * b.len(),
        hex_text(b)[2 * i] == hex_lower(b[i] as int / 16),
        hex_text(b)[2 * i + 1] == hex_lower(b[i] as int % 16),
    decreases b.len(),
{
    lemma_hex_text_len(b);
    if i < b.len() - 1 {
        lemma_hex_text_at(b.drop_last(), i);
    }
}

proof fn lemma_hex_text_len(b: Seq<u8>)
    ensures
        hex_text(b).len() == 2 * b.len(),
    decreases b.len(),
{
    if b.len() > 0 {
        lemma_hex_text_len(b.drop_last());
    }
}

// ---------------------------------------------------------------------------
// Expiry timestamps
// ---------------------------------------------------------------------------

/// A UTC timestamp text of some moment: `yyyy-MM-ddTHH:mm:ss` and the given ending.
pub open spec fn is_timestamp_text(t: Seq<char>, secs: int, zulu: bool) -> bool {
    exists|y: int, mo: int, d: int| is_civil_of(secs / 86400, y, mo, d) && t == utc_timestamp(secs, y, mo, d, zulu)
}

/// The expiry a day after `now` (seconds, with `i64` wrap-around as the addition in
/// release builds has it), as `+00:00` text.
pub fn expires_at_from(now: i64) -> (r: String)
    ensures
        is_timestamp_text(r@, now.wrapping_add(86400) as int, false),
{
    unix_secs_to_iso8601_utc(now.wrapping_add(86400), false)
}

/// An instant has exactly one timestamp text of each ending.
pub proof fn lemma_timestamp_text_unique(a: Seq<char>, b: Seq<char>, secs: int, zulu: bool)
    requires
        is_timestamp_text(a, secs, zulu),
        is_timestamp_text(b, secs, zulu),
    ensures
        a == b,
{
    let (y1, m1, d1) = choose|y: int, mo: int, d: int|
        is_civil_of(secs / 86400, y, mo, d) && a == utc_timestamp(secs, y, mo, d, zulu);
    let (y2, m2, d2) = choose|y: int, mo: int, d: int|
        is_civil_of(secs / 86400, y, mo, d) && b == utc_timestamp(secs, y, mo, d, zulu);
    crate::datetime::lemma_civil_unique(secs / 86400, y1, m1, d1, y2, m2, d2);
}

/// A day after `now` and 24 hours after `now` are the same text: the expiry written a
/// day ahead agrees with the one written `24` hours ahead, for every non-negative `now`
/// whose expiry fits in `i64`.
pub proof fn lemma_day_is_24_hours(now: u64, a: Seq<char>, b: Seq<char>)
    requires
        now <= i64::MAX - 86400,
        is_timestamp_text(a, (now as i64).wrapping_add(86400) as int, false),
        is_timestamp_text(b, now.wrapping_add(24u64.wrapping_mul(3600)) as int, false),
    ensures
        a == b,
{
    assert((now as i64).wrapping_add(86400) as int == now + 86400);
    assert(24u64.wrapping_mul(3600) == 86400);
    assert(now.wrapping_add(86400) as int == now + 86400);
    lemma_timestamp_text_unique(a, b, now + 86400, false);
}

/// A day from now, as `+00:00` text.
pub fn expires_at_utc_plus_24h() -> (r: String)
    ensures
        exists|now: i64| is_timestamp_text(r@, now.wrapping_add(86400) as int, false),
{
    let now = unix_timestamp_secs();
    expires_at_from(now)
}

/// `hours` after `now` (unsigned seconds, wrapping as release builds do), as `+00:00` text.
pub fn plus_hours_from(now: u64, hours: u64) -> (r: String)
    ensures
        is_timestamp_text(r@, now.wrapping_add(hours.wrapping_mul(3600)) as int, false),
{
    unsigned_secs_to_iso8601_utc(now.wrapping_add(hours.wrapping_mul(3600)))
}

/// `hours` from now, as `+00:00` text.
pub fn utc_now_plus_hours(hours: u64) -> (r: String)
    ensures
        exists|now: u64| is_timestamp_text(r@, now.wrapping_add(hours.wrapping_mul(3600)) as int, false),
{
    let now = unix_timestamp_secs();
    plus_hours_from(now as u64, hours)
}

/// The current time as `Z`-terminated text.
pub fn utc_now_z_string() -> (r: String)
    ensures
        exists|now: i64| is_timestamp_text(r@, now as int, true),
{
    let now = unix_timestamp_secs();
    let r = unix_secs_to_iso8601_utc(now, true);
    assert(is_timestamp_text(r@, now as int, true));
    r
}

// ---------------------------------------------------------------------------
// Offline accounts
// ---------------------------------------------------------------------------

/// Offline sign-in, the default provider.
pub struct OfflineAuthProvider;

impl OfflineAuthProvider {
    /// Always succeeds, as the named player ("Player" when no name
    /// is given) with that player's offline UUID, fresh random access and client tokens
    /// and the "legacy" user type.
    pub fn authenticate(&self, username: Option<String>) -> (r: AuthResult)
        ensures
            r.success,
            opt_seq(r.username) == Some(
                match username {
                    Some(u) => u@,
                    None => "Player"@,
                },
            ),
            r.access_token is Some && r.access_token->0@.len() == 36,
            r.client_token is Some && r.client_token->0@.len() == 36,
            r.refresh_token is None,
            opt_seq(r.uuid) == Some(
                offline_player_uuid(
                    match username {
                        Some(u) => u@,
                        None => "Player"@,
                    },
                ),
            ),
            opt_seq(r.user_type) == Some("legacy"@),
            r.expires_at is None,
            r.error_message is None,
    {
        let name = match username {
            Some(u) => u,
            None => String::from_str("Player"),
        };
        let uuid = generate_uuid(name.as_str());
        AuthResult {
            success: true,
            username: Some(name),
            access_token: Some(uuid_v4_hyphenated()),
            client_token: Some(uuid_v4_hyphenated()),
            refresh_token: None,
            uuid: Some(uuid),
            user_type: Some(String::from_str("legacy")),
            expires_at: None,
            error_message: None,
        }
    }

    /// An offline token is always valid.
    pub fn validate(&self, access_token: &str) -> (r: bool)
        ensures
            r,
    {
        true
    }

    /// There is nothing to undo offline.
    pub fn invalidate(&self, access_token: &str) {
    }
}

// ---------------------------------------------------------------------------
// Microsoft device-code flow
// ---------------------------------------------------------------------------

/// The state of a device-code sign-in after one poll.
pub struct PollTokenResult {
    pub access_token: Option<String>,
    pub refresh_token: Option<String>,
    pub error: Option<String>,
    pub is_completed: bool,
    pub is_pending: bool,
}

/// The token endpoint's answer: its `error`, `access_token` and `refresh_token` texts.
pub struct TokenAnswer {
    pub error: Option<String>,
    pub access_token: Option<String>,
    pub refresh_token: Option<String>,
}

/// What a poll concludes from the token endpoint's answer (`None` when the body is
/// not a JSON object): no error means done with the tokens; a declined or expired code
/// ends the flow; every other error (pending, slow down) keeps polling; an unreadable
/// answer keeps polling with the error "解析失败".
pub fn poll_token_result(answer: &Option<TokenAnswer>) -> (r: PollTokenResult)
    ensures
        match answer {
            None => r.access_token is None && r.refresh_token is None && opt_seq(r.error) == Some("解析失败"@)
                && !r.is_completed && r.is_pending,
            Some(a) => match a.error {
                None => opt_seq(r.access_token) == opt_seq(a.access_token) && opt_seq(r.refresh_token)
                    == opt_seq(a.refresh_token) && r.error is None && r.is_completed && !r.is_pending,
                Some(e) => r.access_token is None && r.refresh_token is None && opt_seq(r.error) == Some(e@)
                    && !r.is_completed && r.is_pending == !(e@ == "authorization_declined"@ || e@
                    == "expired_token"@),
            },
        },
{
    match answer {
        None => PollTokenResult {
            access_token: None,
            refresh_token: None,
            error: Some(String::from_str("解析失败")),
            is_completed: false,
            is_pending: true,
        },
        Some(a) => match &a.error {
            None => PollTokenResult {
                access_token: copy_opt(&a.access_token),
                refresh_token: copy_opt(&a.refresh_token),
                error: None,
                is_completed: true,
                is_pending: false,
            },
            Some(e) => {
                let ec = chars_of(e.as_str());
                let declined = chars_of("authorization_declined");
                let expired = chars_of("expired_token");
                let stop = seq_eq(ec.as_slice(), declined.as_slice()) || seq_eq(ec.as_slice(), expired.as_slice());
                PollTokenResult {
                    access_token: None,
                    refresh_token: None,
                    error: Some(string_of(ec.as_slice())),
                    is_completed: false,
                    is_pending: !stop,
                }
            },
        },
    }
}

/// A device code to show the user.
pub struct DeviceCodeResult {
    pub device_code: String,
    pub user_code: String,
    pub verification_uri: String,
    pub interval: i32,
    pub expires_in: i32,
}

/// The device-code endpoint's answer: its `device_code`, `user_code` and
/// `verification_uri` texts and its `interval` and `expires_in` integers.
pub struct DeviceAnswer {
    pub device_code: Option<String>,
    pub user_code: Option<String>,
    pub verification_uri: Option<String>,
    pub interval: Option<i64>,
    pub expires_in: Option<i64>,
}

/// The device code of an answer that names both codes: the link empty when absent,
/// polling every 5 seconds and expiring after 900 unless the answer says otherwise
/// (cut to `i32`).
pub fn device_code_result(answer: &DeviceAnswer) -> (r: Option<DeviceCodeResult>)
    ensures
        match r {
            None => answer.device_code is None || answer.user_code is None,
            Some(d) => {
                &&& answer.device_code is Some && answer.user_code is Some
                &&& d.device_code@ == answer.device_code->0@
                &&& d.user_code@ == answer.user_code->0@
                &&& d.verification_uri@ == (match answer.verification_uri {
                    Some(u) => u@,
                    None => Seq::<char>::empty(),
                })
                &&& d.interval == (match answer.interval {
                    Some(i) => i as i32,
                    None => 5i32,
                })
                &&& d.expires_in == (match answer.expires_in {
                    Some(i) => i as i32,
                    None => 900i32,
                })
            },
        },
{
    let device_code = match &answer.device_code {
        Some(c) => string_of(chars_of(c.as_str()).as_slice()),
        None => {
            return None;
        },
    };
    let user_code = match &answer.user_code {
        Some(c) => string_of(chars_of(c.as_str()).as_slice()),
        None => {
            return None;
        },
    };
    let verification_uri = match &answer.verification_uri {
        Some(u) => string_of(chars_of(u.as_str()).as_slice()),
        None => string_of(Vec::<char>::new().as_slice()),
    };
    let interval: i32 = match answer.interval {
        Some(i) => i as i32,
        None => 5,
    };
    let expires_in: i32 = match answer.expires_in {
        Some(i) => i as i32,
        None => 900,
    };
    Some(DeviceCodeResult { device_code, user_code, verification_uri, interval, expires_in })
}

// ---------------------------------------------------------------------------
// Yggdrasil servers
// ---------------------------------------------------------------------------

/// The server root: the address without trailing slashes, then one slash.
pub fn yggdrasil_root(server_url: &str) -> (r: String)
    ensures
        r@ == trim_end_char(server_url@, '/') + seq!['/'],
{
    let mut r = trim_end_char_exec(chars_of(server_url).as_slice(), '/');
    r.push('/');
    string_of(r.as_slice())
}

/// A fresh client token for a Yggdrasil sign-in: 32 hexadecimal digits of a random UUID.
pub fn yggdrasil_client_token() -> (r: String)
    ensures
        r@.len() == 32,
{
    uuid_v4_simple()
}

/// The result of a refused sign-in: the server's `errorMessage`, else
/// "认证失败: {status}".
pub fn yggdrasil_failure(status: u16, error_message: Option<String>) -> (r: AuthResult)
    ensures
        !r.success,
        r.username is None && r.access_token is None && r.uuid is None,
        r.client_token is None && r.refresh_token is None && r.user_type is None && r.expires_at is None,
        opt_seq(r.error_message) == Some(
            match error_message {
                Some(m) => m@,
                None => "认证失败: "@ + decimal(status as nat),
            },
        ),
{
    let msg = match error_message {
        Some(m) => m,
        None => {
            let mut t = chars_of("认证失败: ");
            push_all(&mut t, u64_decimal(status as u64).as_slice());
            string_of(t.as_slice())
        },
    };
    AuthResult {
        success: false,
        username: None,
        access_token: None,
        client_token: None,
        refresh_token: None,
        uuid: None,
        user_type: None,
        expires_at: None,
        error_message: Some(msg),
    }
}

/// A profile of a Yggdrasil answer: its `name` and `id`.
pub struct YggdrasilProfile {
    pub name: Option<String>,
    pub id: Option<String>,
}

/// A property of the answer's user: its `name` and `value`.
pub struct YggdrasilProperty {
    pub name: Option<String>,
    pub value: Option<String>,
}

/// The parts of a successful `authenticate` answer that the result takes.
pub struct YggdrasilAnswer {
    pub access_token: Option<String>,
    pub client_token: Option<String>,
    pub selected_profile: Option<YggdrasilProfile>,
    pub available_profiles: Option<Vec<YggdrasilProfile>>,
    pub user_properties: Option<Vec<YggdrasilProperty>>,
}

/// The profile signed in: the selected one, else the first available one.
pub open spec fn chosen_profile(a: YggdrasilAnswer) -> Option<YggdrasilProfile> {
    match a.selected_profile {
        Some(p) => Some(p),
        None => match a.available_profiles {
            Some(ps) => if ps@.len() > 0 {
                Some(ps@[0])
            } else {
                None
            },
            None => None,
        },
    }
}

/// Position of the first property named "userType", or -1.
pub open spec fn user_type_index(ps: Seq<YggdrasilProperty>) -> int
    decreases ps.len(),
{
    if ps.len() == 0 {
        -1
    } else {
        let i = user_type_index(ps.drop_last());
        if i >= 0 {
            i
        } else if ps.last().name is Some && ps.last().name->0@ == "userType"@ {
            ps.len() - 1
        } else {
            -1
        }
    }
}

/// The value of the first "userType" property.
pub open spec fn answer_user_type(a: YggdrasilAnswer) -> Option<Seq<char>> {
    match a.user_properties {
        Some(ps) => if user_type_index(ps@) >= 0 {
            opt_seq(ps@[user_type_index(ps@)].value)
        } else {
            None
        },
        None => None,
    }
}

proof fn lemma_user_type_index(ps: Seq<YggdrasilProperty>, k: int)
    requires
        0 <= k <= ps.len(),
    ensures
        user_type_index(ps.take(k)) >= 0 ==> user_type_index(ps) == user_type_index(ps.take(k)),
        user_type_index(ps.take(k)) < 0 && k < ps.len() && ps[k].name is Some && ps[k].name->0@ == "userType"@
            ==> user_type_index(ps) == k,
        -1 <= user_type_index(ps) < ps.len(),
    decreases ps.len() - k,
{
    if k < ps.len() {
        assert(ps.take(k + 1).drop_last() =~= ps.take(k));
        assert(ps.take(k + 1).last() == ps[k]);
        lemma_user_type_index(ps, k + 1);
    } else {
        assert(ps.take(k) =~= ps);
        lemma_user_type_index_range(ps);
    }
}

proof fn lemma_user_type_index_range(ps: Seq<YggdrasilProperty>)
    ensures
        -1 <= user_type_index(ps) < ps.len(),
    decreases ps.len(),
{
    if ps.len() > 0 {
        lemma_user_type_index_range(ps.drop_last());
    }
}

fn find_user_type(ps: &Vec<YggdrasilProperty>) -> (r: Option<String>)
    ensures
        opt_seq(r) == (if user_type_index(ps@) >= 0 {
            opt_seq(ps@[user_type_index(ps@)].value)
        } else {
            None
        }),
{
    let key = chars_of("userType");
    let mut i: usize = 0;
    proof {
        assert(ps@.take(0) =~= Seq::<YggdrasilProperty>::empty());
        lemma_user_type_index_range(ps@);
    }
    while i < ps.len()
        invariant
            i <= ps.len(),
            key@ == "userType"@,
            user_type_index(ps@.take(i as int)) < 0,
            -1 <= user_type_index(ps@) < ps@.len(),
        decreases ps.len() - i,
    {
        let hit = match &ps[i].name {
            Some(n) => seq_eq(chars_of(n.as_str()).as_slice(), key.as_slice()),
            None => false,
        };
        proof {
            lemma_user_type_index(ps@, i as int);
            assert(ps@.take(i + 1).drop_last() =~= ps@.take(i as int));
            assert(ps@.take(i + 1).last() == ps@[i as int]);
        }
        if hit {
            return copy_opt(&ps[i].value);
        }
        i = i + 1;
    }
    proof {
        assert(ps@.take(i as int) =~= ps@);
    }
    None
}

/// The result of a successful sign-in answer: refused as "无法解析认证响应" without an
/// access token; else the chosen profile's name and id, the tokens, the user type
/// property and the given expiry.
pub fn yggdrasil_success(answer: &YggdrasilAnswer, expires_at: String) -> (r: AuthResult)
    ensures
        answer.access_token is None ==> !r.success && opt_seq(r.error_message) == Some("无法解析认证响应"@)
            && r.username is None && r.access_token is None && r.uuid is None && r.client_token is None
            && r.refresh_token is None && r.user_type is None && r.expires_at is None,
        answer.access_token is Some ==> {
            &&& r.success
            &&& opt_seq(r.username) == (match chosen_profile(*answer) {
                Some(p) => opt_seq(p.name),
                None => None,
            })
            &&& opt_seq(r.uuid) == (match chosen_profile(*answer) {
                Some(p) => opt_seq(p.id),
                None => None,
            })
            &&& opt_seq(r.access_token) == opt_seq(answer.access_token)
            &&& opt_seq(r.client_token) == opt_seq(answer.client_token)
            &&& r.refresh_token is None
            &&& opt_seq(r.user_type) == answer_user_type(*answer)
            &&& opt_seq(r.expires_at) == Some(expires_at@)
            &&& r.error_message is None
        },
{
    if answer.access_token.is_none() {
        return failed_auth_result("无法解析认证响应");
    }
    let profile: Option<&YggdrasilProfile> = match &answer.selected_profile {
        Some(p) => Some(p),
        None => match &answer.available_profiles {
            Some(ps) => if ps.len() > 0 {
                Some(&ps[0])
            } else {
                None
            },
            None => None,
        },
    };
    let (username, uuid) = match profile {
        Some(p) => (copy_opt(&p.name), copy_opt(&p.id)),
        None => (None, None),
    };
    let user_type = match &answer.user_properties {
        Some(ps) => find_user_type(ps),
        None => None,
    };
    AuthResult {
        success: true,
        username,
        access_token: copy_opt(&answer.access_token),
        client_token: copy_opt(&answer.client_token),
        refresh_token: None,
        uuid,
        user_type,
        expires_at: Some(expires_at),
        error_message: None,
    }
}

/// A token is valid exactly when the server answers 204 No Content.
pub fn yggdrasil_validated(status: u16) -> (r: bool)
    ensures
        r == (status == 204),
{
    status == 204
}

} // verus!
