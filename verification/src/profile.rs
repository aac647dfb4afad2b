//! Profiles: the configuration of one portal account, its defaults, its status while
//! it runs, and the bookkeeping of the profile list.
use vstd::prelude::*;
use crate::text::{chars_of, string_from_chars, push_str, push_decimal, decimal, str_eq};
use crate::stalker::Channel;
use crate::filter::{FilterModel, FilterStore};

verus! {

/// The configuration of one portal account.
#[derive(Debug, Clone)]
pub struct ProfileConfig {
    pub id: i32,
    pub name: String,
    pub portal_url: String,
    pub mac: String,
    pub username: String,
    pub password: String,
    pub hls_port: u16,
    pub proxy_port: u16,
    pub timezone: String,
    pub serial_number: String,
    pub device_id: String,
    pub device_id2: String,
    pub signature: String,
    pub model: String,
    pub watchdog_interval: u32,
    pub device_id_auth: bool,
    pub hls_enabled: bool,
    pub proxy_enabled: bool,
    pub proxy_rewrite: bool,
}

/// Sixty-four `f`s: the device ids and signature used when none are given.
pub open spec fn default_device_id() -> Seq<char> {
    "ffffffffffffffffffffffffffffffffffffffffffffffffffffffffffffffff"@
}

fn default_device_id_string() -> (r: String)
    ensures
        r@ == default_device_id(),
{
    string_from_chars(chars_of("ffffffffffffffffffffffffffffffffffffffffffffffffffffffffffffffff"))
}

impl ProfileConfig {
    /// Whether a configuration holds the defaults: no name, portal, MAC or credentials;
    /// HLS port 4600, proxy port 4800, UTC, serial `0000000000000`, the default device
    /// ids and signature, a MAG254, a watchdog every 5 minutes, and every switch on.
    pub open spec fn is_default(self) -> bool {
        &&& self.id == 0
        &&& self.name@ == Seq::<char>::empty()
        &&& self.portal_url@ == Seq::<char>::empty()
        &&& self.mac@ == Seq::<char>::empty()
        &&& self.username@ == Seq::<char>::empty()
        &&& self.password@ == Seq::<char>::empty()
        &&& self.hls_port == 4600
        &&& self.proxy_port == 4800
        &&& self.timezone@ == "UTC"@
        &&& self.serial_number@ == "0000000000000"@
        &&& self.device_id@ == default_device_id()
        &&& self.device_id2@ == default_device_id()
        &&& self.signature@ == default_device_id()
        &&& self.model@ == "MAG254"@
        &&& self.watchdog_interval == 5
        &&& self.device_id_auth
        &&& self.hls_enabled
        &&& self.proxy_enabled
        &&& self.proxy_rewrite
    }
}

impl ProfileConfig {
    /// A copy with the same values.
    pub fn copy(&self) -> (r: ProfileConfig)
        ensures
            r == *self,
    {
        ProfileConfig {
            id: self.id,
            name: self.name.clone(),
            portal_url: self.portal_url.clone(),
            mac: self.mac.clone(),
            username: self.username.clone(),
            password: self.password.clone(),
            hls_port: self.hls_port,
            proxy_port: self.proxy_port,
            timezone: self.timezone.clone(),
            serial_number: self.serial_number.clone(),
            device_id: self.device_id.clone(),
            device_id2: self.device_id2.clone(),
            signature: self.signature.clone(),
            model: self.model.clone(),
            watchdog_interval: self.watchdog_interval,
            device_id_auth: self.device_id_auth,
            hls_enabled: self.hls_enabled,
            proxy_enabled: self.proxy_enabled,
            proxy_rewrite: self.proxy_rewrite,
        }
    }
}

impl Default for ProfileConfig {
    fn default() -> (r: Self)
        ensures
            r.is_default(),
    {
        ProfileConfig {
            id: 0,
            name: string_from_chars(Vec::new()),
            portal_url: string_from_chars(Vec::new()),
            mac: string_from_chars(Vec::new()),
            username: string_from_chars(Vec::new()),
            password: string_from_chars(Vec::new()),
            hls_port: 4600,
            proxy_port: 4800,
            timezone: string_from_chars(chars_of("UTC")),
            serial_number: string_from_chars(chars_of("0000000000000")),
            device_id: default_device_id_string(),
            device_id2: default_device_id_string(),
            signature: default_device_id_string(),
            model: string_from_chars(chars_of("MAG254")),
            watchdog_interval: 5,
            device_id_auth: true,
            hls_enabled: true,
            proxy_enabled: true,
            proxy_rewrite: true,
        }
    }
}

/// What a running (or idle) profile reports.
#[derive(Debug, Clone)]
pub struct ProfileStatus {
    pub phase: String,
    pub message: String,
    pub channels_count: usize,
    pub hls_addr: String,
    pub proxy_addr: String,
    pub running: bool,
}

impl Default for ProfileStatus {
    fn default() -> (r: Self)
        ensures
            r.phase@ == "idle"@,
            r.message@ == "Not started"@,
            r.channels_count == 0,
            r.hls_addr@ == Seq::<char>::empty(),
            r.proxy_addr@ == Seq::<char>::empty(),
            !r.running,
    {
        ProfileStatus {
            phase: string_from_chars(chars_of("idle")),
            message: string_from_chars(chars_of("Not started")),
            channels_count: 0,
            hls_addr: string_from_chars(Vec::new()),
            proxy_addr: string_from_chars(Vec::new()),
            running: false,
        }
    }
}

/// The status of a profile that started with `count` channels.
pub fn running_status(cfg: &ProfileConfig, count: usize) -> (r: ProfileStatus)
    ensures
        r.phase@ == "success"@,
        r.message@ == "Running"@,
        r.channels_count == count,
        r.hls_addr@ == seq![':'] + decimal(cfg.hls_port as nat),
        r.proxy_addr@ == seq![':'] + decimal(cfg.proxy_port as nat),
        r.running,
{
    let mut h: Vec<char> = vec![':'];
    push_decimal(&mut h, cfg.hls_port as u64);
    let mut p: Vec<char> = vec![':'];
    push_decimal(&mut p, cfg.proxy_port as u64);
    ProfileStatus {
        phase: string_from_chars(chars_of("success")),
        message: string_from_chars(chars_of("Running")),
        channels_count: count,
        hls_addr: string_from_chars(h),
        proxy_addr: string_from_chars(p),
        running: true,
    }
}

/// The address a server of the profile listens on: every interface, the given port.
pub fn bind_addr(port: u16) -> (r: String)
    ensures
        r@ == "0.0.0.0:"@ + decimal(port as nat),
{
    let mut v = chars_of("0.0.0.0:");
    push_decimal(&mut v, port as u64);
    string_from_chars(v)
}

/// The watchdog period in seconds: the interval is in minutes.
pub fn watchdog_period_secs(interval_minutes: u32) -> (r: u64)
    ensures
        r == interval_minutes * 60,
{
    interval_minutes as u64 * 60
}

// ---------------------------------------------------------------------------
// Creating profiles
// ---------------------------------------------------------------------------

/// A request to create or replace a profile; what is left out gets its default.
#[derive(Debug, Clone)]
pub struct CreateProfileRequest {
    pub id: Option<i32>,
    pub name: String,
    pub portal_url: String,
    pub mac: String,
    pub username: Option<String>,
    pub password: Option<String>,
    pub hls_port: Option<u16>,
    pub proxy_port: Option<u16>,
    pub timezone: Option<String>,
    pub model: Option<String>,
    pub device_id_auth: Option<bool>,
    pub hls_enabled: Option<bool>,
    pub proxy_enabled: Option<bool>,
    pub proxy_rewrite: Option<bool>,
    pub serial_number: Option<String>,
    pub device_id: Option<String>,
    pub device_id2: Option<String>,
    pub signature: Option<String>,
    pub watchdog_interval: Option<u32>,
}

/// The largest id of the profiles, or 0 where there are none.
pub open spec fn max_id(ps: Seq<ProfileConfig>) -> int
    decreases ps.len(),
{
    if ps.len() == 0 {
        0
    } else {
        let m = max_id(ps.drop_last());
        if ps.last().id > m {
            ps.last().id as int
        } else {
            m
        }
    }
}

/// The id a new profile gets: the one asked for, else one more than the largest.
pub open spec fn new_profile_id(ps: Seq<ProfileConfig>, req_id: Option<i32>) -> int {
    match req_id {
        Some(id) => id as int,
        None => max_id(ps) + 1,
    }
}

proof fn lemma_max_id_bounds(ps: Seq<ProfileConfig>)
    ensures
        i32::MIN <= max_id(ps) <= i32::MAX,
        max_id(ps) >= 0,
    decreases ps.len(),
{
    if ps.len() > 0 {
        lemma_max_id_bounds(ps.drop_last());
    }
}

/// The id of a new profile (see `new_profile_id`).
pub fn profile_id_for(profiles: &Vec<ProfileConfig>, req_id: Option<i32>) -> (r: Option<i32>)
    ensures
        match r {
            Some(id) => id == new_profile_id(profiles@, req_id),
            None => new_profile_id(profiles@, req_id) > i32::MAX,
        },
{
    match req_id {
        Some(id) => Some(id),
        None => {
            let mut m: i32 = 0;
            let mut i: usize = 0;
            while i < profiles.len()
                invariant
                    i <= profiles.len(),
                    m == max_id(profiles@.subrange(0, i as int)),
                decreases profiles.len() - i,
            {
                let ghost after = profiles@.subrange(0, i + 1);
                assert(after.drop_last() =~= profiles@.subrange(0, i as int));
                if profiles[i].id > m {
                    m = profiles[i].id;
                }
                i += 1;
            }
            assert(profiles@.subrange(0, profiles@.len() as int) =~= profiles@);
            proof {
                lemma_max_id_bounds(profiles@);
            }
            if m == i32::MAX {
                None
            } else {
                Some(m + 1)
            }
        },
    }
}

/// The low 16 bits of an id (what `id as u16` keeps).
pub open spec fn low16(id: i32) -> nat {
    (id as int % 65536) as nat
}

/// The default HLS port of a profile: 4600, then two more for each id after the first.
pub open spec fn default_hls_port(id: i32) -> int {
    4600 + (if low16(id) >= 1 {
        low16(id) - 1
    } else {
        0
    }) * 2
}

/// Whether the default ports of an id fit in 16 bits (the computation overflows
/// otherwise).
pub open spec fn default_ports_fit(id: i32) -> bool {
    default_hls_port(id) + 1 <= u16::MAX
}

/// Whether the default ports of a profile id fit in 16 bits (see `default_ports_fit`).
pub fn default_ports_fit_for(id: i32) -> (r: bool)
    ensures
        r == default_ports_fit(id),
{
    let low = low16_of(id);
    let base: u32 = if low >= 1 {
        (low - 1) as u32
    } else {
        0
    };
    4600 + base * 2 + 1 <= 65535
}

fn low16_of(id: i32) -> (r: u16)
    ensures
        r as nat == low16(id),
{
    if id >= 0 {
        let r = (id as u32 % 65536) as u16;
        r
    } else {
        let a: u64 = (0i64 - id as i64) as u64;
        let r = a % 65536;
        let v = (65536 - r) % 65536;
        proof {
            let q = (a / 65536) as int;
            assert(a == q * 65536 + r) by (nonlinear_arith)
                requires
                    q == a / 65536,
                    r == a % 65536,
            ;
            assert(id as int == -(q * 65536) - r);
            if r == 0 {
                assert((id as int) % 65536 == 0) by (nonlinear_arith)
                    requires
                        id as int == -(q * 65536),
                ;
            } else {
                assert((id as int) % 65536 == 65536 - r) by (nonlinear_arith)
                    requires
                        id as int == -((q + 1) * 65536) + (65536 - r),
                        0 < r < 65536,
                ;
            }
        }
        v as u16
    }
}

/// The MAC of a new profile: what `str::to_uppercase` makes of the one given.
pub uninterp spec fn uppercase_of(s: Seq<char>) -> Seq<char>;

/// Calls `str::to_uppercase`. The contract names the result.
#[verifier::external_body]
fn uppercase(s: &str) -> (r: String)
    ensures
        r@ == uppercase_of(s@),
{
    s.to_uppercase()
}

fn or_default(o: &Option<String>, d: &str) -> (r: String)
    ensures
        r@ == match o {
            Some(s) => s@,
            None => d@,
        },
{
    match o {
        Some(s) => s.clone(),
        None => string_from_chars(chars_of(d)),
    }
}

/// An optional text, or `d` where it is absent.
pub open spec fn text_or(o: Option<String>, d: Seq<char>) -> Seq<char> {
    match o {
        Some(s) => s@,
        None => d,
    }
}

/// Whether `cfg` is the configuration a request creates for the profile `id`: the
/// request's values, with defaults for what it leaves out (ports counted from the id).
pub open spec fn is_profile_of_request(cfg: ProfileConfig, req: CreateProfileRequest, id: i32) -> bool {
    &&& cfg.id == id
    &&& cfg.name@ == req.name@
    &&& cfg.portal_url@ == req.portal_url@
    &&& cfg.mac@ == uppercase_of(req.mac@)
    &&& cfg.username@ == text_or(req.username, Seq::empty())
    &&& cfg.password@ == text_or(req.password, Seq::empty())
    &&& cfg.hls_port == match req.hls_port {
        Some(p) => p as int,
        None => default_hls_port(id),
    }
    &&& cfg.proxy_port == match req.proxy_port {
        Some(p) => p as int,
        None => default_hls_port(id) + 1,
    }
    &&& cfg.timezone@ == text_or(req.timezone, "UTC"@)
    &&& cfg.serial_number@ == text_or(req.serial_number, "0000000000000"@)
    &&& cfg.device_id@ == text_or(req.device_id, default_device_id())
    &&& cfg.device_id2@ == text_or(req.device_id2, default_device_id())
    &&& cfg.signature@ == text_or(req.signature, default_device_id())
    &&& cfg.model@ == text_or(req.model, "MAG254"@)
    &&& cfg.device_id_auth == match req.device_id_auth {
        Some(b) => b,
        None => true,
    }
    &&& cfg.watchdog_interval == match req.watchdog_interval {
        Some(w) => w,
        None => 5,
    }
    &&& cfg.hls_enabled == match req.hls_enabled {
        Some(b) => b,
        None => true,
    }
    &&& cfg.proxy_enabled == match req.proxy_enabled {
        Some(b) => b,
        None => true,
    }
    &&& cfg.proxy_rewrite == match req.proxy_rewrite {
        Some(b) => b,
        None => true,
    }
}

/// The configuration a request creates for the profile `id`.
pub fn profile_from_request(req: &CreateProfileRequest, id: i32) -> (r: ProfileConfig)
    requires
        default_ports_fit(id),
    ensures
        is_profile_of_request(r, *req, id),
{
    let low = low16_of(id);
    let base: u16 = if low >= 1 {
        low - 1
    } else {
        0
    };
    let hls_default: u16 = 4600 + base * 2;
    let proxy_default: u16 = 4601 + base * 2;
    ProfileConfig {
        id,
        name: req.name.clone(),
        portal_url: req.portal_url.clone(),
        mac: uppercase(req.mac.as_str()),
        username: match &req.username {
            Some(s) => s.clone(),
            None => string_from_chars(Vec::new()),
        },
        password: match &req.password {
            Some(s) => s.clone(),
            None => string_from_chars(Vec::new()),
        },
        hls_port: match req.hls_port {
            Some(p) => p,
            None => hls_default,
        },
        proxy_port: match req.proxy_port {
            Some(p) => p,
            None => proxy_default,
        },
        timezone: or_default(&req.timezone, "UTC"),
        serial_number: or_default(&req.serial_number, "0000000000000"),
        device_id: match &req.device_id {
            Some(s) => s.clone(),
            None => default_device_id_string(),
        },
        device_id2: match &req.device_id2 {
            Some(s) => s.clone(),
            None => default_device_id_string(),
        },
        signature: match &req.signature {
            Some(s) => s.clone(),
            None => default_device_id_string(),
        },
        model: or_default(&req.model, "MAG254"),
        device_id_auth: match req.device_id_auth {
            Some(b) => b,
            None => true,
        },
        watchdog_interval: match req.watchdog_interval {
            Some(w) => w,
            None => 5,
        },
        hls_enabled: match req.hls_enabled {
            Some(b) => b,
            None => true,
        },
        proxy_enabled: match req.proxy_enabled {
            Some(b) => b,
            None => true,
        },
        proxy_rewrite: match req.proxy_rewrite {
            Some(b) => b,
            None => true,
        },
    }
}

/// The index of the first profile with the id.
pub open spec fn profile_index_of(ps: Seq<ProfileConfig>, id: i32) -> Option<int>
    decreases ps.len(),
{
    if ps.len() == 0 {
        None
    } else if ps[0].id == id {
        Some(0)
    } else {
        match profile_index_of(ps.drop_first(), id) {
            Some(i) => Some(i + 1),
            None => None,
        }
    }
}

proof fn lemma_profile_index(ps: Seq<ProfileConfig>, id: i32)
    ensures
        match profile_index_of(ps, id) {
            Some(i) => 0 <= i < ps.len() && ps[i].id == id && forall|j: int| 0 <= j < i ==> ps[j].id != id,
            None => forall|j: int| 0 <= j < ps.len() ==> ps[j].id != id,
        },
    decreases ps.len(),
{
    if ps.len() > 0 && ps[0].id != id {
        lemma_profile_index(ps.drop_first(), id);
        match profile_index_of(ps.drop_first(), id) {
            Some(i) => {
                assert forall|j: int| 0 <= j < i + 1 implies ps[j].id != id by {
                    if j > 0 {
                        assert(ps[j] == ps.drop_first()[j - 1]);
                    }
                }
            },
            None => {
                assert forall|j: int| 0 <= j < ps.len() implies ps[j].id != id by {
                    if j > 0 {
                        assert(ps[j] == ps.drop_first()[j - 1]);
                    }
                }
            },
        }
    }
}

/// The first profile with the id.
pub fn find_profile(profiles: &Vec<ProfileConfig>, id: i32) -> (r: Option<usize>)
    ensures
        match r {
            Some(i) => profile_index_of(profiles@, id) == Some(i as int),
            None => profile_index_of(profiles@, id) is None,
        },
{
    proof {
        lemma_profile_index(profiles@, id);
    }
    let mut i: usize = 0;
    while i < profiles.len()
        invariant
            i <= profiles.len(),
            forall|j: int| 0 <= j < i ==> profiles@[j].id != id,
            match profile_index_of(profiles@, id) {
                Some(k) => 0 <= k < profiles@.len() && profiles@[k].id == id && forall|j: int| 0 <= j < k ==> profiles@[j].id != id,
                None => forall|j: int| 0 <= j < profiles@.len() ==> profiles@[j].id != id,
            },
        decreases profiles.len() - i,
    {
        if profiles[i].id == id {
            return Some(i);
        }
        i += 1;
    }
    None
}

/// The profile list after creating `cfg` over the API: the first profile with its id
/// removed, `cfg` appended.
pub open spec fn created_list(ps: Seq<ProfileConfig>, cfg: ProfileConfig) -> Seq<ProfileConfig> {
    match profile_index_of(ps, cfg.id) {
        Some(i) => ps.remove(i).push(cfg),
        None => ps.push(cfg),
    }
}

/// The profile list after storing `cfg` from the app: the first profile with its id
/// replaced in place, else `cfg` appended.
pub open spec fn stored_list(ps: Seq<ProfileConfig>, cfg: ProfileConfig) -> Seq<ProfileConfig> {
    match profile_index_of(ps, cfg.id) {
        Some(i) => ps.update(i, cfg),
        None => ps.push(cfg),
    }
}

/// Creates or replaces a profile over the API (see `created_list`); returns the
/// configuration stored.
pub fn create_profile(profiles: &mut Vec<ProfileConfig>, req: &CreateProfileRequest) -> (r: Option<ProfileConfig>)
    requires
        new_profile_id(old(profiles)@, req.id) <= i32::MAX ==> default_ports_fit(new_profile_id(old(profiles)@, req.id) as i32),
    ensures
        match r {
            Some(cfg) => {
                &&& new_profile_id(old(profiles)@, req.id) <= i32::MAX
                &&& is_profile_of_request(cfg, *req, new_profile_id(old(profiles)@, req.id) as i32)
                &&& final(profiles)@ == created_list(old(profiles)@, cfg)
            },
            None => new_profile_id(old(profiles)@, req.id) > i32::MAX && final(profiles)@ == old(profiles)@,
        },
{
    let id = match profile_id_for(profiles, req.id) {
        Some(id) => id,
        None => return None,
    };
    let cfg = profile_from_request(req, id);
    proof {
        lemma_profile_index(profiles@, id);
    }
    match find_profile(profiles, id) {
        Some(pos) => {
            profiles.remove(pos);
        },
        None => {},
    }
    profiles.push(cfg.copy());
    Some(cfg)
}

/// Stores a profile sent by the app (see `stored_list`).
pub fn store_profile(profiles: &mut Vec<ProfileConfig>, cfg: ProfileConfig)
    ensures
        final(profiles)@ == stored_list(old(profiles)@, cfg),
{
    proof {
        lemma_profile_index(profiles@, cfg.id);
    }
    match find_profile(profiles, cfg.id) {
        Some(pos) => {
            profiles.set(pos, cfg);
        },
        None => {
            profiles.push(cfg);
        },
    }
}

// ---------------------------------------------------------------------------
// What the app lists
// ---------------------------------------------------------------------------

/// Whether the app shows a channel as enabled: not blocked by command, and not in a
/// disabled genre unless allowed by command.
pub open spec fn ui_enabled(m: FilterModel, pid: i32, cmd: Seq<char>, genre_id: Seq<char>) -> bool {
    !(m.disabled_channels_of(pid).contains(cmd) || (m.disabled_genres_of(pid).contains(genre_id)
        && !m.enabled_channels_of(pid).contains(cmd)))
}

/// A channel as the app lists it: command, renamed title, renamed genre, genre id,
/// logo, and whether it is enabled.
#[derive(Debug, Clone)]
pub struct UiChannel {
    pub cmd: String,
    pub title: String,
    pub genre: String,
    pub genre_id: String,
    pub logo: String,
    pub enabled: bool,
}

pub open spec fn ui_channel_of(m: FilterModel, pid: i32, ch: Channel) -> (Seq<char>, Seq<char>, Seq<char>, Seq<char>, Seq<char>, bool) {
    (
        ch.cmd@,
        m.apply_rename(pid, ch.title@),
        m.apply_genre_rename(pid, ch.genre_id@, ch.genre@),
        ch.genre_id@,
        ch.logo@,
        ui_enabled(m, pid, ch.cmd@, ch.genre_id@),
    )
}

pub open spec fn ui_view(c: UiChannel) -> (Seq<char>, Seq<char>, Seq<char>, Seq<char>, Seq<char>, bool) {
    (c.cmd@, c.title@, c.genre@, c.genre_id@, c.logo@, c.enabled)
}

fn contains_in(m: &std::collections::HashMap<i32, Vec<String>>, pid: i32, key: &String) -> (r: bool)
    ensures
        r == crate::filter::set_or_empty(crate::filter::sets_view(m@), pid).contains(key@),
{
    match m.get(&pid) {
        Some(v) => crate::filter::set_contains(v, key),
        None => false,
    }
}

/// The channels as the app lists them, in order.
pub open spec fn ui_list_of(m: FilterModel, pid: i32, chs: Seq<Channel>) -> Seq<(Seq<char>, Seq<char>, Seq<char>, Seq<char>, Seq<char>, bool)> {
    chs.map_values(|ch: Channel| ui_channel_of(m, pid, ch))
}

pub open spec fn ui_list_view(v: Seq<UiChannel>) -> Seq<(Seq<char>, Seq<char>, Seq<char>, Seq<char>, Seq<char>, bool)> {
    v.map_values(|c: UiChannel| ui_view(c))
}

pub fn ui_channels(channels: &Vec<Channel>, filter: &FilterStore, profile_id: i32) -> (r: Vec<UiChannel>)
    ensures
        ui_list_view(r@) == ui_list_of(filter.model(), profile_id, channels@),
{
    let mut out: Vec<UiChannel> = Vec::new();
    let mut i: usize = 0;
    while i < channels.len()
        invariant
            i <= channels.len(),
            ui_list_view(out@) == ui_list_of(filter.model(), profile_id, channels@.subrange(0, i as int)),
        decreases channels.len() - i,
    {
        let ch = &channels[i];
        let blocked = contains_in(&filter.disabled_channels, profile_id, &ch.cmd);
        let genre_off = contains_in(&filter.disabled_genres, profile_id, &ch.genre_id);
        let allowed = contains_in(&filter.enabled_channels, profile_id, &ch.cmd);
        let enabled = !(blocked || (genre_off && !allowed));
        let ghost before = ui_list_view(out@);
        out.push(
            UiChannel {
                cmd: ch.cmd.clone(),
                title: filter.apply_rename(profile_id, ch.title.as_str()),
                genre: filter.apply_genre_rename(profile_id, ch.genre_id.as_str(), ch.genre.as_str()),
                genre_id: ch.genre_id.clone(),
                logo: ch.logo.clone(),
                enabled,
            },
        );
        assert(ui_list_of(filter.model(), profile_id, channels@.subrange(0, i + 1)) =~= ui_list_of(
            filter.model(),
            profile_id,
            channels@.subrange(0, i as int),
        ).push(ui_channel_of(filter.model(), profile_id, channels@[i as int])));
        assert(ui_list_view(out@) =~= before.push(ui_view(out@[i as int])));
        i += 1;
    }
    assert(channels@.subrange(0, channels@.len() as int) =~= channels@);
    out
}


/// The categories as the app lists them, as (id, title): those whose id is not `*`,
/// and those whose id is no string where `keep_other_ids` is set (else they are left
/// out); an id or title that is no string shows as empty.
pub open spec fn app_categories_of(items: Seq<crate::proxy::CategoryItem>, keep_other_ids: bool) -> Seq<(Seq<char>, Seq<char>)>
    decreases items.len(),
{
    if items.len() == 0 {
        Seq::empty()
    } else {
        let prev = app_categories_of(items.drop_last(), keep_other_ids);
        let it = items.last();
        let keep = if it.id_is_text {
            it.id@ != seq!['*']
        } else {
            keep_other_ids
        };
        if keep {
            prev.push((if it.id_is_text {
                it.id@
            } else {
                Seq::empty()
            }, it.title@))
        } else {
            prev
        }
    }
}

pub fn app_categories(items: &Vec<crate::proxy::CategoryItem>, keep_other_ids: bool) -> (r: Vec<(String, String)>)
    ensures
        crate::proxy::pairs_view(r@) == app_categories_of(items@, keep_other_ids),
{
    let mut out: Vec<(String, String)> = Vec::new();
    let mut i: usize = 0;
    while i < items.len()
        invariant
            i <= items.len(),
            crate::proxy::pairs_view(out@) == app_categories_of(items@.subrange(0, i as int), keep_other_ids),
        decreases items.len() - i,
    {
        let ghost after = items@.subrange(0, i + 1);
        assert(after.drop_last() =~= items@.subrange(0, i as int));
        let it = &items[i];
        let keep = if it.id_is_text {
            let c = chars_of(it.id.as_str());
            let star = c.len() == 1 && c[0] == '*';
            proof {
                if star {
                    assert(c@ =~= seq!['*']);
                }
                if c@ == seq!['*'] {
                    assert(c@[0] == '*');
                }
            }
            !star
        } else {
            keep_other_ids
        };
        if keep {
            let id = if it.id_is_text {
                it.id.clone()
            } else {
                string_from_chars(Vec::new())
            };
            let ghost before = crate::proxy::pairs_view(out@);
            out.push((id, it.title.clone()));
            assert(crate::proxy::pairs_view(out@) =~= before.push((out@[out@.len() - 1].0@, it.title@)));
        }
        i += 1;
    }
    assert(items@.subrange(0, items@.len() as int) =~= items@);
    out
}


/// The profile list after the app deletes a profile: the first with the id removed.
pub open spec fn deleted_list(ps: Seq<ProfileConfig>, id: i32) -> Seq<ProfileConfig> {
    match profile_index_of(ps, id) {
        Some(i) => ps.remove(i),
        None => ps,
    }
}

/// Removes the first profile with the id.
pub fn remove_profile(profiles: &mut Vec<ProfileConfig>, id: i32)
    ensures
        final(profiles)@ == deleted_list(old(profiles)@, id),
{
    proof {
        lemma_profile_index(profiles@, id);
    }
    match find_profile(profiles, id) {
        Some(pos) => {
            profiles.remove(pos);
        },
        None => {},
    }
}

/// The smallest profile id, where there is a profile: the one started first.
pub open spec fn lowest_id_of(ps: Seq<ProfileConfig>) -> Option<i32>
    decreases ps.len(),
{
    if ps.len() == 0 {
        None
    } else {
        match lowest_id_of(ps.drop_last()) {
            Some(m) => if ps.last().id < m {
                Some(ps.last().id)
            } else {
                Some(m)
            },
            None => Some(ps.last().id),
        }
    }
}

pub fn lowest_profile_id(profiles: &Vec<ProfileConfig>) -> (r: Option<i32>)
    ensures
        r == lowest_id_of(profiles@),
{
    let mut m: Option<i32> = None;
    let mut i: usize = 0;
    while i < profiles.len()
        invariant
            i <= profiles.len(),
            m == lowest_id_of(profiles@.subrange(0, i as int)),
        decreases profiles.len() - i,
    {
        let ghost after = profiles@.subrange(0, i + 1);
        assert(after.drop_last() =~= profiles@.subrange(0, i as int));
        let id = profiles[i].id;
        m = match m {
            Some(x) => if id < x {
                Some(id)
            } else {
                Some(x)
            },
            None => Some(id),
        };
        i += 1;
    }
    assert(profiles@.subrange(0, profiles@.len() as int) =~= profiles@);
    m
}


/// No two profiles share an id.
pub open spec fn unique_ids(ps: Seq<ProfileConfig>) -> bool {
    forall|i: int, j: int| 0 <= i < j < ps.len() ==> ps[i].id != ps[j].id
}

/// A profile created over the API is the one found under its id afterwards, and ids
/// stay unique.
pub proof fn law_created_profile_is_found(ps: Seq<ProfileConfig>, cfg: ProfileConfig)
    requires
        unique_ids(ps),
    ensures
        match profile_index_of(created_list(ps, cfg), cfg.id) {
            Some(i) => created_list(ps, cfg)[i] == cfg,
            None => false,
        },
        unique_ids(created_list(ps, cfg)),
{
    lemma_profile_index(ps, cfg.id);
    let base = match profile_index_of(ps, cfg.id) {
        Some(i) => ps.remove(i),
        None => ps,
    };
    assert forall|j: int| 0 <= j < base.len() implies base[j].id != cfg.id by {
        match profile_index_of(ps, cfg.id) {
            Some(i) => {
                if j < i {
                    assert(base[j] == ps[j]);
                } else {
                    assert(base[j] == ps[j + 1]);
                }
            },
            None => {},
        }
    }
    let out = base.push(cfg);
    assert(out == created_list(ps, cfg));
    lemma_profile_index(out, cfg.id);
    match profile_index_of(out, cfg.id) {
        Some(i) => {
            if i < base.len() {
                assert(out[i] == base[i]);
            }
        },
        None => {
            assert(out[base.len() as int] == cfg);
        },
    }
    assert forall|a: int, b: int| 0 <= a < b < out.len() implies out[a].id != out[b].id by {
        if b == base.len() {
            assert(out[a] == base[a]);
        } else {
            match profile_index_of(ps, cfg.id) {
                Some(i) => {
                    let pa = if a < i { a } else { a + 1 };
                    let pb = if b < i { b } else { b + 1 };
                    assert(base[a] == ps[pa]);
                    assert(base[b] == ps[pb]);
                },
                None => {},
            }
        }
    }
}

/// A profile stored from the app is the one found under its id afterwards, and ids
/// stay unique.
pub proof fn law_stored_profile_is_found(ps: Seq<ProfileConfig>, cfg: ProfileConfig)
    requires
        unique_ids(ps),
    ensures
        match profile_index_of(stored_list(ps, cfg), cfg.id) {
            Some(i) => stored_list(ps, cfg)[i] == cfg,
            None => false,
        },
        unique_ids(stored_list(ps, cfg)),
{
    lemma_profile_index(ps, cfg.id);
    let out = stored_list(ps, cfg);
    lemma_profile_index(out, cfg.id);
    match profile_index_of(ps, cfg.id) {
        Some(i) => {
            assert(out == ps.update(i, cfg));
            match profile_index_of(out, cfg.id) {
                Some(k) => {
                    if k != i {
                        if k < i {
                            assert(out[k] == ps[k]);
                        } else {
                            assert(out[i].id == cfg.id);
                        }
                    }
                },
                None => {
                    assert(out[i].id == cfg.id);
                },
            }
            assert forall|a: int, b: int| 0 <= a < b < out.len() implies out[a].id != out[b].id by {
                if a != i && b != i {
                    assert(out[a] == ps[a] && out[b] == ps[b]);
                } else if a == i {
                    assert(out[b] == ps[b]);
                } else {
                    assert(out[a] == ps[a]);
                }
            }
        },
        None => {
            assert(out == ps.push(cfg));
            match profile_index_of(out, cfg.id) {
                Some(k) => {
                    if k < ps.len() {
                        assert(out[k] == ps[k]);
                    }
                },
                None => {
                    assert(out[ps.len() as int] == cfg);
                },
            }
            assert forall|a: int, b: int| 0 <= a < b < out.len() implies out[a].id != out[b].id by {
                if b == ps.len() {
                    assert(out[a] == ps[a]);
                } else {
                    assert(out[a] == ps[a] && out[b] == ps[b]);
                }
            }
        },
    }
}

} // verus!
