//! The portal proxy: responses it answers itself and the requests it forwards.
use vstd::prelude::*;
use vstd::utf8::encode_utf8;
use crate::text::{
    chars_of, string_from_chars, slice_vec, push_str, push_chars, push_decimal, decimal, find,
    find_vec, find_char, find_char_vec, replace_all, replace_all_vec, rfind_char, rfind_char_vec,
    is_digit, parse_u64, parse_u64_str, ends_with, ends_with_vec, starts_with, starts_with_vec,
    contains, contains_vec, trim_end_char, trim_end_char_vec, trim_start_str, trim_start_str_vec,
    str_eq, lemma_find_props, lemma_rfind_char_props, words, split_words,
};
use crate::encoding::{percent_encode, url_encode as encode_component};
use crate::hls::{before_first, split_once_char};
use crate::stalker::Channel;
use crate::filter::{FilterModel, FilterStore};

verus! {

/// Percent-encoding of a query value (see `encoding::url_encode`).
pub fn url_encode(s: &str) -> (r: String)
    ensures
        r@ == percent_encode(encode_utf8(s@)),
{
    encode_component(s)
}

// ---------------------------------------------------------------------------
// Stream ids and create_link answers
// ---------------------------------------------------------------------------

/// The length of the run of decimal digits of `s` starting at `i`, plus `i`.
pub open spec fn digit_run_end(s: Seq<char>, i: int) -> int
    decreases s.len() - i,
{
    if 0 <= i < s.len() && is_digit(s[i]) {
        digit_run_end(s, i + 1)
    } else {
        i
    }
}

/// The digits after the first `stream=` of a command (empty when there is none).
pub open spec fn stream_id_of(cmd: Seq<char>) -> Seq<char> {
    match find(cmd, "stream="@) {
        Some(pos) => {
            let rest = cmd.subrange(pos + 7, cmd.len() as int);
            rest.subrange(0, digit_run_end(rest, 0))
        },
        None => Seq::empty(),
    }
}

/// The stream id in a command such as `ffmpeg http://host/live.php?stream=691402&...`.
pub fn extract_stream_id(cmd: &str) -> (r: String)
    ensures
        r@ == stream_id_of(cmd@),
{
    let c = chars_of(cmd);
    let pat = chars_of("stream=");
    proof {
        reveal_strlit("stream=");
        lemma_find_props(c@, pat@);
    }
    match find_vec(&c, &pat) {
        Some(pos) => {
            assert(pat@.len() == 7);
            let n = c.len();
            assert(pos + pat@.len() <= n);
            let rest = slice_vec(&c, pos + 7, n);
            let mut k: usize = 0;
            while k < rest.len() && '0' <= rest[k] && rest[k] <= '9'
                invariant
                    k <= rest.len(),
                    digit_run_end(rest@, 0) == digit_run_end(rest@, k as int),
                decreases rest.len() - k,
            {
                k += 1;
            }
            string_from_chars(slice_vec(&rest, 0, k))
        },
        None => string_from_chars(Vec::new()),
    }
}

/// A stream address with every `/` after the scheme escaped as `\/`.
pub open spec fn escape_slashes(url: Seq<char>) -> Seq<char> {
    match find(url, "://"@) {
        Some(i) => url.subrange(0, i + 3) + replace_all(url.subrange(i + 3, url.len() as int), seq!['/'], seq!['\\', '/']),
        None => replace_all(url, seq!['/'], seq!['\\', '/']),
    }
}

/// The JSON answer to `create_link` that points the box at a local stream address.
pub open spec fn create_link_response(stream_url: Seq<char>, id: Seq<char>, ch_id: Seq<char>) -> Seq<char> {
    let link_id: nat = match parse_u64(ch_id) {
        Some(v) => v as nat,
        None => 0,
    };
    "{\"js\":{\"id\":\""@ + id + "\",\"cmd\":\""@ + escape_slashes(stream_url)
        + "\",\"streamer_id\":0,\"link_id\":"@ + decimal(link_id) + ",\"load\":0,\"error\":\"\"},\"text\":\"\"}"@
}

pub fn generate_create_link_response(stream_url: &str, id: &str, ch_id: &str) -> (r: String)
    ensures
        r@ == create_link_response(stream_url@, id@, ch_id@),
{
    let link_id: u64 = match parse_u64_str(ch_id) {
        Some(v) => v,
        None => 0,
    };
    let u = chars_of(stream_url);
    let sep = chars_of("://");
    let slash: Vec<char> = vec!['/'];
    let esc: Vec<char> = vec!['\\', '/'];
    assert(slash@ =~= seq!['/']);
    assert(esc@ =~= seq!['\\', '/']);
    proof {
        reveal_strlit("://");
        lemma_find_props(u@, sep@);
    }
    let escaped = match find_vec(&u, &sep) {
        Some(i) => {
            let n = u.len();
            assert(sep@.len() == 3 && i + sep@.len() <= n);
            let mut e = slice_vec(&u, 0, i + 3);
            let rest = slice_vec(&u, i + 3, u.len());
            let r = replace_all_vec(&rest, &slash, &esc);
            push_chars(&mut e, &r);
            e
        },
        None => replace_all_vec(&u, &slash, &esc),
    };
    let mut out: Vec<char> = Vec::new();
    push_str(&mut out, "{\"js\":{\"id\":\"");
    push_str(&mut out, id);
    push_str(&mut out, "\",\"cmd\":\"");
    push_chars(&mut out, &escaped);
    push_str(&mut out, "\",\"streamer_id\":0,\"link_id\":");
    push_decimal(&mut out, link_id);
    push_str(&mut out, ",\"load\":0,\"error\":\"\"},\"text\":\"\"}");
    assert(out@ =~= create_link_response(stream_url@, id@, ch_id@));
    string_from_chars(out)
}

/// The address on this machine's HLS server that a box is sent to for a channel:
/// `http://`, the host of the box's `Host` header (without port, `localhost` if it has
/// none), the HLS port, and the encoded title.
pub open spec fn local_stream_url_of(host_header: Option<Seq<char>>, hls_bind: Seq<char>, title: Seq<char>) -> Seq<char> {
    let host = match host_header {
        Some(h) => before_first(h, ':'),
        None => "localhost"@,
    };
    "http://"@ + host + seq![':'] + trim_start_str(hls_bind, "0.0.0.0:"@) + seq!['/'] + percent_encode(
        encode_utf8(title),
    )
}

pub fn local_stream_url(host_header: Option<&str>, hls_bind: &str, title: &str) -> (r: String)
    ensures
        r@ == local_stream_url_of(
            match host_header {
                Some(h) => Some(h@),
                None => None,
            },
            hls_bind@,
            title@,
        ),
{
    let host = match host_header {
        Some(h) => split_once_char(h, ':').0,
        None => string_from_chars(chars_of("localhost")),
    };
    let port = trim_start_str_vec(&chars_of(hls_bind), &chars_of("0.0.0.0:"));
    let enc = url_encode(title);
    let mut out: Vec<char> = Vec::new();
    push_str(&mut out, "http://");
    push_str(&mut out, host.as_str());
    out.push(':');
    push_chars(&mut out, &port);
    out.push('/');
    push_str(&mut out, enc.as_str());
    assert(out@ =~= local_stream_url_of(
        match host_header {
            Some(h) => Some(h@),
            None => None,
        },
        hls_bind@,
        title@,
    ));
    string_from_chars(out)
}

/// The channel a `create_link` command refers to: the first with exactly that command,
/// else the first whose command holds `stream=` and the command's stream id.
pub open spec fn cmd_matches_stream(ch_cmd: Seq<char>, cmd: Seq<char>) -> bool {
    ch_cmd == cmd || (stream_id_of(cmd).len() > 0 && contains(ch_cmd, "stream="@ + stream_id_of(cmd)))
}

pub fn find_channel_for_cmd(channels: &Vec<Channel>, cmd: &str) -> (r: Option<usize>)
    ensures
        match r {
            Some(i) => i < channels@.len() && ((channels@[i as int].cmd@ == cmd@ && forall|j: int|
                0 <= j < i ==> #[trigger] channels@[j].cmd@ != cmd@) || ((forall|j: int|
                0 <= j < channels@.len() ==> #[trigger] channels@[j].cmd@ != cmd@) && cmd_matches_stream(
                channels@[i as int].cmd@,
                cmd@,
            ) && forall|j: int| 0 <= j < i ==> !cmd_matches_stream(#[trigger] channels@[j].cmd@, cmd@))),
            None => forall|j: int| 0 <= j < channels@.len() ==> !cmd_matches_stream(#[trigger] channels@[j].cmd@, cmd@),
        },
{
    let mut i: usize = 0;
    while i < channels.len()
        invariant
            i <= channels.len(),
            forall|j: int| 0 <= j < i ==> #[trigger] channels@[j].cmd@ != cmd@,
        decreases channels.len() - i,
    {
        if str_eq(channels[i].cmd.as_str(), cmd) {
            return Some(i);
        }
        i += 1;
    }
    let sid = extract_stream_id(cmd);
    let mut needle = chars_of("stream=");
    push_str(&mut needle, sid.as_str());
    let sid_len = chars_of(sid.as_str()).len();
    let mut k: usize = 0;
    while k < channels.len()
        invariant
            k <= channels.len(),
            forall|j: int| 0 <= j < channels@.len() ==> #[trigger] channels@[j].cmd@ != cmd@,
            needle@ == "stream="@ + stream_id_of(cmd@),
            sid_len == stream_id_of(cmd@).len(),
            forall|j: int| 0 <= j < k ==> !cmd_matches_stream(#[trigger] channels@[j].cmd@, cmd@),
        decreases channels.len() - k,
    {
        if sid_len > 0 && contains_vec(&chars_of(channels[k].cmd.as_str()), &needle) {
            return Some(k);
        }
        k += 1;
    }
    None
}

// ---------------------------------------------------------------------------
// Answers the proxy gives itself
// ---------------------------------------------------------------------------

/// The handshake answer carrying the engine's token.
pub open spec fn handshake_response_of(token: Seq<char>) -> Seq<char> {
    "{\"js\":{\"token\":\""@ + token
        + "\",\"random\":\"b8c4ef93de04e675350605eb0086bffe51507b88e6a1662e71fe9372\"},\"text\":\"generated in: 0.01s\"}"@
}

pub fn handshake_response(token: &str) -> (r: String)
    ensures
        r@ == handshake_response_of(token@),
{
    let mut out: Vec<char> = Vec::new();
    push_str(&mut out, "{\"js\":{\"token\":\"");
    push_str(&mut out, token);
    push_str(
        &mut out,
        "\",\"random\":\"b8c4ef93de04e675350605eb0086bffe51507b88e6a1662e71fe9372\"},\"text\":\"generated in: 0.01s\"}",
    );
    assert(out@ =~= handshake_response_of(token@));
    string_from_chars(out)
}

/// The answer to a watchdog `get_events` poll: no messages, the current play type, and
/// the event counter as both `event_active_id` and `id`.
pub open spec fn watchdog_response_of(play_type: u8, event_id: u64) -> Seq<char> {
    "{\"js\":{\"data\":{\"msgs\":0,\"additional_services_on\":\"1\",\"cur_play_type\":\""@ + decimal(
        play_type as nat,
    ) + "\",\"event_active_id\":"@ + decimal(event_id as nat) + ",\"id\":"@ + decimal(event_id as nat)
        + "},\"text\":\"generated in: 0.01s\"}}"@
}

pub fn watchdog_response(play_type: u8, event_id: u64) -> (r: String)
    ensures
        r@ == watchdog_response_of(play_type, event_id),
{
    let mut out: Vec<char> = Vec::new();
    push_str(&mut out, "{\"js\":{\"data\":{\"msgs\":0,\"additional_services_on\":\"1\",\"cur_play_type\":\"");
    push_decimal(&mut out, play_type as u64);
    push_str(&mut out, "\",\"event_active_id\":");
    push_decimal(&mut out, event_id);
    push_str(&mut out, ",\"id\":");
    push_decimal(&mut out, event_id);
    push_str(&mut out, "},\"text\":\"generated in: 0.01s\"}}");
    assert(out@ =~= watchdog_response_of(play_type, event_id));
    string_from_chars(out)
}

// ---------------------------------------------------------------------------
// Paging of the channel list
// ---------------------------------------------------------------------------

/// Items on one page of the channel list.
pub const PAGE_SIZE: usize = 14;

/// The bounds `(start, end)` of page `page` of a list of `total` items (pages of 14,
/// clamped to the list).
pub open spec fn page_bounds_of(total: nat, page: nat) -> (nat, nat) {
    let start = if page * 14 < total {
        page * 14
    } else {
        total
    };
    let end = if start + 14 < total {
        start + 14
    } else {
        total
    };
    (start, end)
}

pub fn page_bounds(total: usize, page: usize) -> (r: (usize, usize))
    requires
        total <= usize::MAX - 14,
    ensures
        r.0 == page_bounds_of(total as nat, page as nat).0,
        r.1 == page_bounds_of(total as nat, page as nat).1,
{
    let start = if page.checked_mul(14).is_some() && page * 14 < total {
        page * 14
    } else {
        total
    };
    let end = if start + 14 < total {
        start + 14
    } else {
        total
    };
    (start, end)
}

// ---------------------------------------------------------------------------
// The portal's directory
// ---------------------------------------------------------------------------

/// The directory of the portal page (through its last `/`).
pub open spec fn portal_root_of(portal_base: Seq<char>) -> Seq<char> {
    match rfind_char(portal_base, '/') {
        Some(pos) => portal_base.subrange(0, pos + 1),
        None => portal_base,
    }
}

/// The path part of the portal directory, such as `/c/`.
pub open spec fn portal_root_path_of(portal_root: Seq<char>) -> Seq<char> {
    match find(portal_root, "://"@) {
        Some(i) => {
            let rest = portal_root.subrange(i + 3, portal_root.len() as int);
            match find_char(rest, '/') {
                Some(j) => seq!['/'] + rest.subrange(j + 1, rest.len() as int),
                None => seq!['/'],
            }
        },
        None => seq!['/'],
    }
}

pub fn portal_root(portal_base: &str) -> (r: String)
    ensures
        r@ == portal_root_of(portal_base@),
{
    let b = chars_of(portal_base);
    proof {
        lemma_rfind_char_props(b@, '/');
    }
    match rfind_char_vec(&b, '/') {
        Some(pos) => {
            assert(pos < b.len());
            string_from_chars(slice_vec(&b, 0, pos + 1))
        },
        None => string_from_chars(b),
    }
}

pub fn portal_root_path(portal_root: &str) -> (r: String)
    ensures
        r@ == portal_root_path_of(portal_root@),
{
    let r = chars_of(portal_root);
    let sep = chars_of("://");
    proof {
        reveal_strlit("://");
        lemma_find_props(r@, sep@);
    }
    match find_vec(&r, &sep) {
        Some(i) => {
            let n = r.len();
            assert(sep@.len() == 3 && i + sep@.len() <= n);
            let rest = slice_vec(&r, i + 3, r.len());
            proof {
                lemma_find_props(rest@, seq!['/']);
            }
            match find_char_vec(&rest, '/') {
                Some(j) => {
                    assert(seq!['/'].len() == 1);
                    let mut o: Vec<char> = vec!['/'];
                    let tail = slice_vec(&rest, j + 1, rest.len());
                    push_chars(&mut o, &tail);
                    assert(o@ =~= portal_root_path_of(portal_root@));
                    string_from_chars(o)
                },
                None => {
                    let o: Vec<char> = vec!['/'];
                    assert(o@ =~= seq!['/']);
                    string_from_chars(o)
                },
            }
        },
        None => {
            let o: Vec<char> = vec!['/'];
            assert(o@ =~= seq!['/']);
            string_from_chars(o)
        },
    }
}

// ---------------------------------------------------------------------------
// Forwarded requests
// ---------------------------------------------------------------------------

/// The `Referer` sent upstream: the scheme and host of the address, or the portal base
/// without trailing slashes when the address has no scheme.
pub open spec fn referer_of(current_url: Seq<char>, portal_base: Seq<char>) -> Seq<char> {
    match find(current_url, "://"@) {
        Some(i) => {
            let rest = current_url.subrange(i + 3, current_url.len() as int);
            (if starts_with(current_url, "https"@) {
                "https"@
            } else {
                "http"@
            }) + "://"@ + before_first(rest, '/') + seq!['/']
        },
        None => trim_end_char(portal_base, '/') + seq!['/'],
    }
}

pub fn referer_for(current_url: &str, portal_base: &str) -> (r: String)
    ensures
        r@ == referer_of(current_url@, portal_base@),
{
    let u = chars_of(current_url);
    let sep = chars_of("://");
    proof {
        reveal_strlit("://");
        lemma_find_props(u@, sep@);
    }
    match find_vec(&u, &sep) {
        Some(i) => {
            let n = u.len();
            assert(sep@.len() == 3 && i + sep@.len() <= n);
            let rest = slice_vec(&u, i + 3, u.len());
            let rest_s = string_from_chars(rest);
            let host = split_once_char(rest_s.as_str(), '/').0;
            let mut o: Vec<char> = if starts_with_vec(&u, &chars_of("https")) {
                chars_of("https")
            } else {
                chars_of("http")
            };
            push_str(&mut o, "://");
            push_str(&mut o, host.as_str());
            o.push('/');
            assert(o@ =~= referer_of(current_url@, portal_base@));
            string_from_chars(o)
        },
        None => {
            let mut o = trim_end_char_vec(&chars_of(portal_base), '/');
            o.push('/');
            assert(o@ =~= referer_of(current_url@, portal_base@));
            string_from_chars(o)
        },
    }
}

/// The `Origin` sent upstream: the referer without trailing slashes.
pub fn origin_for(referer: &str) -> (r: String)
    ensures
        r@ == trim_end_char(referer@, '/'),
{
    string_from_chars(trim_end_char_vec(&chars_of(referer), '/'))
}


// ---------------------------------------------------------------------------
// Routing a request from the box
// ---------------------------------------------------------------------------

/// An optional borrowed string, by its characters.
pub open spec fn opt_str(o: Option<&str>) -> Option<Seq<char>> {
    match o {
        Some(s) => Some(s@),
        None => None,
    }
}

/// An optional owned string, by its characters.
pub open spec fn opt_string(o: Option<String>) -> Option<Seq<char>> {
    match o {
        Some(s) => Some(s@),
        None => None,
    }
}

/// Whether an optional string is present and equal to `lit`.
pub fn opt_is(o: Option<&str>, lit: &str) -> (r: bool)
    ensures
        r == (opt_str(o) == Some(lit@)),
{
    match o {
        Some(s) => str_eq(s, lit),
        None => false,
    }
}

/// What the proxy does with a request from the box.
#[derive(Debug, Clone, Copy, PartialEq, Eq, Structural)]
pub enum ProxyRoute {
    /// Answered with 404 (the box's favicon requests).
    NotFound,
    /// Answered with the engine's token.
    Handshake,
    /// Answered with the watchdog event counter.
    WatchdogEvents,
    /// Answered with a fixed body.
    EventLog,
    /// Answered with a fixed body.
    DoAuth,
    /// Answered with a fixed body.
    Logout,
    /// Answered from the cached channel list.
    AllChannels,
    /// Answered with an empty list.
    FavChannels,
    /// Answered from the cached VOD categories.
    VodCategories,
    /// Answered from the cached series categories.
    SeriesCategories,
    /// Answered with a local stream address when the channel is known.
    CreateLink,
    /// Sent on to the portal.
    Forward,
}

/// The route of a request by its path and its `action`, `type` and `cmd` parameters.
pub open spec fn route_of(
    path: Seq<char>,
    action: Option<Seq<char>>,
    media_type: Option<Seq<char>>,
    has_cmd: bool,
    proxy_rewrite: bool,
) -> ProxyRoute {
    if contains(path, "favicon"@) {
        ProxyRoute::NotFound
    } else {
        match action {
            None => ProxyRoute::Forward,
            Some(a) => {
                if a == "handshake"@ {
                    ProxyRoute::Handshake
                } else if a == "get_events"@ && media_type == Some("watchdog"@) {
                    ProxyRoute::WatchdogEvents
                } else if a == "get_events"@ && media_type == Some("log"@) {
                    ProxyRoute::EventLog
                } else if a == "do_auth"@ {
                    ProxyRoute::DoAuth
                } else if a == "logout"@ {
                    ProxyRoute::Logout
                } else if a == "get_all_channels"@ && media_type == Some("itv"@) {
                    ProxyRoute::AllChannels
                } else if a == "get_all_fav_channels"@ && media_type == Some("itv"@) {
                    ProxyRoute::FavChannels
                } else if a == "get_categories"@ && media_type == Some("vod"@) {
                    ProxyRoute::VodCategories
                } else if a == "get_categories"@ && media_type == Some("series"@) {
                    ProxyRoute::SeriesCategories
                } else if a == "create_link"@ && proxy_rewrite && has_cmd {
                    ProxyRoute::CreateLink
                } else {
                    ProxyRoute::Forward
                }
            },
        }
    }
}

pub fn route_request(
    path: &str,
    action: Option<&str>,
    media_type: Option<&str>,
    has_cmd: bool,
    proxy_rewrite: bool,
) -> (r: ProxyRoute)
    ensures
        r == route_of(path@, opt_str(action), opt_str(media_type), has_cmd, proxy_rewrite),
{
    if contains_vec(&chars_of(path), &chars_of("favicon")) {
        return ProxyRoute::NotFound;
    }
    match action {
        None => ProxyRoute::Forward,
        Some(a) => {
            if str_eq(a, "handshake") {
                ProxyRoute::Handshake
            } else if str_eq(a, "get_events") && opt_is(media_type, "watchdog") {
                ProxyRoute::WatchdogEvents
            } else if str_eq(a, "get_events") && opt_is(media_type, "log") {
                ProxyRoute::EventLog
            } else if str_eq(a, "do_auth") {
                ProxyRoute::DoAuth
            } else if str_eq(a, "logout") {
                ProxyRoute::Logout
            } else if str_eq(a, "get_all_channels") && opt_is(media_type, "itv") {
                ProxyRoute::AllChannels
            } else if str_eq(a, "get_all_fav_channels") && opt_is(media_type, "itv") {
                ProxyRoute::FavChannels
            } else if str_eq(a, "get_categories") && opt_is(media_type, "vod") {
                ProxyRoute::VodCategories
            } else if str_eq(a, "get_categories") && opt_is(media_type, "series") {
                ProxyRoute::SeriesCategories
            } else if str_eq(a, "create_link") && proxy_rewrite && has_cmd {
                ProxyRoute::CreateLink
            } else {
                ProxyRoute::Forward
            }
        },
    }
}

/// The fixed body of the routes that answer with one.
pub open spec fn fixed_body_of(route: ProxyRoute) -> Option<Seq<char>> {
    match route {
        ProxyRoute::EventLog => Some("{\"js\":1,\"text\":\"generated in: 0.001s\"}"@),
        ProxyRoute::DoAuth => Some("{\"js\":true,\"text\":\"Authenticated\"}"@),
        ProxyRoute::Logout => Some("{\"js\":true,\"text\":\"Logged out\"}"@),
        ProxyRoute::FavChannels => Some("{\"js\": {\"data\": []}}"@),
        _ => None,
    }
}

pub fn fixed_body(route: ProxyRoute) -> (r: Option<String>)
    ensures
        opt_string(r) == fixed_body_of(route),
{
    match route {
        ProxyRoute::EventLog => Some(string_from_chars(chars_of("{\"js\":1,\"text\":\"generated in: 0.001s\"}"))),
        ProxyRoute::DoAuth => Some(string_from_chars(chars_of("{\"js\":true,\"text\":\"Authenticated\"}"))),
        ProxyRoute::Logout => Some(string_from_chars(chars_of("{\"js\":true,\"text\":\"Logged out\"}"))),
        ProxyRoute::FavChannels => Some(string_from_chars(chars_of("{\"js\": {\"data\": []}}"))),
        _ => None,
    }
}


// ---------------------------------------------------------------------------
// The request sent on to the portal
// ---------------------------------------------------------------------------

/// The parameters of a request from the box that the proxy reads.
#[derive(Debug, Clone)]
pub struct PortalQuery {
    pub media_type: Option<String>,
    pub action: Option<String>,
    pub cmd: Option<String>,
    pub sn: Option<String>,
    pub device_id: Option<String>,
    pub device_id2: Option<String>,
    pub signature: Option<String>,
    /// The other parameters, in the order they came.
    pub extra: Vec<(String, String)>,
}

/// The identity the engine registered with the portal, sent in place of the box's.
#[derive(Debug, Clone)]
pub struct DeviceIdentity {
    pub serial_number: String,
    pub mac: String,
    pub model: String,
    pub device_id: String,
    pub device_id2: String,
}

/// Name/value pairs by their characters.
pub open spec fn pairs_view(v: Seq<(String, String)>) -> Seq<(Seq<char>, Seq<char>)> {
    v.map_values(|p: (String, String)| (p.0@, p.1@))
}

/// The parameters the proxy writes itself; the box's values of these never go upstream.
pub open spec fn handled_param(k: Seq<char>) -> bool {
    k == "type"@ || k == "action"@ || k == "cmd"@ || k == "sn"@ || k == "device_id"@ || k
        == "device_id2"@ || k == "signature"@ || k == "metrics"@
}

/// The value the engine sends for a parameter of the box's that it knows better.
pub open spec fn override_value(k: Seq<char>, model: Seq<char>) -> Option<Seq<char>> {
    if k == "stb_type"@ {
        Some(model)
    } else if k == "client_type"@ {
        Some("STB"@)
    } else if k == "ver"@ {
        Some(
            "ImageDescription: 2.20.02-pub-424; ImageDate: Fri May 8 15:39:55 UTC 2020; PORTAL version: 5.3.0; API Version: JS API version: 343; STB API version: 146; Player Engine version: 0x588"@,
        )
    } else if k == "image_version"@ {
        Some("220"@)
    } else if k == "video_out"@ {
        Some("hdmi"@)
    } else if k == "num_banks"@ {
        Some("2"@)
    } else if k == "hw_version"@ {
        Some("1.7-BD-00"@)
    } else if k == "hw_version_2"@ {
        Some("1e94aad3c53eeff22eabe78107f368cb9b468fcb"@)
    } else if k == "api_signature"@ {
        Some("262"@)
    } else if k == "auth_second_step"@ {
        Some("1"@)
    } else if k == "not_valid_token"@ {
        Some("0"@)
    } else if k == "hd"@ {
        Some("1"@)
    } else {
        None
    }
}

/// The box's other parameters as sent upstream: handled ones dropped, known ones
/// replaced by the engine's value, `undefined` and `null` dropped, the rest kept in order.
pub open spec fn extra_params(extra: Seq<(Seq<char>, Seq<char>)>, model: Seq<char>) -> Seq<(Seq<char>, Seq<char>)>
    decreases extra.len(),
{
    if extra.len() == 0 {
        Seq::empty()
    } else {
        let prev = extra_params(extra.drop_last(), model);
        let (k, v) = extra.last();
        if handled_param(k) {
            prev
        } else {
            match override_value(k, model) {
                Some(r) => prev.push((k, r)),
                None => if v == "undefined"@ || v == "null"@ {
                    prev
                } else {
                    prev.push((k, v))
                },
            }
        }
    }
}

/// A parameter when its value is present.
pub open spec fn opt_param(name: Seq<char>, v: Option<Seq<char>>) -> Seq<(Seq<char>, Seq<char>)> {
    match v {
        Some(x) => seq![(name, x)],
        None => Seq::empty(),
    }
}

/// A parameter with the engine's value when the box sent one.
pub open spec fn replaced_param(name: Seq<char>, sent: bool, value: Seq<char>) -> Seq<(Seq<char>, Seq<char>)> {
    if sent {
        seq![(name, value)]
    } else {
        Seq::empty()
    }
}

/// The signature sent in place of the box's.
pub open spec fn engine_signature() -> Seq<char> {
    "ffffffffffffffffffffffffffffffffffffffffffffffffffffffffffffffff"@
}

/// The parameters sent upstream, in order: `type`, `action`, `cmd` as the box sent them;
/// `sn`, `device_id`, `device_id2`, `signature` with the engine's values where the box
/// sent them; the engine's `mac`; then the box's other parameters (see `extra_params`).
pub open spec fn upstream_params_of(q: PortalQuery, id: DeviceIdentity) -> Seq<(Seq<char>, Seq<char>)> {
    opt_param("type"@, opt_string(q.media_type)) + opt_param("action"@, opt_string(q.action))
        + opt_param("cmd"@, opt_string(q.cmd)) + replaced_param(
        "sn"@,
        q.sn is Some,
        id.serial_number@,
    ) + replaced_param("device_id"@, q.device_id is Some, id.device_id@) + replaced_param(
        "device_id2"@,
        q.device_id2 is Some,
        id.device_id2@,
    ) + replaced_param("signature"@, q.signature is Some, engine_signature()) + seq![
        ("mac"@, id.mac@),
    ] + extra_params(pairs_view(q.extra@), id.model@)
}

fn push_pair(out: &mut Vec<(String, String)>, k: &str, v: &str)
    ensures
        pairs_view(final(out)@) == pairs_view(old(out)@).push((k@, v@)),
{
    out.push((string_from_chars(chars_of(k)), string_from_chars(chars_of(v))));
    proof {
        assert(pairs_view(final(out)@) =~= pairs_view(old(out)@).push((k@, v@)));
    }
}

fn push_opt_param(out: &mut Vec<(String, String)>, k: &str, v: &Option<String>)
    ensures
        pairs_view(final(out)@) == pairs_view(old(out)@) + opt_param(k@, opt_string(*v)),
{
    match v {
        Some(x) => {
            push_pair(out, k, x.as_str());
        },
        None => {
            assert(pairs_view(out@) =~= pairs_view(out@) + opt_param(k@, opt_string(*v)));
        },
    }
}

fn push_replaced_param(out: &mut Vec<(String, String)>, k: &str, sent: bool, v: &str)
    ensures
        pairs_view(final(out)@) == pairs_view(old(out)@) + replaced_param(k@, sent, v@),
{
    if sent {
        push_pair(out, k, v);
    } else {
        assert(pairs_view(out@) =~= pairs_view(out@) + replaced_param(k@, sent, v@));
    }
}

/// Whether a parameter name is one the proxy writes itself.
pub fn is_handled_param(k: &str) -> (r: bool)
    ensures
        r == handled_param(k@),
{
    str_eq(k, "type") || str_eq(k, "action") || str_eq(k, "cmd") || str_eq(k, "sn") || str_eq(
        k,
        "device_id",
    ) || str_eq(k, "device_id2") || str_eq(k, "signature") || str_eq(k, "metrics")
}

/// The engine's value for a parameter it knows better than the box.
pub fn engine_override(k: &str, model: &str) -> (r: Option<String>)
    ensures
        opt_string(r) == override_value(k@, model@),
{
    let v: &str = if str_eq(k, "stb_type") {
        model
    } else if str_eq(k, "client_type") {
        "STB"
    } else if str_eq(k, "ver") {
        "ImageDescription: 2.20.02-pub-424; ImageDate: Fri May 8 15:39:55 UTC 2020; PORTAL version: 5.3.0; API Version: JS API version: 343; STB API version: 146; Player Engine version: 0x588"
    } else if str_eq(k, "image_version") {
        "220"
    } else if str_eq(k, "video_out") {
        "hdmi"
    } else if str_eq(k, "num_banks") {
        "2"
    } else if str_eq(k, "hw_version") {
        "1.7-BD-00"
    } else if str_eq(k, "hw_version_2") {
        "1e94aad3c53eeff22eabe78107f368cb9b468fcb"
    } else if str_eq(k, "api_signature") {
        "262"
    } else if str_eq(k, "auth_second_step") {
        "1"
    } else if str_eq(k, "not_valid_token") {
        "0"
    } else if str_eq(k, "hd") {
        "1"
    } else {
        return None;
    };
    Some(string_from_chars(chars_of(v)))
}

/// The parameters of a request sent on to the portal.
pub fn upstream_params(q: &PortalQuery, id: &DeviceIdentity) -> (r: Vec<(String, String)>)
    ensures
        pairs_view(r@) == upstream_params_of(*q, *id),
{
    let mut out: Vec<(String, String)> = Vec::new();
    assert(pairs_view(out@) =~= Seq::empty());
    push_opt_param(&mut out, "type", &q.media_type);
    push_opt_param(&mut out, "action", &q.action);
    push_opt_param(&mut out, "cmd", &q.cmd);
    push_replaced_param(&mut out, "sn", q.sn.is_some(), id.serial_number.as_str());
    push_replaced_param(&mut out, "device_id", q.device_id.is_some(), id.device_id.as_str());
    push_replaced_param(&mut out, "device_id2", q.device_id2.is_some(), id.device_id2.as_str());
    push_replaced_param(
        &mut out,
        "signature",
        q.signature.is_some(),
        "ffffffffffffffffffffffffffffffffffffffffffffffffffffffffffffffff",
    );
    push_pair(&mut out, "mac", id.mac.as_str());
    let ghost head = pairs_view(out@);
    let ghost model = id.model@;
    assert(head == opt_param("type"@, opt_string(q.media_type)) + opt_param("action"@, opt_string(q.action))
        + opt_param("cmd"@, opt_string(q.cmd)) + replaced_param("sn"@, q.sn is Some, id.serial_number@)
        + replaced_param("device_id"@, q.device_id is Some, id.device_id@) + replaced_param(
        "device_id2"@,
        q.device_id2 is Some,
        id.device_id2@,
    ) + replaced_param("signature"@, q.signature is Some, engine_signature()) + seq![("mac"@, id.mac@)]);
    let mut i: usize = 0;
    while i < q.extra.len()
        invariant
            i <= q.extra.len(),
            pairs_view(out@) == head + extra_params(pairs_view(q.extra@).subrange(0, i as int), model),
            model == id.model@,
        decreases q.extra.len() - i,
    {
        let ghost before = pairs_view(q.extra@).subrange(0, i as int);
        let ghost after = pairs_view(q.extra@).subrange(0, i + 1);
        assert(after.drop_last() =~= before);
        assert(after.last() == (q.extra@[i as int].0@, q.extra@[i as int].1@));
        let k = q.extra[i].0.as_str();
        let v = q.extra[i].1.as_str();
        if !is_handled_param(k) {
            match engine_override(k, id.model.as_str()) {
                Some(r) => {
                    push_pair(&mut out, k, r.as_str());
                    assert(pairs_view(out@) =~= head + extra_params(after, model));
                },
                None => {
                    if !(str_eq(v, "undefined") || str_eq(v, "null")) {
                        push_pair(&mut out, k, v);
                        assert(pairs_view(out@) =~= head + extra_params(after, model));
                    }
                },
            }
        }
        i += 1;
    }
    assert(pairs_view(q.extra@).subrange(0, q.extra@.len() as int) =~= pairs_view(q.extra@));
    out
}

/// Whether a request is one for the portal's API: a `.php` path, or a `type` or `action`.
pub open spec fn is_api_request_of(path: Seq<char>, media_type: Option<Seq<char>>, action: Option<Seq<char>>) -> bool {
    ends_with(path, ".php"@) || media_type is Some || action is Some
}

/// Whether a request goes to the portal's API endpoint rather than its static root.
pub fn is_api_request(path: &str, media_type: Option<&str>, action: Option<&str>) -> (r: bool)
    ensures
        r == is_api_request_of(path@, opt_str(media_type), opt_str(action)),
{
    let p = chars_of(path);
    let suffix = chars_of(".php");
    ends_with_vec(&p, &suffix) || media_type.is_some() || action.is_some()
}

/// The query string of name/value pairs, values percent-encoded.
pub open spec fn query_string_of(params: Seq<(Seq<char>, Seq<char>)>) -> Seq<char>
    decreases params.len(),
{
    if params.len() == 0 {
        Seq::empty()
    } else {
        let prev = query_string_of(params.drop_last());
        let item = params.last().0 + seq!['='] + percent_encode(encode_utf8(params.last().1));
        if params.len() == 1 {
            item
        } else {
            prev + seq!['&'] + item
        }
    }
}

/// The address a request is sent to: the API base and the query string where there are
/// parameters; else the portal directory with the request path below it.
pub open spec fn upstream_url_of(
    params: Seq<(Seq<char>, Seq<char>)>,
    api_base: Seq<char>,
    path: Seq<char>,
    portal_root_path: Seq<char>,
    portal_root: Seq<char>,
) -> Seq<char> {
    if params.len() == 0 {
        let stripped = if starts_with(path, portal_root_path) {
            path.subrange(portal_root_path.len() as int, path.len() as int)
        } else {
            path
        };
        let rest = crate::text::trim_start_char(stripped, '/');
        if rest.len() == 0 {
            portal_root
        } else {
            portal_root + rest
        }
    } else {
        api_base + seq!['?'] + query_string_of(params)
    }
}

/// The query string of a list of parameters.
pub fn query_string(params: &Vec<(String, String)>) -> (r: String)
    ensures
        r@ == query_string_of(pairs_view(params@)),
{
    let mut out: Vec<char> = Vec::new();
    let mut i: usize = 0;
    while i < params.len()
        invariant
            i <= params.len(),
            out@ == query_string_of(pairs_view(params@).subrange(0, i as int)),
        decreases params.len() - i,
    {
        let ghost before = pairs_view(params@).subrange(0, i as int);
        let ghost after = pairs_view(params@).subrange(0, i + 1);
        assert(after.drop_last() =~= before);
        if i > 0 {
            out.push('&');
        }
        push_str(&mut out, params[i].0.as_str());
        out.push('=');
        let enc = url_encode(params[i].1.as_str());
        push_str(&mut out, enc.as_str());
        assert(out@ =~= query_string_of(after));
        i += 1;
    }
    assert(pairs_view(params@).subrange(0, params@.len() as int) =~= pairs_view(params@));
    string_from_chars(out)
}

/// The address a request of the box is sent to (see `upstream_url_of`); the API base
/// is the portal's `/portal.php` for API requests and the portal base otherwise.
pub fn upstream_url(
    params: &Vec<(String, String)>,
    portal_base: &str,
    is_api: bool,
    path: &str,
    portal_root_path: &str,
    portal_root: &str,
) -> (r: String)
    ensures
        r@ == upstream_url_of(
            pairs_view(params@),
            if is_api {
                crate::address::portal_api_base_of(portal_base@)
            } else {
                portal_base@
            },
            path@,
            portal_root_path@,
            portal_root@,
        ),
{
    if params.len() == 0 {
        let p = chars_of(path);
        let rp = chars_of(portal_root_path);
        let stripped = if starts_with_vec(&p, &rp) {
            slice_vec(&p, rp.len(), p.len())
        } else {
            p
        };
        let rest = crate::text::trim_start_char_vec(&stripped, '/');
        let mut out = chars_of(portal_root);
        if rest.len() > 0 {
            push_chars(&mut out, &rest);
        }
        string_from_chars(out)
    } else {
        let base = if is_api {
            crate::address::portal_api_base(portal_base)
        } else {
            string_from_chars(chars_of(portal_base))
        };
        let mut out = chars_of(base.as_str());
        out.push('?');
        let qs = query_string(params);
        push_str(&mut out, qs.as_str());
        string_from_chars(out)
    }
}

// ---------------------------------------------------------------------------
// Headers and answers passed through
// ---------------------------------------------------------------------------

/// A character in lower case (ASCII letters only).
pub open spec fn lower_char(c: char) -> char {
    if 'A' <= c <= 'Z' {
        ((c as u32) + 32) as char
    } else {
        c
    }
}

/// A string in lower case (ASCII letters only).
pub open spec fn ascii_lower(s: Seq<char>) -> Seq<char> {
    s.map_values(|c: char| lower_char(c))
}

pub fn ascii_lower_vec(s: &Vec<char>) -> (r: Vec<char>)
    ensures
        r@ == ascii_lower(s@),
{
    let mut out: Vec<char> = Vec::new();
    let mut i: usize = 0;
    while i < s.len()
        invariant
            i <= s.len(),
            out@ == ascii_lower(s@.subrange(0, i as int)),
        decreases s.len() - i,
    {
        let c = s[i];
        let l = if 'A' <= c && c <= 'Z' {
            crate::text::char_from_ascii((c as u32) + 32)
        } else {
            c
        };
        out.push(l);
        assert(out@ =~= ascii_lower(s@.subrange(0, i + 1)));
        i += 1;
    }
    assert(s@.subrange(0, s@.len() as int) =~= s@);
    out
}

/// Headers of the box that are not passed on to the portal.
pub open spec fn request_header_dropped(name: Seq<char>) -> bool {
    let n = ascii_lower(name);
    n == "host"@ || n == "cookie"@ || n == "authorization"@ || n == "referer"@ || n == "referrer"@
        || n == "origin"@ || n == "connection"@ || n == "transfer-encoding"@ || n == "keep-alive"@ || n
        == "te"@ || n == "trailer"@ || n == "upgrade"@ || n == "proxy-authorization"@ || n
        == "proxy-authenticate"@ || n == "content-length"@ || n == "content-type"@ || n
        == "accept-encoding"@ || n == "content-encoding"@
}

/// Headers of the portal's answer that are not passed back to the box.
pub open spec fn response_header_dropped(name: Seq<char>) -> bool {
    let n = ascii_lower(name);
    n == "host"@ || n == "connection"@ || n == "transfer-encoding"@ || n == "keep-alive"@ || n
        == "te"@ || n == "trailer"@ || n == "upgrade"@ || n == "proxy-authorization"@ || n
        == "proxy-authenticate"@ || n == "content-length"@ || n == "content-encoding"@
}

pub fn forward_request_header(name: &str) -> (r: bool)
    ensures
        r == !request_header_dropped(name@),
{
    let n = string_from_chars(ascii_lower_vec(&chars_of(name)));
    let s = n.as_str();
    !(str_eq(s, "host") || str_eq(s, "cookie") || str_eq(s, "authorization") || str_eq(s, "referer")
        || str_eq(s, "referrer") || str_eq(s, "origin") || str_eq(s, "connection") || str_eq(
        s,
        "transfer-encoding",
    ) || str_eq(s, "keep-alive") || str_eq(s, "te") || str_eq(s, "trailer") || str_eq(s, "upgrade")
        || str_eq(s, "proxy-authorization") || str_eq(s, "proxy-authenticate") || str_eq(
        s,
        "content-length",
    ) || str_eq(s, "content-type") || str_eq(s, "accept-encoding") || str_eq(s, "content-encoding"))
}

pub fn forward_response_header(name: &str) -> (r: bool)
    ensures
        r == !response_header_dropped(name@),
{
    let n = string_from_chars(ascii_lower_vec(&chars_of(name)));
    let s = n.as_str();
    !(str_eq(s, "host") || str_eq(s, "connection") || str_eq(s, "transfer-encoding") || str_eq(
        s,
        "keep-alive",
    ) || str_eq(s, "te") || str_eq(s, "trailer") || str_eq(s, "upgrade") || str_eq(
        s,
        "proxy-authorization",
    ) || str_eq(s, "proxy-authenticate") || str_eq(s, "content-length") || str_eq(
        s,
        "content-encoding",
    ))
}

/// The body put in place of a failed answer of the portal, and whether the status then
/// becomes 200: an empty page for `get_ordered_list` of `itv`, `vod` or `series` (200),
/// an empty list for `get_genres` of `itv` (status kept); otherwise nothing.
pub open spec fn error_substitute_of(action: Seq<char>, media_type: Seq<char>) -> Option<(bool, Seq<char>)> {
    if action == "get_ordered_list"@ && (media_type == "itv"@ || media_type == "vod"@ || media_type
        == "series"@) {
        Some((true, "{\"js\":{\"cur_page\":1,\"data\":[],\"max_page_items\":14,\"selected_item\":0,\"total_items\":0}}"@))
    } else if action == "get_genres"@ && media_type == "itv"@ {
        Some((false, "{\"js\":[]}"@))
    } else {
        None
    }
}

pub fn error_substitute(action: &str, media_type: &str) -> (r: Option<(bool, String)>)
    ensures
        match r {
            Some((ok, b)) => error_substitute_of(action@, media_type@) == Some((ok, b@)),
            None => error_substitute_of(action@, media_type@) is None,
        },
{
    if str_eq(action, "get_ordered_list") && (str_eq(media_type, "itv") || str_eq(media_type, "vod")
        || str_eq(media_type, "series")) {
        Some(
            (
                true,
                string_from_chars(
                    chars_of(
                        "{\"js\":{\"cur_page\":1,\"data\":[],\"max_page_items\":14,\"selected_item\":0,\"total_items\":0}}",
                    ),
                ),
            ),
        )
    } else if str_eq(action, "get_genres") && str_eq(media_type, "itv") {
        Some((false, string_from_chars(chars_of("{\"js\":[]}"))))
    } else {
        None
    }
}


// ---------------------------------------------------------------------------
// The channel list served from the cache
// ---------------------------------------------------------------------------

/// A channel of the list the proxy serves itself.
#[derive(Debug, Clone)]
pub struct ListedChannel {
    /// The stream id of the command.
    pub id: String,
    /// The title after renaming.
    pub name: String,
    /// The channel's place among the allowed channels, from 1.
    pub number: usize,
    /// The channel's index in the list it came from.
    pub source: usize,
}

pub open spec fn listed_view(v: Seq<ListedChannel>) -> Seq<(Seq<char>, Seq<char>, nat, nat)> {
    v.map_values(|c: ListedChannel| (c.id@, c.name@, c.number as nat, c.source as nat))
}

/// How many of the channels the profile's filters allow.
pub open spec fn allowed_count(m: FilterModel, pid: i32, chs: Seq<Channel>) -> nat
    decreases chs.len(),
{
    if chs.len() == 0 {
        0
    } else {
        allowed_count(m, pid, chs.drop_last()) + if m.is_channel_allowed(
            pid,
            chs.last().cmd@,
            chs.last().genre_id@,
        ) {
            1nat
        } else {
            0nat
        }
    }
}

/// The channels listed for a profile: the allowed ones in order, numbered from 1 among
/// the allowed, renamed, and without those whose new name starts with `#`.
pub open spec fn listing_of(m: FilterModel, pid: i32, chs: Seq<Channel>) -> Seq<(Seq<char>, Seq<char>, nat, nat)>
    decreases chs.len(),
{
    if chs.len() == 0 {
        Seq::empty()
    } else {
        let prev = listing_of(m, pid, chs.drop_last());
        let ch = chs.last();
        let name = m.apply_rename(pid, ch.title@);
        if m.is_channel_allowed(pid, ch.cmd@, ch.genre_id@) && !starts_with(name, seq!['#']) {
            prev.push((stream_id_of(ch.cmd@), name, allowed_count(m, pid, chs), (chs.len() - 1) as nat))
        } else {
            prev
        }
    }
}

pub fn list_channels(channels: &Vec<Channel>, filter: &FilterStore, profile_id: i32) -> (r: Vec<ListedChannel>)
    ensures
        listed_view(r@) == listing_of(filter.model(), profile_id, channels@),
{
    let ghost m = filter.model();
    let mut out: Vec<ListedChannel> = Vec::new();
    let mut n: usize = 0;
    let mut i: usize = 0;
    while i < channels.len()
        invariant
            i <= channels.len(),
            m == filter.model(),
            n == allowed_count(m, profile_id, channels@.subrange(0, i as int)),
            n <= i,
            listed_view(out@) == listing_of(m, profile_id, channels@.subrange(0, i as int)),
        decreases channels.len() - i,
    {
        let ghost after = channels@.subrange(0, i + 1);
        assert(after.drop_last() =~= channels@.subrange(0, i as int));
        let ch = &channels[i];
        if filter.is_channel_allowed(profile_id, ch.cmd.as_str(), ch.genre_id.as_str()) {
            n = n + 1;
            let name = filter.apply_rename(profile_id, ch.title.as_str());
            if !starts_with_hash(name.as_str()) {
                let id = extract_stream_id(ch.cmd.as_str());
                out.push(ListedChannel { id, name, number: n, source: i });
                assert(listed_view(out@) =~= listing_of(m, profile_id, after));
            }
        }
        i += 1;
    }
    assert(channels@.subrange(0, channels@.len() as int) =~= channels@);
    out
}

/// The page asked for: the first `p` parameter read as a number, else page 0.
pub open spec fn page_param_of(extra: Seq<(Seq<char>, Seq<char>)>) -> nat
    decreases extra.len(),
{
    if extra.len() == 0 {
        0
    } else if extra[0].0 == "p"@ {
        match parse_u64(extra[0].1) {
            Some(v) => if v <= usize::MAX {
                v as nat
            } else {
                0
            },
            None => 0,
        }
    } else {
        page_param_of(extra.subrange(1, extra.len() as int))
    }
}

pub fn page_param(extra: &Vec<(String, String)>) -> (r: usize)
    ensures
        r as nat == page_param_of(pairs_view(extra@)),
{
    let mut i: usize = 0;
    assert(pairs_view(extra@).subrange(0, extra@.len() as int) =~= pairs_view(extra@));
    while i < extra.len()
        invariant
            i <= extra.len(),
            page_param_of(pairs_view(extra@)) == page_param_of(pairs_view(extra@).subrange(i as int, extra@.len() as int)),
        decreases extra.len() - i,
    {
        let ghost rest = pairs_view(extra@).subrange(i as int, extra@.len() as int);
        assert(rest[0] == (extra@[i as int].0@, extra@[i as int].1@));
        if str_eq(extra[i].0.as_str(), "p") {
            return match parse_u64_str(extra[i].1.as_str()) {
                Some(v) => if v <= usize::MAX as u64 {
                    v as usize
                } else {
                    0
                },
                None => 0,
            };
        }
        assert(rest.subrange(1, rest.len() as int) =~= pairs_view(extra@).subrange(i + 1, extra@.len() as int));
        i += 1;
    }
    0
}

// ---------------------------------------------------------------------------
// Category lists and the portal's list answers
// ---------------------------------------------------------------------------

/// An entry of a category or genre list, as the proxy reads it.
#[derive(Debug, Clone)]
pub struct CategoryItem {
    /// The `id` as text: a string as it is, a number written out, else empty.
    pub id: String,
    /// Whether the `id` is a string.
    pub id_is_text: bool,
    /// The `title` when it is a string, else empty.
    pub title: String,
    /// Whether the entry is an object.
    pub is_object: bool,
}

/// A channel entry of the portal's `get_all_channels` answer, as the proxy reads it.
#[derive(Debug, Clone)]
pub struct ChannelItem {
    /// `cmd`, `tv_genre_id` and `name` as text: a string as it is, a number written out,
    /// else empty.
    pub cmd: String,
    pub genre_id: String,
    pub name: String,
    /// Whether the `name` is a string.
    pub name_is_text: bool,
}

/// Kept entries: index in the input, and the new name or title where one is set.
pub open spec fn kept_view(v: Seq<(usize, Option<String>)>) -> Seq<(nat, Option<Seq<char>>)> {
    v.map_values(|p: (usize, Option<String>)| (p.0 as nat, opt_string(p.1)))
}

/// The cached VOD or series categories a profile sees: all but `*` and the disabled
/// ones (a non-string id counts as empty), each object's title renamed.
pub open spec fn local_categories_of(m: FilterModel, pid: i32, items: Seq<CategoryItem>) -> Seq<(nat, Option<Seq<char>>)>
    decreases items.len(),
{
    if items.len() == 0 {
        Seq::empty()
    } else {
        let prev = local_categories_of(m, pid, items.drop_last());
        let it = items.last();
        let id = if it.id_is_text {
            it.id@
        } else {
            Seq::empty()
        };
        if id != seq!['*'] && !m.is_genre_disabled(pid, id) {
            prev.push(
                (
                    (items.len() - 1) as nat,
                    if it.is_object {
                        Some(m.apply_genre_rename(pid, id, it.title@))
                    } else {
                        None
                    },
                ),
            )
        } else {
            prev
        }
    }
}

/// The genres or categories of the portal's answer a profile sees: those with a
/// non-empty id other than `*` that are not disabled, each object with a string id
/// renamed.
pub open spec fn portal_categories_of(m: FilterModel, pid: i32, items: Seq<CategoryItem>) -> Seq<(nat, Option<Seq<char>>)>
    decreases items.len(),
{
    if items.len() == 0 {
        Seq::empty()
    } else {
        let prev = portal_categories_of(m, pid, items.drop_last());
        let it = items.last();
        if it.id@.len() > 0 && it.id@ != seq!['*'] && !m.is_genre_disabled(pid, it.id@) {
            prev.push(
                (
                    (items.len() - 1) as nat,
                    if it.is_object && it.id_is_text {
                        Some(m.apply_genre_rename(pid, it.id@, it.title@))
                    } else {
                        None
                    },
                ),
            )
        } else {
            prev
        }
    }
}

fn is_star(s: &str) -> (r: bool)
    ensures
        r == (s@ == seq!['*']),
{
    let c = chars_of(s);
    let r = c.len() == 1 && c[0] == '*';
    proof {
        if r {
            assert(c@ =~= seq!['*']);
        }
        if c@ == seq!['*'] {
            assert(c@[0] == '*');
        }
    }
    r
}

pub fn local_categories(items: &Vec<CategoryItem>, filter: &FilterStore, profile_id: i32) -> (r: Vec<(usize, Option<String>)>)
    ensures
        kept_view(r@) == local_categories_of(filter.model(), profile_id, items@),
{
    let ghost m = filter.model();
    let mut out: Vec<(usize, Option<String>)> = Vec::new();
    let mut i: usize = 0;
    while i < items.len()
        invariant
            i <= items.len(),
            m == filter.model(),
            kept_view(out@) == local_categories_of(m, profile_id, items@.subrange(0, i as int)),
        decreases items.len() - i,
    {
        let ghost after = items@.subrange(0, i + 1);
        assert(after.drop_last() =~= items@.subrange(0, i as int));
        let it = &items[i];
        let id: String = if it.id_is_text {
            it.id.clone()
        } else {
            string_from_chars(Vec::new())
        };
        if !is_star(id.as_str()) && !filter.is_genre_disabled(profile_id, id.as_str()) {
            let title = if it.is_object {
                Some(filter.apply_genre_rename(profile_id, id.as_str(), it.title.as_str()))
            } else {
                None
            };
            out.push((i, title));
            assert(kept_view(out@) =~= local_categories_of(m, profile_id, after));
        }
        i += 1;
    }
    assert(items@.subrange(0, items@.len() as int) =~= items@);
    out
}

pub fn portal_categories(items: &Vec<CategoryItem>, filter: &FilterStore, profile_id: i32) -> (r: Vec<(usize, Option<String>)>)
    ensures
        kept_view(r@) == portal_categories_of(filter.model(), profile_id, items@),
{
    let ghost m = filter.model();
    let mut out: Vec<(usize, Option<String>)> = Vec::new();
    let mut i: usize = 0;
    while i < items.len()
        invariant
            i <= items.len(),
            m == filter.model(),
            kept_view(out@) == portal_categories_of(m, profile_id, items@.subrange(0, i as int)),
        decreases items.len() - i,
    {
        let ghost after = items@.subrange(0, i + 1);
        assert(after.drop_last() =~= items@.subrange(0, i as int));
        let it = &items[i];
        let id = it.id.as_str();
        if chars_of(id).len() > 0 && !is_star(id) && !filter.is_genre_disabled(profile_id, id) {
            let title = if it.is_object && it.id_is_text {
                Some(filter.apply_genre_rename(profile_id, id, it.title.as_str()))
            } else {
                None
            };
            out.push((i, title));
            assert(kept_view(out@) =~= portal_categories_of(m, profile_id, after));
        }
        i += 1;
    }
    assert(items@.subrange(0, items@.len() as int) =~= items@);
    out
}

/// The channels of the portal's `get_all_channels` answer a profile sees: those whose
/// name does not start with `#` and that the filters allow, string names renamed.
pub open spec fn portal_channels_of(m: FilterModel, pid: i32, items: Seq<ChannelItem>) -> Seq<(nat, Option<Seq<char>>)>
    decreases items.len(),
{
    if items.len() == 0 {
        Seq::empty()
    } else {
        let prev = portal_channels_of(m, pid, items.drop_last());
        let it = items.last();
        if !starts_with(it.name@, seq!['#']) && m.is_channel_allowed(pid, it.cmd@, it.genre_id@) {
            prev.push(
                (
                    (items.len() - 1) as nat,
                    if it.name_is_text {
                        Some(m.apply_rename(pid, it.name@))
                    } else {
                        None
                    },
                ),
            )
        } else {
            prev
        }
    }
}

fn starts_with_hash(s: &str) -> (r: bool)
    ensures
        r == starts_with(s@, seq!['#']),
{
    let c = chars_of(s);
    let r = c.len() > 0 && c[0] == '#';
    proof {
        assert(seq!['#'].len() == 1);
        if c@.len() > 0 {
            assert(c@.subrange(0, 1) =~= seq![c@[0]]);
            assert(seq![c@[0]][0] == c@[0]);
            if c@[0] == '#' {
                assert(c@.subrange(0, 1) =~= seq!['#']);
            }
        }
    }
    r
}

pub fn portal_channels(items: &Vec<ChannelItem>, filter: &FilterStore, profile_id: i32) -> (r: Vec<(usize, Option<String>)>)
    ensures
        kept_view(r@) == portal_channels_of(filter.model(), profile_id, items@),
{
    let ghost m = filter.model();
    let mut out: Vec<(usize, Option<String>)> = Vec::new();
    let mut i: usize = 0;
    while i < items.len()
        invariant
            i <= items.len(),
            m == filter.model(),
            kept_view(out@) == portal_channels_of(m, profile_id, items@.subrange(0, i as int)),
        decreases items.len() - i,
    {
        let ghost after = items@.subrange(0, i + 1);
        assert(after.drop_last() =~= items@.subrange(0, i as int));
        let it = &items[i];
        if !starts_with_hash(it.name.as_str()) && filter.is_channel_allowed(
            profile_id,
            it.cmd.as_str(),
            it.genre_id.as_str(),
        ) {
            let name = if it.name_is_text {
                Some(filter.apply_rename(profile_id, it.name.as_str()))
            } else {
                None
            };
            out.push((i, name));
            assert(kept_view(out@) =~= portal_channels_of(m, profile_id, after));
        }
        i += 1;
    }
    assert(items@.subrange(0, items@.len() as int) =~= items@);
    out
}

/// The entries of a `get_ordered_list` answer a profile sees: string names renamed, then
/// those whose name starts with `#` dropped (entries without a string name are kept).
pub open spec fn ordered_list_of(m: FilterModel, pid: i32, names: Seq<Option<Seq<char>>>) -> Seq<(nat, Option<Seq<char>>)>
    decreases names.len(),
{
    if names.len() == 0 {
        Seq::empty()
    } else {
        let prev = ordered_list_of(m, pid, names.drop_last());
        match names.last() {
            Some(n) => {
                let renamed = m.apply_rename(pid, n);
                if starts_with(renamed, seq!['#']) {
                    prev
                } else {
                    prev.push(((names.len() - 1) as nat, Some(renamed)))
                }
            },
            None => prev.push(((names.len() - 1) as nat, None)),
        }
    }
}

pub open spec fn opt_names(v: Seq<Option<String>>) -> Seq<Option<Seq<char>>> {
    v.map_values(|o: Option<String>| opt_string(o))
}

pub fn ordered_list(names: &Vec<Option<String>>, filter: &FilterStore, profile_id: i32) -> (r: Vec<(usize, Option<String>)>)
    ensures
        kept_view(r@) == ordered_list_of(filter.model(), profile_id, opt_names(names@)),
{
    let ghost m = filter.model();
    let mut out: Vec<(usize, Option<String>)> = Vec::new();
    let mut i: usize = 0;
    while i < names.len()
        invariant
            i <= names.len(),
            m == filter.model(),
            kept_view(out@) == ordered_list_of(m, profile_id, opt_names(names@).subrange(0, i as int)),
        decreases names.len() - i,
    {
        let ghost after = opt_names(names@).subrange(0, i + 1);
        assert(after.drop_last() =~= opt_names(names@).subrange(0, i as int));
        match &names[i] {
            Some(n) => {
                let renamed = filter.apply_rename(profile_id, n.as_str());
                if !starts_with_hash(renamed.as_str()) {
                    out.push((i, Some(renamed)));
                    assert(kept_view(out@) =~= ordered_list_of(m, profile_id, after));
                }
            },
            None => {
                out.push((i, None));
                assert(kept_view(out@) =~= ordered_list_of(m, profile_id, after));
            },
        }
        i += 1;
    }
    assert(opt_names(names@).subrange(0, names@.len() as int) =~= opt_names(names@));
    out
}

/// Which of the portal's answers the proxy rewrites.
#[derive(Debug, Clone, Copy, PartialEq, Eq, Structural)]
pub enum ListRewrite {
    /// `get_ordered_list` of `itv`, `vod` or `series`.
    OrderedList,
    /// `get_all_channels` of `itv`.
    AllChannels,
    /// `get_genres` of `itv`, or `get_categories` of `vod` or `series`.
    Categories,
}

pub open spec fn list_rewrite_of(action: Seq<char>, media_type: Seq<char>) -> Option<ListRewrite> {
    if action == "get_ordered_list"@ && (media_type == "itv"@ || media_type == "vod"@ || media_type
        == "series"@) {
        Some(ListRewrite::OrderedList)
    } else if action == "get_all_channels"@ && media_type == "itv"@ {
        Some(ListRewrite::AllChannels)
    } else if (action == "get_genres"@ && media_type == "itv"@) || (action == "get_categories"@ && (
    media_type == "vod"@ || media_type == "series"@)) {
        Some(ListRewrite::Categories)
    } else {
        None
    }
}

pub fn list_rewrite(action: &str, media_type: &str) -> (r: Option<ListRewrite>)
    ensures
        r == list_rewrite_of(action@, media_type@),
{
    let itv = str_eq(media_type, "itv");
    let vod = str_eq(media_type, "vod");
    let series = str_eq(media_type, "series");
    if str_eq(action, "get_ordered_list") && (itv || vod || series) {
        Some(ListRewrite::OrderedList)
    } else if str_eq(action, "get_all_channels") && itv {
        Some(ListRewrite::AllChannels)
    } else if (str_eq(action, "get_genres") && itv) || (str_eq(action, "get_categories") && (vod
        || series)) {
        Some(ListRewrite::Categories)
    } else {
        None
    }
}


// ---------------------------------------------------------------------------
// Retrying create_link after the portal refused it
// ---------------------------------------------------------------------------

/// The command to ask for after the channel list was fetched again: that of the first
/// channel whose command or title is the old command, else the old command.
pub open spec fn refreshed_cmd_of(chs: Seq<Channel>, cmd: Seq<char>) -> Seq<char>
    decreases chs.len(),
{
    if chs.len() == 0 {
        cmd
    } else if chs[0].cmd@ == cmd || chs[0].title@ == cmd {
        chs[0].cmd@
    } else {
        refreshed_cmd_of(chs.drop_first(), cmd)
    }
}

pub fn refreshed_cmd(channels: &Vec<Channel>, cmd: &str) -> (r: String)
    ensures
        r@ == refreshed_cmd_of(channels@, cmd@),
{
    let mut i: usize = 0;
    assert(channels@.subrange(0, channels@.len() as int) =~= channels@);
    while i < channels.len()
        invariant
            i <= channels.len(),
            refreshed_cmd_of(channels@, cmd@) == refreshed_cmd_of(channels@.subrange(i as int, channels@.len() as int), cmd@),
        decreases channels.len() - i,
    {
        let ghost rest = channels@.subrange(i as int, channels@.len() as int);
        assert(rest[0] == channels@[i as int]);
        assert(rest.drop_first() =~= channels@.subrange(i + 1, channels@.len() as int));
        if str_eq(channels[i].cmd.as_str(), cmd) || str_eq(channels[i].title.as_str(), cmd) {
            return channels[i].cmd.clone();
        }
        i += 1;
    }
    string_from_chars(chars_of(cmd))
}

/// Words percent-encoded and joined with `%20`.
pub open spec fn encoded_words_of(ws: Seq<Seq<char>>) -> Seq<char>
    decreases ws.len(),
{
    if ws.len() == 0 {
        Seq::empty()
    } else if ws.len() == 1 {
        percent_encode(encode_utf8(ws[0]))
    } else {
        encoded_words_of(ws.drop_last()) + "%20"@ + percent_encode(encode_utf8(ws.last()))
    }
}

/// The `create_link` request sent again with the refreshed command.
pub open spec fn retry_create_link_url_of(portal_base: Seq<char>, cmd: Seq<char>) -> Seq<char> {
    portal_base + "?action=create_link&type=itv&cmd="@ + encoded_words_of(words(cmd)) + "&JsHttpRequest=1-xml"@
}

pub fn retry_create_link_url(portal_base: &str, cmd: &str) -> (r: String)
    ensures
        r@ == retry_create_link_url_of(portal_base@, cmd@),
{
    let ws = split_words(cmd);
    let ghost wv = ws@.map_values(|w: Vec<char>| w@);
    let mut enc: Vec<char> = Vec::new();
    let mut i: usize = 0;
    while i < ws.len()
        invariant
            i <= ws.len(),
            wv == ws@.map_values(|w: Vec<char>| w@),
            enc@ == encoded_words_of(wv.subrange(0, i as int)),
        decreases ws.len() - i,
    {
        let ghost after = wv.subrange(0, i + 1);
        assert(after.drop_last() =~= wv.subrange(0, i as int));
        assert(after.last() == ws@[i as int]@);
        if i > 0 {
            push_str(&mut enc, "%20");
        }
        let w = string_from_chars(slice_vec(&ws[i], 0, ws[i].len()));
        assert(w@ =~= ws@[i as int]@);
        let e = url_encode(w.as_str());
        push_str(&mut enc, e.as_str());
        assert(enc@ =~= encoded_words_of(after));
        i += 1;
    }
    assert(wv.subrange(0, wv.len() as int) =~= wv);
    let mut out = chars_of(portal_base);
    push_str(&mut out, "?action=create_link&type=itv&cmd=");
    push_chars(&mut out, &enc);
    push_str(&mut out, "&JsHttpRequest=1-xml");
    assert(out@ =~= retry_create_link_url_of(portal_base@, cmd@));
    string_from_chars(out)
}


// ---------------------------------------------------------------------------
// What the portal sees of the box
// ---------------------------------------------------------------------------

proof fn lemma_extra_params_keys(extra: Seq<(Seq<char>, Seq<char>)>, model: Seq<char>)
    ensures
        forall|i: int| 0 <= i < extra_params(extra, model).len() ==> !handled_param(#[trigger] extra_params(extra, model)[i].0),
    decreases extra.len(),
{
    if extra.len() > 0 {
        lemma_extra_params_keys(extra.drop_last(), model);
        let prev = extra_params(extra.drop_last(), model);
        let r = extra_params(extra, model);
        assert forall|i: int| 0 <= i < r.len() implies !handled_param(#[trigger] r[i].0) by {
            if i < prev.len() {
                assert(r[i] == prev[i]);
            }
        }
    }
}

/// The identity the engine sends for a parameter name it replaces.
pub open spec fn engine_value_of(k: Seq<char>, id: DeviceIdentity) -> Option<Seq<char>> {
    if k == "sn"@ {
        Some(id.serial_number@)
    } else if k == "device_id"@ {
        Some(id.device_id@)
    } else if k == "device_id2"@ {
        Some(id.device_id2@)
    } else if k == "signature"@ {
        Some(engine_signature())
    } else {
        None
    }
}

/// The box's `type`, `action` and `cmd`, in that order, each where it was sent.
pub open spec fn leading_params(q: PortalQuery) -> Seq<(Seq<char>, Seq<char>)> {
    opt_param("type"@, opt_string(q.media_type)) + opt_param("action"@, opt_string(q.action))
        + opt_param("cmd"@, opt_string(q.cmd))
}

/// The parameters sent upstream lead with the box's `type`, `action` and `cmd` in that
/// order (the portal's middleware is order-sensitive), and always carry the engine's MAC.
pub proof fn law_upstream_order(q: PortalQuery, id: DeviceIdentity)
    ensures
        upstream_params_of(q, id).len() >= leading_params(q).len(),
        upstream_params_of(q, id).subrange(0, leading_params(q).len() as int) == leading_params(q),
        upstream_params_of(q, id).contains(("mac"@, id.mac@)),
{
    let lead = leading_params(q);
    let rest = replaced_param("sn"@, q.sn is Some, id.serial_number@) + replaced_param(
        "device_id"@,
        q.device_id is Some,
        id.device_id@,
    ) + replaced_param("device_id2"@, q.device_id2 is Some, id.device_id2@) + replaced_param(
        "signature"@,
        q.signature is Some,
        engine_signature(),
    );
    let extras = extra_params(pairs_view(q.extra@), id.model@);
    let all = upstream_params_of(q, id);
    assert(all =~= lead + rest + seq![("mac"@, id.mac@)] + extras);
    assert(all.subrange(0, lead.len() as int) =~= lead);
    let k = (lead.len() + rest.len()) as int;
    assert(all[k] == ("mac"@, id.mac@));
}

/// The portal never receives the box's serial number, device ids or signature: every
/// `sn`, `device_id`, `device_id2` and `signature` parameter sent upstream carries the
/// engine's value, and the box's `metrics` parameter is never sent.
pub proof fn law_box_identity_replaced(q: PortalQuery, id: DeviceIdentity, i: int)
    requires
        0 <= i < upstream_params_of(q, id).len(),
    ensures
        engine_value_of(upstream_params_of(q, id)[i].0, id) matches Some(v) ==> upstream_params_of(q, id)[i].1 == v,
        upstream_params_of(q, id)[i].0 != "metrics"@,
{
    reveal_strlit("type");
    reveal_strlit("action");
    reveal_strlit("cmd");
    reveal_strlit("sn");
    reveal_strlit("device_id");
    reveal_strlit("device_id2");
    reveal_strlit("signature");
    reveal_strlit("mac");
    reveal_strlit("metrics");
    assert("type"@.len() == 4 && "action"@.len() == 6 && "cmd"@.len() == 3 && "sn"@.len() == 2);
    assert("device_id"@.len() == 9 && "device_id2"@.len() == 10 && "signature"@.len() == 9);
    assert("mac"@.len() == 3 && "metrics"@.len() == 7);
    assert("device_id"@[0] != "signature"@[0]);
    assert("type"@ != "sn"@ && "type"@ != "device_id"@ && "type"@ != "device_id2"@ && "type"@ != "signature"@);
    assert("action"@ != "sn"@ && "action"@ != "device_id"@ && "action"@ != "device_id2"@ && "action"@ != "signature"@);
    assert("cmd"@ != "sn"@ && "cmd"@ != "device_id"@ && "cmd"@ != "device_id2"@ && "cmd"@ != "signature"@);
    assert("mac"@ != "sn"@ && "mac"@ != "device_id"@ && "mac"@ != "device_id2"@ && "mac"@ != "signature"@);
    assert("device_id"@ != "signature"@ && "device_id"@ != "device_id2"@ && "sn"@ != "device_id"@);
    assert("metrics"@ != "type"@ && "metrics"@ != "action"@ && "metrics"@ != "cmd"@ && "metrics"@ != "sn"@);
    assert("metrics"@ != "device_id"@ && "metrics"@ != "device_id2"@ && "metrics"@ != "signature"@ && "metrics"@ != "mac"@);
    let extras = extra_params(pairs_view(q.extra@), id.model@);
    lemma_extra_params_keys(pairs_view(q.extra@), id.model@);
    let head = opt_param("type"@, opt_string(q.media_type)) + opt_param("action"@, opt_string(q.action))
        + opt_param("cmd"@, opt_string(q.cmd)) + replaced_param("sn"@, q.sn is Some, id.serial_number@)
        + replaced_param("device_id"@, q.device_id is Some, id.device_id@) + replaced_param(
        "device_id2"@,
        q.device_id2 is Some,
        id.device_id2@,
    ) + replaced_param("signature"@, q.signature is Some, engine_signature()) + seq![("mac"@, id.mac@)];
    let all = upstream_params_of(q, id);
    assert(all == head + extras);
    if i >= head.len() {
        assert(all[i] == extras[i - head.len()]);
        assert(!handled_param(extras[i - head.len()].0));
        assert(engine_value_of(all[i].0, id) is None);
    } else {
        let p1 = opt_param("type"@, opt_string(q.media_type));
        let p2 = p1 + opt_param("action"@, opt_string(q.action));
        let p3 = p2 + opt_param("cmd"@, opt_string(q.cmd));
        let p4 = p3 + replaced_param("sn"@, q.sn is Some, id.serial_number@);
        let p5 = p4 + replaced_param("device_id"@, q.device_id is Some, id.device_id@);
        let p6 = p5 + replaced_param("device_id2"@, q.device_id2 is Some, id.device_id2@);
        let p7 = p6 + replaced_param("signature"@, q.signature is Some, engine_signature());
        assert(head == p7 + seq![("mac"@, id.mac@)]);
        assert(all[i] == head[i]);
        if i < p1.len() {
            assert(head[i] == p1[i]);
            assert(all[i].0 == "type"@);
        } else if i < p2.len() {
            assert(head[i] == p2[i]);
            assert(all[i].0 == "action"@);
        } else if i < p3.len() {
            assert(head[i] == p3[i]);
            assert(all[i].0 == "cmd"@);
        } else if i < p4.len() {
            assert(head[i] == p4[i]);
            assert(all[i] == ("sn"@, id.serial_number@));
        } else if i < p5.len() {
            assert(head[i] == p5[i]);
            assert(all[i] == ("device_id"@, id.device_id@));
        } else if i < p6.len() {
            assert(head[i] == p6[i]);
            assert(all[i] == ("device_id2"@, id.device_id2@));
        } else if i < p7.len() {
            assert(head[i] == p7[i]);
            assert(all[i] == ("signature"@, engine_signature()));
        } else {
            assert(head[i] == ("mac"@, id.mac@));
        }
    }
}


// ---------------------------------------------------------------------------
// What the box is shown
// ---------------------------------------------------------------------------

/// Every channel the proxy lists itself is one the profile allows, shown under its
/// renamed title, never a `#` separator, with its stream id.
pub proof fn law_listed_channels_are_allowed(m: FilterModel, pid: i32, chs: Seq<Channel>, k: int)
    requires
        0 <= k < listing_of(m, pid, chs).len(),
    ensures
        listing_of(m, pid, chs)[k].3 < chs.len(),
        m.is_channel_allowed(pid, chs[listing_of(m, pid, chs)[k].3 as int].cmd@, chs[listing_of(m, pid, chs)[k].3 as int].genre_id@),
        listing_of(m, pid, chs)[k].1 == m.apply_rename(pid, chs[listing_of(m, pid, chs)[k].3 as int].title@),
        listing_of(m, pid, chs)[k].0 == stream_id_of(chs[listing_of(m, pid, chs)[k].3 as int].cmd@),
        !starts_with(listing_of(m, pid, chs)[k].1, seq!['#']),
    decreases chs.len(),
{
    let prev = listing_of(m, pid, chs.drop_last());
    if k < prev.len() {
        law_listed_channels_are_allowed(m, pid, chs.drop_last(), k);
        assert(listing_of(m, pid, chs)[k] == prev[k]);
        let j = prev[k].3 as int;
        assert(chs.drop_last()[j] == chs[j]);
    }
}

/// Every channel of the portal's `get_all_channels` answer that the box is shown is one
/// the profile allows and no `#` separator.
pub proof fn law_forwarded_channels_are_allowed(m: FilterModel, pid: i32, items: Seq<ChannelItem>, k: int)
    requires
        0 <= k < portal_channels_of(m, pid, items).len(),
    ensures
        portal_channels_of(m, pid, items)[k].0 < items.len(),
        m.is_channel_allowed(
            pid,
            items[portal_channels_of(m, pid, items)[k].0 as int].cmd@,
            items[portal_channels_of(m, pid, items)[k].0 as int].genre_id@,
        ),
        !starts_with(items[portal_channels_of(m, pid, items)[k].0 as int].name@, seq!['#']),
    decreases items.len(),
{
    let prev = portal_channels_of(m, pid, items.drop_last());
    if k < prev.len() {
        law_forwarded_channels_are_allowed(m, pid, items.drop_last(), k);
        assert(portal_channels_of(m, pid, items)[k] == prev[k]);
        let j = prev[k].0 as int;
        assert(items.drop_last()[j] == items[j]);
    }
}

/// Every genre or category the box is shown from the portal's answer is one the profile
/// has not disabled, and never `*`.
pub proof fn law_forwarded_categories_are_enabled(m: FilterModel, pid: i32, items: Seq<CategoryItem>, k: int)
    requires
        0 <= k < portal_categories_of(m, pid, items).len(),
    ensures
        portal_categories_of(m, pid, items)[k].0 < items.len(),
        !m.is_genre_disabled(pid, items[portal_categories_of(m, pid, items)[k].0 as int].id@),
        items[portal_categories_of(m, pid, items)[k].0 as int].id@ != seq!['*'],
    decreases items.len(),
{
    let prev = portal_categories_of(m, pid, items.drop_last());
    if k < prev.len() {
        law_forwarded_categories_are_enabled(m, pid, items.drop_last(), k);
        assert(portal_categories_of(m, pid, items)[k] == prev[k]);
        let j = prev[k].0 as int;
        assert(items.drop_last()[j] == items[j]);
    }
}

/// A page of the channel list never reaches past the list and holds at most 14 items.
pub proof fn law_page_within_list(total: nat, page: nat)
    ensures
        page_bounds_of(total, page).0 <= page_bounds_of(total, page).1 <= total,
        page_bounds_of(total, page).1 - page_bounds_of(total, page).0 <= 14,
{
}

// ---------------------------------------------------------------------------
// Following the portal's redirects
// ---------------------------------------------------------------------------

/// The most redirects followed for one request.
pub const MAX_REDIRECTS: u32 = 200;

/// What one hop of a forwarded request came to.
#[derive(Debug, Clone, PartialEq, Eq)]
pub enum HopEvent {
    /// The portal answered with `status`; `location` is its `Location` header where it
    /// sent one (`None` inside where the header is no text).
    Answered { status: u16, location: Option<Option<String>> },
    /// The request failed before an answer came.
    Failed,
}

/// What the proxy does after a hop.
#[derive(Debug, Clone, PartialEq, Eq)]
pub enum HopAction {
    /// Ask the given address next.
    Follow(String),
    /// Answer the box with this answer.
    Deliver,
    /// Wait half a second and ask the same address again.
    RetryAfterPause,
    /// Answer the box with 502.
    GiveUp,
}

/// Whether a status is a redirection (3xx).
pub open spec fn is_redirect_status(status: u16) -> bool {
    300 <= status <= 399
}

/// The decision after hop `hop` (counted from 0) at `url`: a redirection is followed
/// (the location resolved against the address) while fewer than `MAX_REDIRECTS` hops
/// were made, and one whose location is no text gives up; any other answer, or a
/// redirection without a location or past the limit, is delivered; a failure is retried
/// after a pause while hops are left, else given up.
pub open spec fn next_hop_of(hop: u32, url: Seq<char>, event: HopEvent, r: HopAction) -> bool {
    match event {
        HopEvent::Answered { status, location } => if is_redirect_status(status) && hop < MAX_REDIRECTS {
            match location {
                Some(Some(d)) => r matches HopAction::Follow(next) && next@ == crate::address::redirect_target_of(url, d@),
                Some(None) => r is GiveUp,
                None => r is Deliver,
            }
        } else {
            r is Deliver
        },
        HopEvent::Failed => if hop < MAX_REDIRECTS {
            r is RetryAfterPause
        } else {
            r is GiveUp
        },
    }
}

/// The step of the redirect loop of a forwarded request (see `next_hop_of`).
pub fn next_hop(hop: u32, url: &str, event: &HopEvent) -> (r: HopAction)
    ensures
        next_hop_of(hop, url@, *event, r),
{
    match event {
        HopEvent::Answered { status, location } => {
            if 300 <= *status && *status <= 399 && hop < MAX_REDIRECTS {
                match location {
                    Some(Some(d)) => HopAction::Follow(crate::address::redirect_target(url, d.as_str())),
                    Some(None) => HopAction::GiveUp,
                    None => HopAction::Deliver,
                }
            } else {
                HopAction::Deliver
            }
        },
        HopEvent::Failed => if hop < MAX_REDIRECTS {
            HopAction::RetryAfterPause
        } else {
            HopAction::GiveUp
        },
    }
}

/// Whether a delivered answer makes the proxy fetch the channels again and retry: a 458
/// (the portal's ban) to a `create_link`.
pub fn refresh_after_answer(status: u16, action: Option<&str>) -> (r: bool)
    ensures
        r == (status == 458 && opt_str(action) == Some("create_link"@)),
{
    status == 458 && opt_is(action, "create_link")
}

/// A forwarded request makes at most `MAX_REDIRECTS` + 1 hops: after the last one
/// every event ends the loop.
pub proof fn law_redirects_end(url: Seq<char>, event: HopEvent, r: HopAction)
    requires
        next_hop_of(MAX_REDIRECTS, url, event, r),
    ensures
        r is Deliver || r is GiveUp,
{
}

} // verus!
