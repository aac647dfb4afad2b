//! The headers of a MAG set-top box and the scrubbing of its `metrics` parameter.
use vstd::prelude::*;
use crate::text::{chars_of, string_from_chars, push_str, str_eq};
use crate::proxy::pairs_view;
use crate::dns::{get_random_european_identity, is_block_identity};

verus! {

/// A header list by its characters.
pub open spec fn headers_view(v: Seq<(String, String)>) -> Seq<(Seq<char>, Seq<char>)> {
    pairs_view(v)
}

/// The headers a MAG254 sends, in its order: user agents, the bearer token, the cookie
/// with serial, MAC and time zone, the accept headers, and the European address in each
/// forwarding header.
pub open spec fn mag_headers_of(
    token: Seq<char>,
    serial_number: Seq<char>,
    mac: Seq<char>,
    model: Seq<char>,
    eur_ip: Seq<char>,
    eur_tz: Seq<char>,
) -> Seq<(Seq<char>, Seq<char>)> {
    seq![
        ("User-Agent"@, "Mozilla/5.0 (QtEmbedded; U; Linux; C) AppleWebKit/533.3 (KHTML, like Gecko) "@ + model
            + " stbapp ver: 4 rev: 2034 Mobile Safari/533.3"@),
        ("X-User-Agent"@, "Model: "@ + model + "; Link: Ethernet"@),
        ("Authorization"@, "Bearer "@ + token),
        ("Cookie"@, "PHPSESSID=null; sn="@ + serial_number + "; mac="@ + mac + "; stb_lang=en; timezone="@
            + eur_tz + ";"@),
        ("Accept"@, "*/*"@),
        ("Accept-Language"@, "en-US,en;q=0.9"@),
        ("Cache-Control"@, "no-cache"@),
        ("Pragma"@, "no-cache"@),
        ("X-Forwarded-For"@, eur_ip),
        ("X-Real-IP"@, eur_ip),
        ("CF-Connecting-IP"@, eur_ip),
        ("True-Client-IP"@, eur_ip),
        ("X-Originating-IP"@, eur_ip),
        ("Connection"@, "keep-alive"@),
    ]
}

/// The MAG254 headers for the given identity and European address.
pub fn mag_headers(token: &str, serial_number: &str, mac: &str, model: &str, eur_ip: &str, eur_tz: &str) -> (r: Vec<(String, String)>)
    ensures
        headers_view(r@) == mag_headers_of(token@, serial_number@, mac@, model@, eur_ip@, eur_tz@),
{
    let mut ua = chars_of("Mozilla/5.0 (QtEmbedded; U; Linux; C) AppleWebKit/533.3 (KHTML, like Gecko) ");
    push_str(&mut ua, model);
    push_str(&mut ua, " stbapp ver: 4 rev: 2034 Mobile Safari/533.3");
    let mut xua = chars_of("Model: ");
    push_str(&mut xua, model);
    push_str(&mut xua, "; Link: Ethernet");
    let mut auth = chars_of("Bearer ");
    push_str(&mut auth, token);
    let mut cookie = chars_of("PHPSESSID=null; sn=");
    push_str(&mut cookie, serial_number);
    push_str(&mut cookie, "; mac=");
    push_str(&mut cookie, mac);
    push_str(&mut cookie, "; stb_lang=en; timezone=");
    push_str(&mut cookie, eur_tz);
    push_str(&mut cookie, ";");
    let r = vec![
        (string_from_chars(chars_of("User-Agent")), string_from_chars(ua)),
        (string_from_chars(chars_of("X-User-Agent")), string_from_chars(xua)),
        (string_from_chars(chars_of("Authorization")), string_from_chars(auth)),
        (string_from_chars(chars_of("Cookie")), string_from_chars(cookie)),
        (string_from_chars(chars_of("Accept")), string_from_chars(chars_of("*/*"))),
        (string_from_chars(chars_of("Accept-Language")), string_from_chars(chars_of("en-US,en;q=0.9"))),
        (string_from_chars(chars_of("Cache-Control")), string_from_chars(chars_of("no-cache"))),
        (string_from_chars(chars_of("Pragma")), string_from_chars(chars_of("no-cache"))),
        (string_from_chars(chars_of("X-Forwarded-For")), string_from_chars(chars_of(eur_ip))),
        (string_from_chars(chars_of("X-Real-IP")), string_from_chars(chars_of(eur_ip))),
        (string_from_chars(chars_of("CF-Connecting-IP")), string_from_chars(chars_of(eur_ip))),
        (string_from_chars(chars_of("True-Client-IP")), string_from_chars(chars_of(eur_ip))),
        (string_from_chars(chars_of("X-Originating-IP")), string_from_chars(chars_of(eur_ip))),
        (string_from_chars(chars_of("Connection")), string_from_chars(chars_of("keep-alive"))),
    ];
    assert(headers_view(r@) =~= mag_headers_of(token@, serial_number@, mac@, model@, eur_ip@, eur_tz@));
    r
}

/// The MAG254 headers with a random European address and its time zone (the headers
/// `apply_mag_headers` puts on a request).
pub fn apply_mag_headers(token: &str, serial_number: &str, mac: &str, model: &str) -> (r: Vec<(String, String)>)
    ensures
        exists|k: int, ip: Seq<char>, tz: Seq<char>|
            #[trigger] is_block_identity(k, ip, tz) && headers_view(r@) == mag_headers_of(
                token@,
                serial_number@,
                mac@,
                model@,
                ip,
                tz,
            ),
{
    let (ip, tz) = get_random_european_identity();
    let r = mag_headers(token, serial_number, mac, model, ip.as_str(), tz.as_str());
    proof {
        let k = choose|k: int| #[trigger] is_block_identity(k, ip@, tz@);
        assert(is_block_identity(k, ip@, tz@));
    }
    r
}

// ---------------------------------------------------------------------------
// The metrics parameter
// ---------------------------------------------------------------------------

/// What `serde_json` makes of the JSON text `text` after setting the string entries
/// `entries` (in order) in it: `None` where the text is no JSON object.
pub uninterp spec fn json_object_with(text: Seq<char>, entries: Seq<(Seq<char>, Seq<char>)>) -> Option<Seq<char>>;

/// Calls `serde_json::from_str::<serde_json::Value>` on `text`; where that gives an
/// object, inserts each entry as a JSON string with `Map::insert` and serializes the
/// object with `serde_json::to_string`. The contract names the result.
#[verifier::external_body]
pub(crate) fn json_object_set(text: &str, entries: &Vec<(String, String)>) -> (r: Option<String>)
    ensures
        opt_str_view(r) == json_object_with(text@, pairs_view(entries@)),
{
    match serde_json::from_str::<serde_json::Value>(text) {
        Ok(mut json) => match json.as_object_mut() {
            Some(obj) => {
                for (k, v) in entries {
                    obj.insert(k.clone(), serde_json::Value::String(v.clone()));
                }
                serde_json::to_string(&json).ok()
            },
            None => None,
        },
        Err(_) => None,
    }
}

pub open spec fn opt_str_view(o: Option<String>) -> Option<Seq<char>> {
    match o {
        Some(s) => Some(s@),
        None => None,
    }
}

/// The identity entries written into a `metrics` object.
pub open spec fn metrics_entries(serial: Seq<char>, mac: Seq<char>) -> Seq<(Seq<char>, Seq<char>)> {
    seq![("mac"@, mac), ("sn"@, serial), ("ver"@, "Image_0.2.18-r14-254"@)]
}

/// A parameter after scrubbing: a `metrics` value that is a JSON object gets the
/// engine's MAC, serial and firmware version; anything else stays as it is.
pub open spec fn scrubbed_param(p: (Seq<char>, Seq<char>), serial: Seq<char>, mac: Seq<char>) -> (Seq<char>, Seq<char>) {
    if p.0 == "metrics"@ {
        match json_object_with(p.1, metrics_entries(serial, mac)) {
            Some(t) => (p.0, t),
            None => p,
        }
    } else {
        p
    }
}

/// Replaces the identity hidden in the `metrics` parameter with the engine's.
pub fn scrub_metrics(query_params: &mut Vec<(String, String)>, serial: &str, mac: &str)
    ensures
        pairs_view(final(query_params)@) == pairs_view(old(query_params)@).map_values(
            |p: (Seq<char>, Seq<char>)| scrubbed_param(p, serial@, mac@),
        ),
{
    let entries = vec![
        (string_from_chars(chars_of("mac")), string_from_chars(chars_of(mac))),
        (string_from_chars(chars_of("sn")), string_from_chars(chars_of(serial))),
        (string_from_chars(chars_of("ver")), string_from_chars(chars_of("Image_0.2.18-r14-254"))),
    ];
    assert(pairs_view(entries@) =~= metrics_entries(serial@, mac@));
    let ghost orig = pairs_view(query_params@);
    let n = query_params.len();
    let mut i: usize = 0;
    while i < n
        invariant
            i <= n,
            n == query_params@.len(),
            orig.len() == n,
            pairs_view(entries@) == metrics_entries(serial@, mac@),
            forall|j: int| 0 <= j < i ==> #[trigger] pairs_view(query_params@)[j] == scrubbed_param(orig[j], serial@, mac@),
            forall|j: int| i <= j < n ==> #[trigger] pairs_view(query_params@)[j] == orig[j],
        decreases n - i,
    {
        assert(pairs_view(query_params@)[i as int] == (query_params@[i as int].0@, query_params@[i as int].1@));
        if str_eq(query_params[i].0.as_str(), "metrics") {
            match json_object_set(query_params[i].1.as_str(), &entries) {
                Some(t) => {
                    let k = query_params[i].0.clone();
                    let ghost before = pairs_view(query_params@);
                    query_params.set(i, (k, t));
                    assert forall|j: int| 0 <= j < n && j != i implies #[trigger] pairs_view(query_params@)[j] == before[j] by {
                        assert(pairs_view(query_params@)[j] == (query_params@[j].0@, query_params@[j].1@));
                    }
                    assert(pairs_view(query_params@)[i as int] == (query_params@[i as int].0@, query_params@[i as int].1@));
                },
                None => {},
            }
        }
        i += 1;
    }
    assert(pairs_view(query_params@) =~= orig.map_values(|p: (Seq<char>, Seq<char>)| scrubbed_param(p, serial@, mac@)));
}

} // verus!
