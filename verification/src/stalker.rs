//! Portal data: channels, device fingerprints and the values derived from a portal
//! identity.
use vstd::prelude::*;
use vstd::string::StrSliceExecFns;
use vstd::utf8::{encode_utf8, valid_utf8, decode_utf8};
use crate::text::{
    chars_of, string_from_chars, starts_with, starts_with_vec, str_eq, trim_end_char,
    trim_end_char_vec, rfind_char, rfind_char_vec, slice_vec, push_str, push_chars, push_decimal,
    decimal,
};
use crate::encoding::{percent_encode, url_encode, utf8_lossy, string_from_utf8_lossy};
use crate::dns::{random_range, IdentityCache, clear_sticky_identity};
use crate::address::{api_url_of, host_of, url_host, api_url, parse_url, parsed_url, host_or_empty_of};

verus! {

/// A live channel as the portal lists it.
#[derive(Debug, Clone)]
pub struct Channel {
    pub title: String,
    pub cmd: String,
    pub logo: String,
    pub genre_id: String,
    pub genre: String,
    pub cmd_id: String,
    pub cmd_ch_id: String,
}

/// The stream address in a channel command: the command without a leading `ffmpeg `.
pub open spec fn stream_url_of(cmd: Seq<char>) -> Seq<char> {
    if starts_with(cmd, "ffmpeg "@) {
        cmd.subrange(7, cmd.len() as int)
    } else {
        cmd
    }
}

impl Channel {
    /// The stream address: the command without a leading `ffmpeg `.
    pub fn stream_url(&self) -> (r: &str)
        ensures
            r@ == stream_url_of(self.cmd@),
    {
        let c = chars_of(self.cmd.as_str());
        let p = chars_of("ffmpeg ");
        proof {
            reveal_strlit("ffmpeg ");
        }
        if starts_with_vec(&c, &p) {
            let n = self.cmd.as_str().unicode_len();
            self.cmd.as_str().substring_char(7, n)
        } else {
            self.cmd.as_str()
        }
    }
}

/// Model-specific values that make up a device's User-Agent.
#[derive(Debug, Clone)]
pub struct ModelFingerprint {
    pub webkit_ver: &'static str,
    pub safari_ver: &'static str,
    pub stbapp_major: u32,
    pub rev_base: u32,
    pub rev_range: u32,
}

/// The fingerprint of a set-top-box model, as (WebKit version, Safari version,
/// stbapp major version, revision base, revision range); other models get the MAG254
/// values.
pub open spec fn fingerprint_of(model: Seq<char>) -> (Seq<char>, Seq<char>, u32, u32, u32) {
    if model == "MAG250"@ {
        ("533.3"@, "533.3"@, 2, 380, 20)
    } else if model == "MAG256"@ {
        ("537.21"@, "537.21"@, 4, 180, 30)
    } else if model == "MAG322"@ {
        ("602.1"@, "602.1"@, 4, 120, 25)
    } else if model == "MAG424"@ {
        ("605.1"@, "605.1"@, 4, 85, 20)
    } else {
        ("533.3"@, "533.3"@, 4, 230, 30)
    }
}

pub open spec fn fingerprint_matches(f: ModelFingerprint, model: Seq<char>) -> bool {
    let e = fingerprint_of(model);
    f.webkit_ver@ == e.0 && f.safari_ver@ == e.1 && f.stbapp_major == e.2 && f.rev_base == e.3
        && f.rev_range == e.4
}

/// The fingerprint of a set-top-box model.
pub fn model_fingerprint(model: &str) -> (r: ModelFingerprint)
    ensures
        fingerprint_matches(r, model@),
{
    if str_eq(model, "MAG250") {
        ModelFingerprint { webkit_ver: "533.3", safari_ver: "533.3", stbapp_major: 2, rev_base: 380, rev_range: 20 }
    } else if str_eq(model, "MAG256") {
        ModelFingerprint { webkit_ver: "537.21", safari_ver: "537.21", stbapp_major: 4, rev_base: 180, rev_range: 30 }
    } else if str_eq(model, "MAG322") {
        ModelFingerprint { webkit_ver: "602.1", safari_ver: "602.1", stbapp_major: 4, rev_base: 120, rev_range: 25 }
    } else if str_eq(model, "MAG424") {
        ModelFingerprint { webkit_ver: "605.1", safari_ver: "605.1", stbapp_major: 4, rev_base: 85, rev_range: 20 }
    } else {
        ModelFingerprint { webkit_ver: "533.3", safari_ver: "533.3", stbapp_major: 4, rev_base: 230, rev_range: 30 }
    }
}

/// Percent-encoding of a value for a portal request (a space becomes `%20`).
pub fn urlencoding(s: &str) -> (r: String)
    ensures
        r@ == percent_encode(encode_utf8(s@)),
{
    url_encode(s)
}

/// Where a portal keeps a channel logo: an absolute `http` path stays as it is, any
/// other path goes under `misc/logos/320/` of the portal's directory; an empty path
/// gives the empty string.
pub open spec fn logo_url_of(base_url: Seq<char>, logo_path: Seq<char>) -> Seq<char> {
    if logo_path.len() == 0 {
        Seq::empty()
    } else if starts_with(logo_path, "http"@) {
        logo_path
    } else {
        let base = trim_end_char(base_url, '/');
        match rfind_char(base, '/') {
            Some(pos) => base.subrange(0, pos + 1) + "misc/logos/320/"@ + logo_path,
            None => base + "/misc/logos/320/"@ + logo_path,
        }
    }
}

/// The address of a channel logo on the portal at `base_url`.
pub fn logo_url(base_url: &str, logo_path: &str) -> (r: String)
    ensures
        r@ == logo_url_of(base_url@, logo_path@),
{
    let lp = chars_of(logo_path);
    if lp.len() == 0 {
        return string_from_chars(Vec::new());
    }
    let http = chars_of("http");
    if starts_with_vec(&lp, &http) {
        return string_from_chars(lp);
    }
    let b = chars_of(base_url);
    let base = trim_end_char_vec(&b, '/');
    proof {
        crate::text::lemma_rfind_char_props(base@, '/');
    }
    let mut out = match rfind_char_vec(&base, '/') {
        Some(pos) => {
            assert(pos < base.len());
            let mut o = slice_vec(&base, 0, pos + 1);
            push_str(&mut o, "misc/logos/320/");
            o
        },
        None => {
            let mut o = base.clone();
            push_str(&mut o, "/misc/logos/320/");
            o
        },
    };
    push_chars(&mut out, &lp);
    string_from_chars(out)
}

/// One programme of a channel's guide.
#[derive(Debug, Clone)]
pub struct EpgEntry {
    pub channel_id: String,
    pub title: String,
    pub description: String,
    pub start: i64,
    pub stop: i64,
}


// ---------------------------------------------------------------------------
// The MAC address
// ---------------------------------------------------------------------------

/// Whether a character is an ASCII hexadecimal digit.
pub open spec fn is_hex_char(c: char) -> bool {
    ('0' <= c && c <= '9') || ('a' <= c && c <= 'f') || ('A' <= c && c <= 'F')
}

/// A character in upper case (ASCII letters only).
pub open spec fn upper_char(c: char) -> char {
    if 'a' <= c && c <= 'z' {
        ((c as u32) - 32) as char
    } else {
        c
    }
}

/// The hexadecimal digits of `s`, in upper case.
pub open spec fn clean_hex(s: Seq<char>) -> Seq<char>
    decreases s.len(),
{
    if s.len() == 0 {
        Seq::empty()
    } else if is_hex_char(s.last()) {
        clean_hex(s.drop_last()).push(upper_char(s.last()))
    } else {
        clean_hex(s.drop_last())
    }
}

/// `s` with a `:` before every character at an even position but the first.
pub open spec fn colon_pairs(s: Seq<char>) -> Seq<char>
    decreases s.len(),
{
    if s.len() == 0 {
        Seq::empty()
    } else {
        let i = s.len() - 1;
        colon_pairs(s.drop_last()) + (if i > 0 && i % 2 == 0 {
            seq![':']
        } else {
            Seq::empty()
        }) + seq![s.last()]
    }
}

/// The OUI prefixes Infomir uses on MAG hardware.
pub open spec fn infomir_ouis() -> Seq<Seq<char>> {
    seq!["001A79"@, "001E5F"@, "080028"@, "C82E46"@]
}

/// A MAC address made valid: twelve hexadecimal digits stay as they are; otherwise the
/// OUI `infomir_ouis()[k]` and the last six digits (or `ABCDEF` where there are fewer);
/// then written in pairs separated by colons.
pub open spec fn repaired_mac_of(mac: Seq<char>, k: int) -> Seq<char> {
    let c = clean_hex(mac);
    let full = if c.len() == 12 {
        c
    } else {
        infomir_ouis()[k] + if c.len() >= 6 {
            c.subrange(c.len() - 6, c.len() as int)
        } else {
            "ABCDEF"@
        }
    };
    colon_pairs(full)
}

/// Whether a character is a decimal digit or an upper-case letter from `A` to `F`.
pub open spec fn is_upper_hex(c: char) -> bool {
    ('0' <= c && c <= '9') || ('A' <= c && c <= 'F')
}

/// Whether `s` is a MAC address in the form the portal expects: six pairs of
/// upper-case hexadecimal digits separated by colons.
pub open spec fn is_mac_form(s: Seq<char>) -> bool {
    s.len() == 17 && forall|j: int| 0 <= j < 17 ==> if j % 3 == 2 {
        #[trigger] s[j] == ':'
    } else {
        is_upper_hex(s[j])
    }
}

proof fn lemma_clean_hex_upper(s: Seq<char>)
    ensures
        forall|i: int| 0 <= i < clean_hex(s).len() ==> is_upper_hex(#[trigger] clean_hex(s)[i]),
    decreases s.len(),
{
    if s.len() > 0 {
        lemma_clean_hex_upper(s.drop_last());
        let c = s.last();
        if is_hex_char(c) {
            let u = upper_char(c);
            if 'a' <= c && c <= 'z' {
                assert('a' <= c && c <= 'f');
                assert(65 <= (c as u32) - 32 <= 70);
            }
            assert(is_upper_hex(u));
            let cs = clean_hex(s);
            let cp = clean_hex(s.drop_last());
            assert(cs == cp.push(u));
            assert forall|i: int| 0 <= i < cs.len() implies is_upper_hex(#[trigger] cs[i]) by {
                if i < cp.len() {
                    assert(cs[i] == cp[i]);
                }
            }
        } else {
            assert(clean_hex(s) == clean_hex(s.drop_last()));
        }
    }
}

proof fn lemma_colon_pairs_index(s: Seq<char>)
    ensures
        colon_pairs(s).len() == (if s.len() == 0 {
            0
        } else {
            s.len() + (s.len() - 1) / 2
        }),
        forall|j: int| 0 <= j < colon_pairs(s).len() ==> #[trigger] colon_pairs(s)[j] == (if j % 3 == 2 {
            ':'
        } else {
            s[j - j / 3]
        }),
    decreases s.len(),
{
    if s.len() > 0 {
        let prev = s.drop_last();
        lemma_colon_pairs_index(prev);
        let n = s.len() as int;
        let i = n - 1;
        let cp = colon_pairs(s);
        let pc = colon_pairs(prev);
        assert forall|j: int| 0 <= j < cp.len() implies #[trigger] cp[j] == (if j % 3 == 2 {
            ':'
        } else {
            s[j - j / 3]
        }) by {
            if j < pc.len() {
                assert(cp[j] == pc[j]);
                if j % 3 != 2 {
                    assert(j - j / 3 < i);
                    assert(prev[j - j / 3] == s[j - j / 3]);
                }
            } else if i > 0 && i % 2 == 0 {
                let t = i / 2;
                assert(pc.len() == 3 * t - 1);
                if j == pc.len() {
                    assert(cp[j] == ':');
                } else {
                    assert(j == 3 * t);
                    assert(cp[j] == s.last());
                }
            } else {
                if i > 0 {
                    let t = (i - 1) / 2;
                    assert(pc.len() == 3 * t + 1);
                    assert(j == 3 * t + 1);
                }
                assert(cp[j] == s.last());
            }
        }
    }
}

proof fn lemma_clean_hex_of_mac_prefix(s: Seq<char>)
    requires
        s.len() <= 17,
        forall|j: int| 0 <= j < s.len() ==> if j % 3 == 2 {
            #[trigger] s[j] == ':'
        } else {
            is_upper_hex(s[j])
        },
    ensures
        clean_hex(s).len() == s.len() - s.len() / 3,
        forall|i: int| 0 <= i < clean_hex(s).len() ==> #[trigger] clean_hex(s)[i] == s[i + i / 2],
    decreases s.len(),
{
    if s.len() > 0 {
        let prev = s.drop_last();
        assert forall|j: int| 0 <= j < prev.len() implies if j % 3 == 2 {
            #[trigger] prev[j] == ':'
        } else {
            is_upper_hex(prev[j])
        } by {
            assert(prev[j] == s[j]);
        }
        lemma_clean_hex_of_mac_prefix(prev);
        let n = s.len() as int;
        let i = n - 1;
        let c = s.last();
        assert(c == s[i]);
        let ch = clean_hex(s);
        let cp = clean_hex(prev);
        if i % 3 == 2 {
            assert(!is_hex_char(c));
            assert(ch == cp);
            assert forall|k: int| 0 <= k < ch.len() implies #[trigger] ch[k] == s[k + k / 2] by {
                assert(k + k / 2 < i);
                assert(prev[k + k / 2] == s[k + k / 2]);
            }
        } else {
            assert(is_hex_char(c));
            assert(upper_char(c) == c);
            assert(ch == cp.push(c));
            assert forall|k: int| 0 <= k < ch.len() implies #[trigger] ch[k] == s[k + k / 2] by {
                if k < cp.len() {
                    assert(k + k / 2 < i);
                    assert(prev[k + k / 2] == s[k + k / 2]);
                } else {
                    assert(k == i - i / 3);
                    assert(k + k / 2 == i);
                }
            }
        }
    }
}

/// Repairing a MAC address always gives one in the portal's form, whatever it was given
/// and whichever OUI was chosen.
pub proof fn law_repaired_mac_is_well_formed(mac: Seq<char>, k: int)
    requires
        0 <= k < 4,
    ensures
        is_mac_form(repaired_mac_of(mac, k)),
{
    let c = clean_hex(mac);
    lemma_clean_hex_upper(mac);
    reveal_strlit("001A79");
    reveal_strlit("001E5F");
    reveal_strlit("080028");
    reveal_strlit("C82E46");
    reveal_strlit("ABCDEF");
    let oui = infomir_ouis()[k];
    let tail = if c.len() >= 6 {
        c.subrange(c.len() - 6, c.len() as int)
    } else {
        "ABCDEF"@
    };
    let full = if c.len() == 12 {
        c
    } else {
        oui + tail
    };
    assert(oui.len() == 6 && forall|i: int| 0 <= i < 6 ==> is_upper_hex(#[trigger] oui[i]));
    assert(tail.len() == 6 && forall|i: int| 0 <= i < 6 ==> is_upper_hex(#[trigger] tail[i])) by {
        if c.len() >= 6 {
            assert forall|i: int| 0 <= i < 6 implies is_upper_hex(#[trigger] tail[i]) by {
                assert(tail[i] == c[c.len() - 6 + i]);
            }
        }
    }
    assert(full.len() == 12 && forall|i: int| 0 <= i < 12 ==> is_upper_hex(#[trigger] full[i])) by {
        if c.len() != 12 {
            assert forall|i: int| 0 <= i < 12 implies is_upper_hex(#[trigger] full[i]) by {
                if i < 6 {
                    assert(full[i] == oui[i]);
                } else {
                    assert(full[i] == tail[i - 6]);
                }
            }
        }
    }
    lemma_colon_pairs_index(full);
    let r = colon_pairs(full);
    assert(r == repaired_mac_of(mac, k));
    assert forall|j: int| 0 <= j < 17 implies if j % 3 == 2 {
        #[trigger] r[j] == ':'
    } else {
        is_upper_hex(r[j])
    } by {
        if j % 3 != 2 {
            assert(0 <= j - j / 3 < 12);
            assert(is_upper_hex(full[j - j / 3]));
        }
    }
}

/// A MAC address already in the portal's form is kept as it is.
pub proof fn law_well_formed_mac_is_kept(mac: Seq<char>, k: int)
    requires
        is_mac_form(mac),
    ensures
        repaired_mac_of(mac, k) == mac,
{
    lemma_clean_hex_of_mac_prefix(mac);
    let c = clean_hex(mac);
    assert(c.len() == 12);
    lemma_colon_pairs_index(c);
    let r = colon_pairs(c);
    assert(r.len() == 17);
    assert forall|j: int| 0 <= j < 17 implies #[trigger] r[j] == mac[j] by {
        if j % 3 != 2 {
            let i = j - j / 3;
            assert(i + i / 2 == j);
            assert(c[i] == mac[i + i / 2]);
        } else {
            assert(mac[j] == ':');
        }
    }
    assert(r =~= mac);
}

fn clean_hex_vec(s: &Vec<char>) -> (r: Vec<char>)
    ensures
        r@ == clean_hex(s@),
{
    let mut out: Vec<char> = Vec::new();
    let mut i: usize = 0;
    while i < s.len()
        invariant
            i <= s.len(),
            out@ == clean_hex(s@.subrange(0, i as int)),
        decreases s.len() - i,
    {
        let ghost after = s@.subrange(0, i + 1);
        assert(after.drop_last() =~= s@.subrange(0, i as int));
        let c = s[i];
        if ('0' <= c && c <= '9') || ('a' <= c && c <= 'f') || ('A' <= c && c <= 'F') {
            let u = if 'a' <= c && c <= 'f' {
                crate::text::char_from_ascii((c as u32) - 32)
            } else {
                c
            };
            out.push(u);
        }
        i += 1;
    }
    assert(s@.subrange(0, s@.len() as int) =~= s@);
    out
}

fn colon_pairs_vec(s: &Vec<char>) -> (r: Vec<char>)
    ensures
        r@ == colon_pairs(s@),
{
    let mut out: Vec<char> = Vec::new();
    let mut i: usize = 0;
    while i < s.len()
        invariant
            i <= s.len(),
            out@ == colon_pairs(s@.subrange(0, i as int)),
        decreases s.len() - i,
    {
        let ghost after = s@.subrange(0, i + 1);
        assert(after.drop_last() =~= s@.subrange(0, i as int));
        if i > 0 && i % 2 == 0 {
            out.push(':');
        }
        out.push(s[i]);
        assert(out@ =~= colon_pairs(after));
        i += 1;
    }
    assert(s@.subrange(0, s@.len() as int) =~= s@);
    out
}

/// The MAC address made valid with the OUI `infomir_ouis()[k]` where one is needed.
pub fn repaired_mac(mac: &str, k: usize) -> (r: String)
    requires
        k < 4,
    ensures
        r@ == repaired_mac_of(mac@, k as int),
{
    let c = clean_hex_vec(&chars_of(mac));
    let full = if c.len() == 12 {
        c
    } else {
        let ouis: Vec<&str> = vec!["001A79", "001E5F", "080028", "C82E46"];
        assert(ouis@.map_values(|o: &str| o@) =~= infomir_ouis());
        assert(ouis@[k as int]@ == infomir_ouis()[k as int]);
        let mut f = chars_of(ouis[k]);
        if c.len() >= 6 {
            let tail = slice_vec(&c, c.len() - 6, c.len());
            push_chars(&mut f, &tail);
        } else {
            push_str(&mut f, "ABCDEF");
        }
        f
    };
    string_from_chars(colon_pairs_vec(&full))
}

impl PortalClient {
    /// The MAC address made valid (see `repaired_mac_of`); where an OUI is needed, one
    /// of Infomir's is chosen at random.
    pub fn repair_mac(mac: &str) -> (r: String)
        ensures
            exists|k: int| 0 <= k < 4 && r@ == #[trigger] repaired_mac_of(mac@, k),
    {
        let k = random_range(0, 4) as usize;
        let r = repaired_mac(mac, k);
        assert(r@ == repaired_mac_of(mac@, k as int));
        r
    }
}

// ---------------------------------------------------------------------------
// The portal identity
// ---------------------------------------------------------------------------

/// What the engine knows of its account on a portal: the address, the credentials and
/// the device identity it presents, and the session token.
#[derive(Debug, Clone)]
pub struct PortalClient {
    pub base_url: String,
    pub mac: String,
    pub username: String,
    pub password: String,
    pub serial_number: String,
    pub device_id: String,
    pub device_id2: String,
    pub signature: String,
    pub model: String,
    pub timezone: String,
    pub token: String,
    pub device_id_auth: bool,
    pub incarnation: u32,
}

/// The identity branch appended to serial number and device ids.
pub open spec fn branched(id: Seq<char>) -> Seq<char> {
    if id.len() > 0 {
        id + seq!['B']
    } else {
        id
    }
}

fn branch_id(id: &str) -> (r: String)
    ensures
        r@ == branched(id@),
{
    let mut v = chars_of(id);
    if v.len() > 0 {
        v.push('B');
    }
    string_from_chars(v)
}

/// What a `DefaultHasher` made by `DefaultHasher::new` gives for a `String` fed to it
/// with `Hash::hash`: std documents that every hasher made by `new` is the same, so the
/// value depends on the text alone.
pub uninterp spec fn default_hash_of(s: Seq<char>) -> u64;

/// Calls `std::hash::Hasher::finish` on a `std::collections::hash_map::DefaultHasher`
/// made by `DefaultHasher::new` and fed the serial number with `Hash::hash`. The
/// contract names the value.
#[verifier::external_body]
fn serial_seed(serial: &String) -> (r: u64)
    ensures
        r == default_hash_of(serial@),
{
    let mut h = std::collections::hash_map::DefaultHasher::new();
    std::hash::Hash::hash(serial, &mut h);
    std::hash::Hasher::finish(&h)
}

/// The firmware revision of an account: 2000 plus its serial number's hash modulo 200.
pub open spec fn serial_revision(serial: Seq<char>) -> nat {
    (2000 + default_hash_of(serial) % 200) as nat
}

/// The User-Agent of a box of the given model and firmware revision.
pub open spec fn user_agent_of(model: Seq<char>, rev: nat) -> Seq<char> {
    let fp = fingerprint_of(model);
    "Mozilla/5.0 (QtEmbedded; U; Linux; C) AppleWebKit/"@ + fp.0 + " (KHTML, like Gecko) "@ + model
        + " stbapp ver: "@ + decimal(fp.2 as nat) + " rev: "@ + decimal(rev) + " Mobile Safari/"@ + fp.1
}

pub fn user_agent(model: &str, rev: u64) -> (r: String)
    ensures
        r@ == user_agent_of(model@, rev as nat),
{
    let fp = model_fingerprint(model);
    let mut out = chars_of("Mozilla/5.0 (QtEmbedded; U; Linux; C) AppleWebKit/");
    push_str(&mut out, fp.webkit_ver);
    push_str(&mut out, " (KHTML, like Gecko) ");
    push_str(&mut out, model);
    push_str(&mut out, " stbapp ver: ");
    push_decimal(&mut out, fp.stbapp_major as u64);
    push_str(&mut out, " rev: ");
    push_decimal(&mut out, rev);
    push_str(&mut out, " Mobile Safari/");
    push_str(&mut out, fp.safari_ver);
    string_from_chars(out)
}

/// The User-Agent the client of an account is built with: its model and the firmware
/// revision derived from its serial number (see `serial_revision`), so one account
/// keeps one User-Agent.
pub fn client_user_agent(model: &str, serial_number: &String) -> (r: String)
    ensures
        r@ == user_agent_of(model@, serial_revision(serial_number@)),
{
    let seed = serial_seed(serial_number);
    let rev = 2000 + seed % 200;
    let r = user_agent(model, rev);
    assert(r@ == user_agent_of(model@, rev as nat));
    r
}

impl PortalClient {
    /// A new account: the MAC made valid, the serial number and device ids branched
    /// (`B` appended to those that are set), no token yet.
    pub fn new(
        base_url: String,
        mac: String,
        username: String,
        password: String,
        serial_number: String,
        device_id: String,
        device_id2: String,
        signature: String,
        model: String,
        timezone: String,
        device_id_auth: bool,
    ) -> (r: PortalClient)
        ensures
            exists|k: int| 0 <= k < 4 && r.mac@ == #[trigger] repaired_mac_of(mac@, k),
            r.base_url@ == base_url@,
            r.username@ == username@,
            r.password@ == password@,
            r.serial_number@ == branched(serial_number@),
            r.device_id@ == branched(device_id@),
            r.device_id2@ == branched(device_id2@),
            r.signature@ == signature@,
            r.model@ == model@,
            r.timezone@ == timezone@,
            r.token@ == Seq::<char>::empty(),
            r.device_id_auth == device_id_auth,
            r.incarnation == 0,
    {
        let mac = PortalClient::repair_mac(mac.as_str());
        let serial_number = branch_id(serial_number.as_str());
        let device_id = branch_id(device_id.as_str());
        let device_id2 = branch_id(device_id2.as_str());
        PortalClient {
            base_url,
            mac,
            username,
            password,
            serial_number,
            device_id,
            device_id2,
            signature,
            model,
            timezone,
            token: string_from_chars(Vec::new()),
            device_id_auth,
            incarnation: 0,
        }
    }

    /// The portal's API address (see `address::api_url_of`).
    pub fn api_url(&self) -> (r: String)
        ensures
            r@ == api_url_of(self.base_url@),
    {
        api_url(self.base_url.as_str())
    }

    /// Starts a new session: the next incarnation, no token, and the host's European
    /// identity forgotten.
    pub fn reborn(&mut self, identities: &mut IdentityCache)
        requires
            old(self).incarnation < u32::MAX,
        ensures
            final(self).incarnation == old(self).incarnation + 1,
            final(self).token@ == Seq::<char>::empty(),
            final(self).base_url == old(self).base_url,
            final(self).mac == old(self).mac,
            final(self).serial_number == old(self).serial_number,
            final(self).device_id == old(self).device_id,
            final(self).device_id2 == old(self).device_id2,
            final(self).model == old(self).model,
            final(self).username == old(self).username,
            final(self).password == old(self).password,
            final(self).signature == old(self).signature,
            final(self).timezone == old(self).timezone,
            final(self).device_id_auth == old(self).device_id_auth,
            host_of(old(self).base_url@).len() > 0 ==> final(identities).view_map() == old(identities).view_map().remove(
                host_of(old(self).base_url@),
            ),
            host_of(old(self).base_url@).len() == 0 ==> final(identities).view_map() == old(identities).view_map(),
    {
        self.incarnation = self.incarnation + 1;
        self.token = string_from_chars(Vec::new());
        let host = url_host(self.base_url.as_str());
        if chars_of(host.as_str()).len() > 0 {
            clear_sticky_identity(identities, host.as_str());
        }
    }

    /// Where the portal keeps a channel logo (see `logo_url_of`).
    pub fn logo_url(&self, logo_path: &str) -> (r: String)
        ensures
            r@ == logo_url_of(self.base_url@, logo_path@),
    {
        logo_url(self.base_url.as_str(), logo_path)
    }

    /// The values the watchdog ping needs.
    pub fn clone_for_watchdog(&self) -> (r: WatchdogClient)
        ensures
            r.base_url@ == self.base_url@,
            r.token@ == self.token@,
            r.serial_number@ == self.serial_number@,
            r.mac@ == self.mac@,
            r.timezone@ == self.timezone@,
            r.model@ == self.model@,
    {
        WatchdogClient {
            base_url: self.base_url.clone(),
            token: self.token.clone(),
            serial_number: self.serial_number.clone(),
            mac: self.mac.clone(),
            timezone: self.timezone.clone(),
            model: self.model.clone(),
        }
    }
}

/// What the watchdog ping of an account needs.
#[derive(Debug, Clone)]
pub struct WatchdogClient {
    pub base_url: String,
    pub token: String,
    pub serial_number: String,
    pub mac: String,
    pub timezone: String,
    pub model: String,
}

impl WatchdogClient {
    /// The portal's API address (see `address::api_url_of`).
    pub fn api_url(&self) -> (r: String)
        ensures
            r@ == api_url_of(self.base_url@),
    {
        api_url(self.base_url.as_str())
    }
}

// ---------------------------------------------------------------------------
// Hardware version and encrypted links
// ---------------------------------------------------------------------------

/// What SHA-1 gives for a byte sequence.
pub uninterp spec fn sha1_of(data: Seq<u8>) -> Seq<u8>;

/// Calls `sha1::Digest::digest` for `sha1::Sha1`. The contract names the digest and
/// states its length, 20 bytes (the hash's output size).
#[verifier::external_body]
fn sha1_digest(data: &[u8]) -> (r: Vec<u8>)
    ensures
        r@ == sha1_of(data@),
        r@.len() == 20,
{
    <sha1::Sha1 as sha1::Digest>::digest(data).to_vec()
}

/// Bytes written as lower-case hexadecimal, two digits each.
pub open spec fn hex_lower_of(b: Seq<u8>) -> Seq<char>
    decreases b.len(),
{
    if b.len() == 0 {
        Seq::empty()
    } else {
        hex_lower_of(b.drop_last()) + seq![
            crate::encoding::hex_lower((b.last() / 16) as nat),
            crate::encoding::hex_lower((b.last() % 16) as nat),
        ]
    }
}

impl PortalClient {
    /// The hardware version sent at authentication: the SHA-1 of the MAC, in lower-case
    /// hexadecimal.
    pub fn calculate_hw_version(mac: &str) -> (r: String)
        ensures
            r@ == hex_lower_of(sha1_of(encode_utf8(mac@))),
    {
        let d = sha1_digest(mac.as_bytes());
        let mut out: Vec<char> = Vec::new();
        let mut i: usize = 0;
        while i < d.len()
            invariant
                i <= d.len(),
                out@ == hex_lower_of(d@.subrange(0, i as int)),
            decreases d.len() - i,
        {
            let ghost after = d@.subrange(0, i + 1);
            assert(after.drop_last() =~= d@.subrange(0, i as int));
            let b = d[i];
            out.push(crate::encoding::hex_digit_lower(b / 16));
            out.push(crate::encoding::hex_digit_lower(b % 16));
            assert(out@ =~= hex_lower_of(after));
            i += 1;
        }
        assert(d@.subrange(0, d@.len() as int) =~= d@);
        string_from_chars(out)
    }
}


/// What AES-128-CBC decryption with PKCS#7 unpadding gives for a key, an IV and a
/// ciphertext: `None` where the padding is malformed.
pub uninterp spec fn aes128_cbc_plain(key: Seq<u8>, iv: Seq<u8>, data: Seq<u8>) -> Option<Seq<u8>>;

/// Calls `cbc::Decryptor::<aes::Aes128>::new_from_slices` and `decrypt_padded_mut` with
/// `Pkcs7` on a copy of `data`. The contract names the plaintext.
#[verifier::external_body]
fn aes128_cbc_decrypt(key: &[u8], iv: &[u8], data: &[u8]) -> (r: Option<Vec<u8>>)
    requires
        key@.len() == 16,
        iv@.len() == 16,
    ensures
        match r {
            Some(p) => aes128_cbc_plain(key@, iv@, data@) == Some(p@),
            None => aes128_cbc_plain(key@, iv@, data@) is None,
        },
{
    let dec = match <cbc::Decryptor<aes::Aes128> as cbc::cipher::KeyIvInit>::new_from_slices(key, iv) {
        Ok(d) => d,
        Err(_) => return None,
    };
    let mut buf = data.to_vec();
    match cbc::cipher::BlockDecryptMut::decrypt_padded_mut::<cbc::cipher::block_padding::Pkcs7>(dec, &mut buf) {
        Ok(p) => Some(p.to_vec()),
        Err(_) => None,
    }
}

/// The value of an ASCII hexadecimal digit byte.
pub open spec fn hex_byte_value(b: u8) -> Option<u8> {
    if 0x30 <= b && b <= 0x39 {
        Some((b - 0x30) as u8)
    } else if 0x61 <= b && b <= 0x66 {
        Some((b - 0x57) as u8)
    } else if 0x41 <= b && b <= 0x46 {
        Some((b - 0x37) as u8)
    } else {
        None
    }
}

/// `u8::from_str_radix` with radix 16 on a two-byte text: an optional `+` and one
/// digit, or two digits.
pub open spec fn hex_pair_of(b0: u8, b1: u8) -> Option<u8> {
    if b0 == 0x2B {
        hex_byte_value(b1)
    } else {
        match (hex_byte_value(b0), hex_byte_value(b1)) {
            (Some(h), Some(l)) => Some((h * 16 + l) as u8),
            _ => None,
        }
    }
}

/// Whether a text can be cut into two-byte pieces: an even number of bytes, and every
/// even offset at the start of a character (cutting elsewhere panics).
pub open spec fn hex_cuttable(b: Seq<u8>) -> bool {
    b.len() % 2 == 0 && forall|i: int| 0 <= i < b.len() && i % 2 == 0 ==> !(0x80 <= #[trigger] b[i] && b[i] < 0xC0)
}

/// The bytes a hexadecimal text stands for, two characters each; `None` where a pair is
/// no byte.
pub open spec fn hex_bytes_of(b: Seq<u8>) -> Option<Seq<u8>>
    decreases b.len(),
{
    if b.len() < 2 {
        Some(Seq::empty())
    } else {
        match (hex_bytes_of(b.subrange(0, b.len() - 2)), hex_pair_of(b[b.len() - 2], b[b.len() - 1])) {
            (Some(prev), Some(x)) => Some(prev.push(x)),
            _ => None,
        }
    }
}

/// The first sixteen bytes of the device id, padded with zeros: the key and IV of
/// encrypted links.
pub open spec fn link_key_of(device_id: Seq<char>) -> Seq<u8> {
    let d = encode_utf8(device_id);
    Seq::new(16, |i: int| if i < d.len() { d[i] } else { 0u8 })
}

/// A link as decrypted: hexadecimal text of whole AES blocks is decrypted with the
/// device-id key and read as UTF-8 (lossily); anything else (text that cannot be cut
/// into byte pairs, a pair that is no byte, no whole blocks), or a failed decryption,
/// gives the text back.
pub open spec fn decrypt_link_of(device_id: Seq<char>, encrypted_hex: Seq<char>) -> Seq<char> {
    if !hex_cuttable(encode_utf8(encrypted_hex)) {
        encrypted_hex
    } else {
        decrypt_pairs_of(device_id, encrypted_hex)
    }
}

/// The decryption of a text cut into byte pairs (see `decrypt_link_of`).
pub open spec fn decrypt_pairs_of(device_id: Seq<char>, encrypted_hex: Seq<char>) -> Seq<char> {
    match hex_bytes_of(encode_utf8(encrypted_hex)) {
        None => encrypted_hex,
        Some(data) => if data.len() < 16 || data.len() % 16 != 0 {
            encrypted_hex
        } else {
            match aes128_cbc_plain(link_key_of(device_id), link_key_of(device_id), data) {
                Some(p) => utf8_lossy(p),
                None => encrypted_hex,
            }
        },
    }
}

fn hex_byte_value_exec(b: u8) -> (r: Option<u8>)
    ensures
        r == hex_byte_value(b),
{
    if 0x30 <= b && b <= 0x39 {
        Some(b - 0x30)
    } else if 0x61 <= b && b <= 0x66 {
        Some(b - 0x57)
    } else if 0x41 <= b && b <= 0x46 {
        Some(b - 0x37)
    } else {
        None
    }
}

fn hex_pair(b0: u8, b1: u8) -> (r: Option<u8>)
    ensures
        r == hex_pair_of(b0, b1),
{
    if b0 == 0x2B {
        hex_byte_value_exec(b1)
    } else {
        match (hex_byte_value_exec(b0), hex_byte_value_exec(b1)) {
            (Some(h), Some(l)) => Some(h * 16 + l),
            _ => None,
        }
    }
}

fn is_hex_cuttable(b: &[u8]) -> (r: bool)
    ensures
        r == hex_cuttable(b@),
{
    if b.len() % 2 != 0 {
        return false;
    }
    let mut i: usize = 0;
    while i < b.len()
        invariant
            i <= b.len(),
            i % 2 == 0,
            b.len() % 2 == 0,
            forall|j: int| 0 <= j < i && j % 2 == 0 ==> !(0x80 <= #[trigger] b@[j] && b@[j] < 0xC0),
        decreases b.len() - i,
    {
        if 0x80 <= b[i] && b[i] < 0xC0 {
            return false;
        }
        i += 2;
    }
    true
}

impl PortalClient {
    /// Decrypts a link the portal sent encrypted with AES-128-CBC under the device id
    /// (see `decrypt_link_of`).
    pub fn decrypt_link(&self, encrypted_hex: &str) -> (r: String)
        ensures
            r@ == decrypt_link_of(self.device_id@, encrypted_hex@),
    {
        let b = encrypted_hex.as_bytes();
        if !is_hex_cuttable(b) {
            return string_from_chars(chars_of(encrypted_hex));
        }
        let n = b.len();
        let mut data: Vec<u8> = Vec::new();
        let mut i: usize = 0;
        while i + 1 < n
            invariant
                i % 2 == 0,
                i <= n,
                n == b@.len(),
                n % 2 == 0,
                b@ == encode_utf8(encrypted_hex@),
                hex_bytes_of(b@.subrange(0, i as int)) == Some(data@),
            decreases n - i,
        {
            let ghost pre = b@.subrange(0, i as int);
            let ghost post = b@.subrange(0, i + 2);
            assert(post.subrange(0, post.len() - 2) =~= pre);
            assert(post[post.len() - 2] == b@[i as int] && post[post.len() - 1] == b@[i + 1]);
            match hex_pair(b[i], b[i + 1]) {
                Some(x) => {
                    data.push(x);
                },
                None => {
                    proof {
                        lemma_hex_bytes_none_extends(b@, i as int + 2);
                    }
                    return string_from_chars(chars_of(encrypted_hex));
                },
            }
            i += 2;
        }
        assert(b@.subrange(0, n as int) =~= b@);
        if data.len() < 16 || data.len() % 16 != 0 {
            return string_from_chars(chars_of(encrypted_hex));
        }
        let d = self.device_id.as_str().as_bytes();
        let mut key: Vec<u8> = Vec::new();
        let mut j: usize = 0;
        while j < 16
            invariant
                j <= 16,
                d@ == encode_utf8(self.device_id@),
                key@.len() == j,
                forall|t: int| 0 <= t < j ==> #[trigger] key@[t] == (if t < d@.len() { d@[t] } else { 0u8 }),
            decreases 16 - j,
        {
            if j < d.len() {
                key.push(d[j]);
            } else {
                key.push(0);
            }
            j += 1;
        }
        assert(key@ =~= link_key_of(self.device_id@));
        match aes128_cbc_decrypt(key.as_slice(), key.as_slice(), data.as_slice()) {
            Some(p) => string_from_utf8_lossy(p.as_slice()),
            None => string_from_chars(chars_of(encrypted_hex)),
        }
    }
}

/// Once a prefix of the text fails to decode, the whole text fails.
proof fn lemma_hex_bytes_none_extends(b: Seq<u8>, k: int)
    requires
        0 <= k <= b.len(),
        k % 2 == 0,
        b.len() % 2 == 0,
        hex_bytes_of(b.subrange(0, k)) is None,
    ensures
        hex_bytes_of(b) is None,
    decreases b.len() - k,
{
    if k == b.len() {
        assert(b.subrange(0, k) =~= b);
    } else {
        let post = b.subrange(0, k + 2);
        assert(post.subrange(0, post.len() - 2) =~= b.subrange(0, k));
        lemma_hex_bytes_none_extends(b, k + 2);
    }
}


// ---------------------------------------------------------------------------
// Requests to the portal
// ---------------------------------------------------------------------------

/// The portal requests the engine makes.
#[derive(Debug, Clone)]
pub enum PortalRequest {
    Handshake,
    DoAuth,
    GetProfile,
    Channels,
    Genres,
    /// The categories of `vod` or `series`.
    Categories(String),
    CreateLink,
    Watchdog,
    EpgAll,
    /// The guide of the channel with this command.
    EpgChannel(String),
}

/// The query of a request, after the API address.
pub open spec fn request_query_of(req: PortalRequest) -> Seq<char> {
    match req {
        PortalRequest::Handshake => "?type=stb&action=handshake&JsHttpRequest=1-xml"@,
        PortalRequest::DoAuth => "?type=stb&action=do_auth&JsHttpRequest=1-xml"@,
        PortalRequest::GetProfile => "?type=stb&action=get_profile&JsHttpRequest=1-xml&hd=1&auth_second_step=1"@,
        PortalRequest::Channels => "?type=itv&action=get_all_channels&JsHttpRequest=1-xml"@,
        PortalRequest::Genres => "?action=get_genres&type=itv&JsHttpRequest=1-xml"@,
        PortalRequest::Categories(t) => "?action=get_categories&type="@ + t@ + "&JsHttpRequest=1-xml"@,
        PortalRequest::CreateLink => "?type=itv&action=create_link&JsHttpRequest=1-xml"@,
        PortalRequest::Watchdog => "?action=get_events&event_active_id=0&init=0&type=watchdog&cur_play_type=1&JsHttpRequest=1-xml"@,
        PortalRequest::EpgAll => "?type=itv&action=get_epg_info&period=5&JsHttpRequest=1-xml"@,
        PortalRequest::EpgChannel(cmd) => "?type=itv&action=get_epg_info&period=5&cmd="@
            + crate::proxy::encoded_words_of(crate::text::words(cmd@)) + "&JsHttpRequest=1-xml"@,
    }
}

fn encoded_words(cmd: &str) -> (r: Vec<char>)
    ensures
        r@ == crate::proxy::encoded_words_of(crate::text::words(cmd@)),
{
    let ws = crate::text::split_words(cmd);
    let ghost wv = ws@.map_values(|w: Vec<char>| w@);
    let mut enc: Vec<char> = Vec::new();
    let mut i: usize = 0;
    while i < ws.len()
        invariant
            i <= ws.len(),
            wv == ws@.map_values(|w: Vec<char>| w@),
            enc@ == crate::proxy::encoded_words_of(wv.subrange(0, i as int)),
        decreases ws.len() - i,
    {
        let ghost after = wv.subrange(0, i + 1);
        assert(after.drop_last() =~= wv.subrange(0, i as int));
        assert(after.last() == ws@[i as int]@);
        if i > 0 {
            push_str(&mut enc, "%20");
        }
        let w = string_from_chars(slice_vec(&ws[i], 0, ws[i].len()));
        assert(w@ =~= ws@[i as int]@);
        let e = urlencoding(w.as_str());
        push_str(&mut enc, e.as_str());
        assert(enc@ =~= crate::proxy::encoded_words_of(after));
        i += 1;
    }
    assert(wv.subrange(0, wv.len() as int) =~= wv);
    enc
}

/// The form fields of a request: the identity the portal checks.
pub open spec fn form_params_of(c: PortalClient, req: PortalRequest) -> Seq<(Seq<char>, Seq<char>)> {
    let hw = hex_lower_of(sha1_of(encode_utf8(c.mac@)));
    match req {
        PortalRequest::Handshake => seq![("mac"@, c.mac@), ("sn"@, c.serial_number@), ("stb_type"@, c.model@)],
        PortalRequest::DoAuth => seq![
            ("login"@, c.username@),
            ("password"@, c.password@),
            ("device_id"@, c.device_id@),
            ("device_id2"@, c.device_id2@),
            ("mac"@, c.mac@),
            ("sn"@, c.serial_number@),
            ("stb_type"@, c.model@),
            ("hw_version_2"@, hw),
            ("api_signature"@, "262"@),
        ],
        PortalRequest::GetProfile => seq![
            ("sn"@, c.serial_number@),
            ("stb_type"@, c.model@),
            ("device_id"@, c.device_id@),
            ("device_id2"@, c.device_id2@),
            ("mac"@, c.mac@),
            ("hw_version_2"@, hw),
            ("api_signature"@, "262"@),
        ],
        PortalRequest::CreateLink => Seq::empty(),
        _ => seq![("mac"@, c.mac@), ("sn"@, c.serial_number@)],
    }
}

fn pair(k: &str, v: &str) -> (r: (String, String))
    ensures
        r.0@ == k@,
        r.1@ == v@,
{
    (string_from_chars(chars_of(k)), string_from_chars(chars_of(v)))
}

impl PortalClient {
    /// The address of a request.
    pub fn request_url(&self, req: &PortalRequest) -> (r: String)
        ensures
            r@ == api_url_of(self.base_url@) + request_query_of(*req),
    {
        let mut out = chars_of(self.api_url().as_str());
        match req {
            PortalRequest::Handshake => push_str(&mut out, "?type=stb&action=handshake&JsHttpRequest=1-xml"),
            PortalRequest::DoAuth => push_str(&mut out, "?type=stb&action=do_auth&JsHttpRequest=1-xml"),
            PortalRequest::GetProfile => push_str(
                &mut out,
                "?type=stb&action=get_profile&JsHttpRequest=1-xml&hd=1&auth_second_step=1",
            ),
            PortalRequest::Channels => push_str(&mut out, "?type=itv&action=get_all_channels&JsHttpRequest=1-xml"),
            PortalRequest::Genres => push_str(&mut out, "?action=get_genres&type=itv&JsHttpRequest=1-xml"),
            PortalRequest::Categories(t) => {
                push_str(&mut out, "?action=get_categories&type=");
                push_str(&mut out, t.as_str());
                push_str(&mut out, "&JsHttpRequest=1-xml");
            },
            PortalRequest::CreateLink => push_str(&mut out, "?type=itv&action=create_link&JsHttpRequest=1-xml"),
            PortalRequest::Watchdog => push_str(
                &mut out,
                "?action=get_events&event_active_id=0&init=0&type=watchdog&cur_play_type=1&JsHttpRequest=1-xml",
            ),
            PortalRequest::EpgAll => push_str(&mut out, "?type=itv&action=get_epg_info&period=5&JsHttpRequest=1-xml"),
            PortalRequest::EpgChannel(cmd) => {
                push_str(&mut out, "?type=itv&action=get_epg_info&period=5&cmd=");
                let e = encoded_words(cmd.as_str());
                push_chars(&mut out, &e);
                push_str(&mut out, "&JsHttpRequest=1-xml");
            },
        }
        assert(out@ =~= api_url_of(self.base_url@) + request_query_of(*req));
        string_from_chars(out)
    }

    /// The form fields of a request.
    pub fn form_params(&self, req: &PortalRequest) -> (r: Vec<(String, String)>)
        ensures
            crate::proxy::pairs_view(r@) == form_params_of(*self, *req),
    {
        let r = match req {
            PortalRequest::Handshake => vec![
                pair("mac", self.mac.as_str()),
                pair("sn", self.serial_number.as_str()),
                pair("stb_type", self.model.as_str()),
            ],
            PortalRequest::DoAuth => {
                let hw = PortalClient::calculate_hw_version(self.mac.as_str());
                vec![
                    pair("login", self.username.as_str()),
                    pair("password", self.password.as_str()),
                    pair("device_id", self.device_id.as_str()),
                    pair("device_id2", self.device_id2.as_str()),
                    pair("mac", self.mac.as_str()),
                    pair("sn", self.serial_number.as_str()),
                    pair("stb_type", self.model.as_str()),
                    pair("hw_version_2", hw.as_str()),
                    pair("api_signature", "262"),
                ]
            },
            PortalRequest::GetProfile => {
                let hw = PortalClient::calculate_hw_version(self.mac.as_str());
                vec![
                    pair("sn", self.serial_number.as_str()),
                    pair("stb_type", self.model.as_str()),
                    pair("device_id", self.device_id.as_str()),
                    pair("device_id2", self.device_id2.as_str()),
                    pair("mac", self.mac.as_str()),
                    pair("hw_version_2", hw.as_str()),
                    pair("api_signature", "262"),
                ]
            },
            PortalRequest::CreateLink => Vec::new(),
            _ => vec![pair("mac", self.mac.as_str()), pair("sn", self.serial_number.as_str())],
        };
        assert(crate::proxy::pairs_view(r@) =~= form_params_of(*self, *req));
        r
    }

    /// Whether the account signs in with its device ids (asked for, or no credentials).
    pub fn uses_device_id_auth(&self) -> (r: bool)
        ensures
            r == (self.device_id_auth || (self.username@.len() == 0 && self.password@.len() == 0)),
    {
        self.device_id_auth || (chars_of(self.username.as_str()).len() == 0 && chars_of(self.password.as_str()).len() == 0)
    }

    /// Keeps the token of a handshake answer when it is a non-empty string.
    pub fn take_handshake_token(&mut self, token: Option<String>)
        ensures
            match token {
                Some(t) => t@.len() > 0 ==> final(self).token@ == t@,
                None => true,
            },
            !(token matches Some(t) && t@.len() > 0) ==> final(self).token == old(self).token,
            final(self).base_url == old(self).base_url,
            final(self).mac == old(self).mac,
            final(self).serial_number == old(self).serial_number,
            final(self).device_id == old(self).device_id,
            final(self).device_id2 == old(self).device_id2,
            final(self).model == old(self).model,
            final(self).incarnation == old(self).incarnation,
            final(self).username == old(self).username,
            final(self).password == old(self).password,
            final(self).signature == old(self).signature,
            final(self).timezone == old(self).timezone,
            final(self).device_id_auth == old(self).device_id_auth,
    {
        match token {
            Some(t) => {
                if chars_of(t.as_str()).len() > 0 {
                    self.token = t;
                }
            },
            None => {},
        }
    }
}

// ---------------------------------------------------------------------------
// Headers of the portal requests
// ---------------------------------------------------------------------------

/// The headers of a portal request: accept headers, the padding, the model, the bearer
/// token when there is one, and the cookie with the encoded serial, MAC and European
/// time zone.
pub open spec fn portal_headers_of(c: PortalClient, padding: Seq<char>, eur_tz: Seq<char>) -> Seq<(Seq<char>, Seq<char>)> {
    seq![
        ("Accept"@, "*/*"@),
        ("Accept-Language"@, "en-US,en;q=0.9"@),
        ("Cache-Control"@, "no-cache"@),
        ("Pragma"@, "no-cache"@),
        ("X-DPI-Padding"@, padding),
        ("X-User-Agent"@, "Model: "@ + c.model@ + "; Link: Ethernet"@),
    ] + (if c.token@.len() > 0 {
        seq![("Authorization"@, "Bearer "@ + c.token@)]
    } else {
        Seq::empty()
    }) + seq![
        ("Cookie"@, "PHPSESSID=null; sn="@ + percent_encode(encode_utf8(c.serial_number@)) + "; mac="@
            + percent_encode(encode_utf8(c.mac@)) + "; stb_lang=en; timezone="@ + percent_encode(encode_utf8(eur_tz))
            + ";"@),
    ]
}

/// Whether a text is request padding: 32 to 127 printable ASCII characters from `!` to `}`.
pub open spec fn is_padding(p: Seq<char>) -> bool {
    32 <= p.len() < 128 && forall|i: int| 0 <= i < p.len() ==> 33 <= (#[trigger] p[i]) as u32 && (p[i] as u32) < 126
}

/// Random padding that blurs the request length.
pub fn random_padding() -> (r: String)
    ensures
        is_padding(r@),
{
    let n = random_range(32, 128);
    let mut v: Vec<char> = Vec::new();
    let mut i: u64 = 0;
    while i < n
        invariant
            i <= n,
            32 <= n < 128,
            v@.len() == i,
            forall|j: int| 0 <= j < v@.len() ==> 33 <= (#[trigger] v@[j]) as u32 && (v@[j] as u32) < 126,
        decreases n - i,
    {
        let c = random_range(33, 126);
        v.push(crate::text::char_from_ascii(c as u32));
        i += 1;
    }
    string_from_chars(v)
}

impl PortalClient {
    /// The headers of a portal request with the given padding and European time zone.
    pub fn headers_with(&self, padding: &str, eur_tz: &str) -> (r: Vec<(String, String)>)
        ensures
            crate::proxy::pairs_view(r@) == portal_headers_of(*self, padding@, eur_tz@),
    {
        let mut xua = chars_of("Model: ");
        push_str(&mut xua, self.model.as_str());
        push_str(&mut xua, "; Link: Ethernet");
        let mut r = vec![
            pair("Accept", "*/*"),
            pair("Accept-Language", "en-US,en;q=0.9"),
            pair("Cache-Control", "no-cache"),
            pair("Pragma", "no-cache"),
            pair("X-DPI-Padding", padding),
            (string_from_chars(chars_of("X-User-Agent")), string_from_chars(xua)),
        ];
        let ghost head = crate::proxy::pairs_view(r@);
        if chars_of(self.token.as_str()).len() > 0 {
            let mut auth = chars_of("Bearer ");
            push_str(&mut auth, self.token.as_str());
            r.push((string_from_chars(chars_of("Authorization")), string_from_chars(auth)));
        }
        let mut cookie = chars_of("PHPSESSID=null; sn=");
        push_str(&mut cookie, urlencoding(self.serial_number.as_str()).as_str());
        push_str(&mut cookie, "; mac=");
        push_str(&mut cookie, urlencoding(self.mac.as_str()).as_str());
        push_str(&mut cookie, "; stb_lang=en; timezone=");
        push_str(&mut cookie, urlencoding(eur_tz).as_str());
        push_str(&mut cookie, ";");
        r.push((string_from_chars(chars_of("Cookie")), string_from_chars(cookie)));
        assert(crate::proxy::pairs_view(r@) =~= portal_headers_of(*self, padding@, eur_tz@));
        r
    }

    /// The headers of a portal request: random padding, and the time zone of the host's
    /// sticky European identity.
    pub fn headers(&self, identities: &mut IdentityCache) -> (r: Vec<(String, String)>)
        ensures
            exists|padding: Seq<char>, k: int, ip: Seq<char>, tz: Seq<char>|
                #![trigger is_padding(padding), crate::dns::is_block_identity(k, ip, tz)]
                is_padding(padding) && crate::dns::is_block_identity(k, ip, tz) && crate::proxy::pairs_view(r@)
                    == portal_headers_of(*self, padding, tz),
            exists|padding: Seq<char>, ev: crate::dns::EntryView|
                #![trigger is_padding(padding), crate::dns::is_identity_request(old(identities).view_map(), host_of(self.base_url@), ev, final(identities).view_map())]
                is_padding(padding) && crate::dns::is_identity_request(
                    old(identities).view_map(),
                    host_of(self.base_url@),
                    ev,
                    final(identities).view_map(),
                ) && crate::dns::is_fresh_identity(ev, ev.2) && crate::proxy::pairs_view(r@) == portal_headers_of(*self, padding, ev.1),
    {
        let host = url_host(self.base_url.as_str());
        let ghost before = identities.view_map();
        let (ip, tz) = crate::dns::get_sticky_european_identity(identities, host.as_str());
        let padding = random_padding();
        let r = self.headers_with(padding.as_str(), tz.as_str());
        proof {
            let k = choose|k: int| #[trigger] crate::dns::is_block_identity(k, ip@, tz@);
            assert(is_padding(padding@) && crate::dns::is_block_identity(k, ip@, tz@));
            let ev = choose|ev: crate::dns::EntryView|
                #[trigger] crate::dns::is_identity_request(before, host@, ev, identities.view_map()) && ip@ == ev.0
                    && tz@ == ev.1 && crate::dns::is_fresh_identity(ev, ev.2);
            assert(crate::dns::is_identity_request(before, host_of(self.base_url@), ev, identities.view_map()));
        }
        r
    }
}

// ---------------------------------------------------------------------------
// Answers of the portal
// ---------------------------------------------------------------------------

/// The parts of a `do_auth` answer the engine reads.
#[derive(Debug, Clone)]
pub struct AuthReply {
    /// Whether the body is empty.
    pub body_empty: bool,
    /// Whether the body parses as JSON.
    pub parsed: bool,
    /// The value, where the JSON is a boolean.
    pub as_bool: Option<bool>,
    /// Whether the JSON is an object.
    pub is_object: bool,
    /// `js.token` and `js.id` where they are strings.
    pub js_token: Option<String>,
    pub js_id: Option<String>,
    /// Whether `js.token` is a string (else `js.id` decides).
    pub js_has_token: bool,
    /// `token` where it is a string.
    pub token: Option<String>,
    /// `text` where it is a string.
    pub text: Option<String>,
}

/// Whether an optional string is present and non-empty.
pub open spec fn non_empty_text(o: Option<String>) -> bool {
    (o matches Some(s) && s@.len() > 0)
}

/// Whether a `do_auth` answer accepts the credentials: `true`; or an object whose `js`
/// carries a non-empty string `token` (or, without a `token`, a non-empty string `id`),
/// or with a non-empty string `token` itself.
pub open spec fn auth_accepted(r: AuthReply) -> bool {
    r.parsed && match r.as_bool {
        Some(b) => b,
        None => r.is_object && ((if r.js_has_token {
            non_empty_text(r.js_token)
        } else {
            non_empty_text(r.js_id)
        }) || non_empty_text(r.token)),
    }
}

/// The result of signing in with user name and password: the answer's `text` (or
/// "authenticated") when accepted or when the body is empty, else an error.
pub open spec fn user_pass_result_of(r: AuthReply) -> Result<Seq<char>, Seq<char>> {
    if auth_accepted(r) {
        Ok(match r.text {
            Some(t) => t@,
            None => "authenticated"@,
        })
    } else if r.body_empty {
        Ok("authenticated"@)
    } else {
        Err("Invalid credentials"@)
    }
}

pub open spec fn result_view(r: Result<String, String>) -> Result<Seq<char>, Seq<char>> {
    match r {
        Ok(s) => Ok(s@),
        Err(e) => Err(e@),
    }
}

fn non_empty(o: &Option<String>) -> (r: bool)
    ensures
        r == non_empty_text(*o),
{
    match o {
        Some(s) => chars_of(s.as_str()).len() > 0,
        None => false,
    }
}

pub fn user_pass_result(r: &AuthReply) -> (res: Result<String, String>)
    ensures
        result_view(res) == user_pass_result_of(*r),
{
    let accepted = r.parsed && match r.as_bool {
        Some(b) => b,
        None => r.is_object && ((if r.js_has_token {
            non_empty(&r.js_token)
        } else {
            non_empty(&r.js_id)
        }) || non_empty(&r.token)),
    };
    if accepted {
        Ok(match &r.text {
            Some(t) => t.clone(),
            None => string_from_chars(chars_of("authenticated")),
        })
    } else if r.body_empty {
        Ok(string_from_chars(chars_of("authenticated")))
    } else {
        Err(string_from_chars(chars_of("Invalid credentials")))
    }
}

/// The `js.id` of a `get_profile` answer.
#[derive(Debug, Clone)]
pub enum ProfileId {
    Text(String),
    Number,
    Other,
}

/// The result of signing in with the device ids: the profile's `fname` when its id is a
/// non-empty string or a number, else an error.
pub open spec fn device_auth_result_of(id: ProfileId, fname: Seq<char>) -> Result<Seq<char>, Seq<char>> {
    match id {
        ProfileId::Text(s) => if s@.len() > 0 {
            Ok(fname)
        } else {
            Err("Device ID auth failed"@)
        },
        ProfileId::Number => Ok(fname),
        ProfileId::Other => Err("Device ID auth failed"@),
    }
}

pub fn device_auth_result(id: &ProfileId, fname: &str) -> (r: Result<String, String>)
    ensures
        result_view(r) == device_auth_result_of(*id, fname@),
{
    let ok = match id {
        ProfileId::Text(s) => chars_of(s.as_str()).len() > 0,
        ProfileId::Number => true,
        ProfileId::Other => false,
    };
    if ok {
        Ok(string_from_chars(chars_of(fname)))
    } else {
        Err(string_from_chars(chars_of("Device ID auth failed")))
    }
}

/// A channel of the portal's `get_all_channels` data, as parsed.
#[derive(Debug, Clone)]
pub struct ChannelData {
    pub name: String,
    pub cmd: String,
    pub logo: Option<String>,
    pub tv_genre_id: Option<String>,
    /// `id` and `ch_id` of the first entry of `cmds`, where there is one.
    pub first_cmd: Option<(Option<String>, Option<String>)>,
}

pub open spec fn opt_or_empty(o: Option<String>) -> Seq<char> {
    match o {
        Some(s) => s@,
        None => Seq::empty(),
    }
}

/// The title of a genre id: that of the last genre with the id, else `Other`.
pub open spec fn genre_title_of(genres: Seq<(Seq<char>, Seq<char>)>, id: Seq<char>) -> Seq<char>
    decreases genres.len(),
{
    if genres.len() == 0 {
        "Other"@
    } else if genres.last().0 == id {
        genres.last().1
    } else {
        genre_title_of(genres.drop_last(), id)
    }
}

/// A channel as the engine keeps it.
pub open spec fn channel_of(d: ChannelData, genres: Seq<(Seq<char>, Seq<char>)>) -> (Seq<char>, Seq<char>, Seq<char>, Seq<char>, Seq<char>, Seq<char>, Seq<char>) {
    let gid = opt_or_empty(d.tv_genre_id);
    let (cid, chid) = match d.first_cmd {
        Some((a, b)) => (opt_or_empty(a), opt_or_empty(b)),
        None => (Seq::empty(), Seq::empty()),
    };
    (d.name@, d.cmd@, opt_or_empty(d.logo), gid, genre_title_of(genres, gid), cid, chid)
}

pub open spec fn channel_view(c: Channel) -> (Seq<char>, Seq<char>, Seq<char>, Seq<char>, Seq<char>, Seq<char>, Seq<char>) {
    (c.title@, c.cmd@, c.logo@, c.genre_id@, c.genre@, c.cmd_id@, c.cmd_ch_id@)
}

/// The channels of the portal's data: each with its genre's title, separators (names
/// starting with `#`) left out.
pub open spec fn channels_of(data: Seq<ChannelData>, genres: Seq<(Seq<char>, Seq<char>)>) -> Seq<(Seq<char>, Seq<char>, Seq<char>, Seq<char>, Seq<char>, Seq<char>, Seq<char>)>
    decreases data.len(),
{
    if data.len() == 0 {
        Seq::empty()
    } else {
        let prev = channels_of(data.drop_last(), genres);
        if starts_with(data.last().name@, seq!['#']) {
            prev
        } else {
            prev.push(channel_of(data.last(), genres))
        }
    }
}

fn or_empty(o: &Option<String>) -> (r: String)
    ensures
        r@ == opt_or_empty(*o),
{
    match o {
        Some(s) => s.clone(),
        None => string_from_chars(Vec::new()),
    }
}

fn genre_title(genres: &Vec<(String, String)>, id: &str) -> (r: String)
    ensures
        r@ == genre_title_of(crate::proxy::pairs_view(genres@), id@),
{
    let ghost gv = crate::proxy::pairs_view(genres@);
    let mut i: usize = genres.len();
    assert(gv.subrange(0, gv.len() as int) =~= gv);
    while i > 0
        invariant
            i <= genres.len(),
            gv == crate::proxy::pairs_view(genres@),
            genre_title_of(gv, id@) == genre_title_of(gv.subrange(0, i as int), id@),
        decreases i,
    {
        let ghost pre = gv.subrange(0, i as int);
        assert(pre.drop_last() =~= gv.subrange(0, i - 1));
        assert(pre.last() == (genres@[i - 1].0@, genres@[i - 1].1@));
        if str_eq(genres[i - 1].0.as_str(), id) {
            return genres[i - 1].1.clone();
        }
        i -= 1;
    }
    string_from_chars(chars_of("Other"))
}

/// The channels of the portal's data (see `channels_of`).
pub fn channels_from_data(data: &Vec<ChannelData>, genres: &Vec<(String, String)>) -> (r: Vec<Channel>)
    ensures
        r@.map_values(|c: Channel| channel_view(c)) == channels_of(data@, crate::proxy::pairs_view(genres@)),
{
    let ghost gv = crate::proxy::pairs_view(genres@);
    let mut out: Vec<Channel> = Vec::new();
    let mut i: usize = 0;
    assert(gv.subrange(0, gv.len() as int) =~= gv);
    while i < data.len()
        invariant
            i <= data.len(),
            gv == crate::proxy::pairs_view(genres@),
            out@.map_values(|c: Channel| channel_view(c)) == channels_of(data@.subrange(0, i as int), gv),
        decreases data.len() - i,
    {
        let ghost after = data@.subrange(0, i + 1);
        assert(after.drop_last() =~= data@.subrange(0, i as int));
        let d = &data[i];
        let nc = chars_of(d.name.as_str());
        let is_sep = nc.len() > 0 && nc[0] == '#';
        proof {
            if nc@.len() > 0 {
                assert(nc@.subrange(0, 1) =~= seq![nc@[0]]);
                assert(seq![nc@[0]][0] == nc@[0]);
                if nc@[0] == '#' {
                    assert(nc@.subrange(0, 1) =~= seq!['#']);
                }
            }
        }
        if !is_sep {
            let gid = or_empty(&d.tv_genre_id);
            let genre = genre_title(genres, gid.as_str());
            let (cmd_id, cmd_ch_id) = match &d.first_cmd {
                Some((a, b)) => (or_empty(a), or_empty(b)),
                None => (string_from_chars(Vec::new()), string_from_chars(Vec::new())),
            };
            let ghost before = out@.map_values(|c: Channel| channel_view(c));
            out.push(
                Channel {
                    title: d.name.clone(),
                    cmd: d.cmd.clone(),
                    logo: or_empty(&d.logo),
                    genre_id: gid,
                    genre,
                    cmd_id,
                    cmd_ch_id,
                },
            );
            assert(out@.map_values(|c: Channel| channel_view(c)) =~= before.push(channel_of(*d, gv)));
        }
        i += 1;
    }
    assert(data@.subrange(0, data@.len() as int) =~= data@);
    out
}

/// Whether a category of the portal's answer is kept: separators (objects whose
/// string title starts with `#`) are dropped.
pub fn keep_category(is_object: bool, title: &Option<String>) -> (r: bool)
    ensures
        r == !(is_object && (title matches Some(t) && starts_with(t@, seq!['#']))),
{
    match title {
        Some(t) => {
            let c = chars_of(t.as_str());
            let sep = c.len() > 0 && c[0] == '#';
            proof {
                if c@.len() > 0 {
                    assert(c@.subrange(0, 1) =~= seq![c@[0]]);
                    assert(seq![c@[0]][0] == c@[0]);
                    if c@[0] == '#' {
                        assert(c@.subrange(0, 1) =~= seq!['#']);
                    }
                }
            }
            !(is_object && sep)
        },
        None => true,
    }
}


// ---------------------------------------------------------------------------
// Stream links
// ---------------------------------------------------------------------------

/// The form body of `create_link`: the command as it is (the portal reads the fields
/// inside it), the encoded MAC, serial and model, and the stream id where the command
/// has one.
pub open spec fn create_link_body_of(c: PortalClient, cmd: Seq<char>) -> Seq<char> {
    let sid = crate::proxy::stream_id_of(cmd);
    "cmd="@ + cmd + "&mac="@ + percent_encode(encode_utf8(c.mac@)) + "&sn="@ + percent_encode(
        encode_utf8(c.serial_number@),
    ) + "&stb_type="@ + percent_encode(encode_utf8(c.model@)) + if sid.len() > 0 {
        "&stream="@ + sid
    } else {
        Seq::empty()
    }
}

/// Whether a text is an ASCII hexadecimal number.
pub open spec fn all_hex(s: Seq<char>) -> bool {
    forall|i: int| 0 <= i < s.len() ==> is_hex_char(#[trigger] s[i])
}

/// The link of a `create_link` answer: the last word of its command; a hexadecimal word
/// of more than 32 characters is decrypted, and the decryption is taken where it holds
/// `://`.
pub open spec fn link_of_reply(device_id: Seq<char>, reply_cmd: Seq<char>) -> Seq<char> {
    let ws = crate::text::words(crate::text::trim(reply_cmd));
    let raw = if ws.len() > 0 {
        ws.last()
    } else {
        Seq::empty()
    };
    if raw.len() > 32 && all_hex(raw) {
        let d = decrypt_link_of(device_id, raw);
        if d.len() > 0 && crate::text::contains(d, "://"@) {
            d
        } else {
            raw
        }
    } else {
        raw
    }
}

impl PortalClient {
    /// The form body of `create_link` (see `create_link_body_of`).
    pub fn create_link_body(&self, cmd: &str) -> (r: String)
        ensures
            r@ == create_link_body_of(*self, cmd@),
    {
        let sid = crate::proxy::extract_stream_id(cmd);
        let mut out = chars_of("cmd=");
        push_str(&mut out, cmd);
        push_str(&mut out, "&mac=");
        push_str(&mut out, urlencoding(self.mac.as_str()).as_str());
        push_str(&mut out, "&sn=");
        push_str(&mut out, urlencoding(self.serial_number.as_str()).as_str());
        push_str(&mut out, "&stb_type=");
        push_str(&mut out, urlencoding(self.model.as_str()).as_str());
        if chars_of(sid.as_str()).len() > 0 {
            push_str(&mut out, "&stream=");
            push_str(&mut out, sid.as_str());
        }
        assert(out@ =~= create_link_body_of(*self, cmd@));
        string_from_chars(out)
    }

    /// The link of a `create_link` answer (see `link_of_reply`).
    pub fn link_from_reply(&self, reply_cmd: &str) -> (r: String)
        ensures
            r@ == link_of_reply(self.device_id@, reply_cmd@),
    {
        let t = string_from_chars(crate::text::trim_vec(&chars_of(reply_cmd)));
        let ws = crate::text::split_words(t.as_str());
        let ghost wv = ws@.map_values(|w: Vec<char>| w@);
        let raw: Vec<char> = if ws.len() > 0 {
            assert(wv.last() == ws@[ws@.len() - 1]@);
            slice_vec(&ws[ws.len() - 1], 0, ws[ws.len() - 1].len())
        } else {
            Vec::new()
        };
        let ghost spec_raw = if wv.len() > 0 {
            wv.last()
        } else {
            Seq::<char>::empty()
        };
        assert(wv == crate::text::words(crate::text::trim(reply_cmd@)));
        assert(raw@ =~= spec_raw);
        let mut hex = true;
        let mut i: usize = 0;
        while i < raw.len()
            invariant
                i <= raw.len(),
                raw@ == spec_raw,
                hex == (forall|j: int| 0 <= j < i ==> is_hex_char(#[trigger] raw@[j])),
            decreases raw.len() - i,
        {
            let c = raw[i];
            if !(('0' <= c && c <= '9') || ('a' <= c && c <= 'f') || ('A' <= c && c <= 'F')) {
                hex = false;
            }
            i += 1;
        }
        let raw_len = raw.len();
        let raw_s = string_from_chars(raw);
        if raw_len > 32 && hex {
            let d = self.decrypt_link(raw_s.as_str());
            let dc = chars_of(d.as_str());
            if dc.len() > 0 && crate::text::contains_vec(&dc, &chars_of("://")) {
                return d;
            }
        }
        raw_s
    }
}

/// The wait before the next `create_link` attempt, in seconds: one, doubling per attempt.
pub fn retry_delay_secs(attempt: u32) -> (r: u64)
    requires
        attempt < 64,
    ensures
        r == vstd::arithmetic::power2::pow2(attempt as nat),
{
    let mut r: u64 = 1;
    let mut i: u32 = 0;
    proof {
        vstd::arithmetic::power2::lemma2_to64();
    }
    while i < attempt
        invariant
            i <= attempt < 64,
            r == vstd::arithmetic::power2::pow2(i as nat),
        decreases attempt - i,
    {
        proof {
            vstd::arithmetic::power2::lemma_pow2_unfold((i + 1) as nat);
            vstd::arithmetic::power2::lemma_pow2_strictly_increases((i + 1) as nat, 64);
            vstd::arithmetic::power2::lemma2_to64();
        }
        r = r * 2;
        i += 1;
    }
    r
}

// ---------------------------------------------------------------------------
// Playlists
// ---------------------------------------------------------------------------

/// The playlist address of a stream link: `https` for the first `http://`, no `:80/`,
/// and the `m3u8` extension in place of `ts`.
pub open spec fn playlist_url_of(ts_url: Seq<char>) -> Seq<char> {
    crate::text::replace_all(
        crate::text::replace_all(crate::text::replace_first(ts_url, "http://"@, "https://"@), ":80/"@, "/"@),
        "extension=ts"@,
        "extension=m3u8"@,
    )
}

pub fn playlist_url(ts_url: &str) -> (r: String)
    ensures
        r@ == playlist_url_of(ts_url@),
{
    let a = crate::text::replace_first_vec(&chars_of(ts_url), &chars_of("http://"), &chars_of("https://"));
    proof {
        reveal_strlit(":80/");
        reveal_strlit("extension=ts");
    }
    let b = crate::text::replace_all_vec(&a, &chars_of(":80/"), &chars_of("/"));
    let c = crate::text::replace_all_vec(&b, &chars_of("extension=ts"), &chars_of("extension=m3u8"));
    string_from_chars(c)
}

/// Whether the portal refused the stream by location (458) or dropped it (444).
pub fn is_geo_blocked(status: u16) -> (r: bool)
    ensures
        r == (status == 458 || status == 444),
{
    status == 458 || status == 444
}

/// The streamers tried directly when the portal refuses by location, and the host
/// name they answer for.
pub open spec fn streamer_fallbacks() -> (Seq<char>, Seq<Seq<char>>) {
    ("tres.4vps.info"@, seq!["185.245.0.132"@, "185.245.0.131"@, "185.245.0.133"@])
}

pub fn streamer_fallback_ips() -> (r: (&'static str, Vec<&'static str>))
    ensures
        r.0@ == streamer_fallbacks().0,
        r.1@.map_values(|a: &'static str| a@) == streamer_fallbacks().1,
{
    let v = vec!["185.245.0.132", "185.245.0.131", "185.245.0.133"];
    assert(v@.map_values(|a: &'static str| a@) =~= streamer_fallbacks().1);
    ("tres.4vps.info", v)
}

/// Whether a directly asked streamer answered usefully (a redirect or the playlist).
pub fn streamer_answered(status: u16) -> (r: bool)
    ensures
        r == (status == 302 || status == 200),
{
    status == 302 || status == 200
}

/// What the engine does with the answer to a playlist request.
#[derive(Debug, Clone, PartialEq, Eq)]
pub enum PlaylistStep {
    /// Fetch the playlist from this streamer address: the 302's `Location`, empty where
    /// that header is no text.
    AskStreamer(String),
    /// Use the answer's own body, which must be a playlist.
    ReadBody,
}

/// The step after the answer to a playlist request: a 302 with a `Location` header sends
/// the engine to the streamer it names; any other answer is read as the playlist.
pub open spec fn playlist_step_of(status: u16, location: Option<Option<String>>, r: PlaylistStep) -> bool {
    match location {
        Some(l) => if status == 302 {
            r matches PlaylistStep::AskStreamer(u) && u@ == (match l {
                Some(t) => t@,
                None => Seq::<char>::empty(),
            })
        } else {
            r is ReadBody
        },
        None => r is ReadBody,
    }
}

/// The step after the answer to a playlist request (see `playlist_step_of`); `location`
/// is the answer's `Location` header where it sent one (`None` inside where it is no
/// text).
pub fn playlist_step(status: u16, location: Option<Option<String>>) -> (r: PlaylistStep)
    ensures
        playlist_step_of(status, location, r),
{
    match location {
        Some(l) => if status == 302 {
            PlaylistStep::AskStreamer(
                match l {
                    Some(t) => t,
                    None => String::new(),
                },
            )
        } else {
            PlaylistStep::ReadBody
        },
        None => PlaylistStep::ReadBody,
    }
}

/// Whether the streamer refused the playlist (a status of 400 or more).
pub fn streamer_refused(status: u16) -> (r: bool)
    ensures
        r == (status >= 400),
{
    status >= 400
}

/// The playlist a streamer sent, its segment paths made absolute against the origin
/// (scheme and host) of the streamer's address.
pub fn streamer_playlist(body: &[u8], streamer_url: &str) -> (r: String)
    ensures
        r@ == rewritten_segments_of(body@, crate::address::origin_of(streamer_url@)),
{
    let base = crate::address::url_origin(streamer_url);
    PortalClient::rewrite_hls_segments(body, base.as_str())
}

/// The portal's own answer as the playlist: `None` where the body is empty or does not
/// start with `#EXTM3U`.
pub fn portal_playlist(body: Vec<u8>) -> (r: Option<Vec<u8>>)
    ensures
        match r {
            Some(b) => b@ == body@ && is_playlist_of(body@),
            None => !is_playlist_of(body@),
        },
{
    if body.len() > 0 && is_playlist(body.as_slice()) {
        Some(body)
    } else {
        None
    }
}

/// Whether a body is a playlist: it starts with `#EXTM3U`.
pub open spec fn is_playlist_of(body: Seq<u8>) -> bool {
    body.len() >= 7 && body.subrange(0, 7) == seq![0x23u8, 0x45u8, 0x58u8, 0x54u8, 0x4Du8, 0x33u8, 0x55u8]
}

pub fn is_playlist(body: &[u8]) -> (r: bool)
    ensures
        r == is_playlist_of(body@),
{
    let m: [u8; 7] = [0x23, 0x45, 0x58, 0x54, 0x4D, 0x33, 0x55];
    if body.len() < 7 {
        return false;
    }
    let mut i: usize = 0;
    while i < 7
        invariant
            i <= 7,
            body@.len() >= 7,
            m@ == seq![0x23u8, 0x45u8, 0x58u8, 0x54u8, 0x4Du8, 0x33u8, 0x55u8],
            forall|j: int| 0 <= j < i ==> body@[j] == m@[j],
        decreases 7 - i,
    {
        if body[i] != m[i] {
            assert(body@.subrange(0, 7)[i as int] != seq![0x23u8, 0x45u8, 0x58u8, 0x54u8, 0x4Du8, 0x33u8, 0x55u8][i as int]);
            return false;
        }
        i += 1;
    }
    assert(body@.subrange(0, 7) =~= seq![0x23u8, 0x45u8, 0x58u8, 0x54u8, 0x4Du8, 0x33u8, 0x55u8]);
    true
}

/// Calls `std::str::from_utf8`: the text of the bytes where they are valid UTF-8 (as std
/// documents), else `None`.
#[verifier::external_body]
fn utf8_text(bytes: &[u8]) -> (r: Option<String>)
    ensures
        r is Some <==> valid_utf8(bytes@),
        r matches Some(s) ==> s@ == decode_utf8(bytes@),
{
    match std::str::from_utf8(bytes) {
        Ok(s) => Some(s.to_string()),
        Err(_) => None,
    }
}

/// One playlist line with segment addresses made absolute under `base`.
pub open spec fn segment_line(line: Seq<char>, base: Seq<char>) -> Seq<char> {
    if line.len() == 0 {
        seq!['\n']
    } else if line[0] == '#' {
        line + seq!['\n']
    } else {
        let seg = crate::text::trim(line);
        if seg.len() > 0 && seg[0] == '/' {
            base + seg + seq!['\n']
        } else {
            base + seq!['/'] + seg + seq!['\n']
        }
    }
}

pub open spec fn segment_lines(ls: Seq<Seq<char>>, base: Seq<char>) -> Seq<char>
    decreases ls.len(),
{
    if ls.len() == 0 {
        Seq::empty()
    } else {
        segment_lines(ls.drop_last(), base) + segment_line(ls.last(), base)
    }
}

/// A streamer's playlist with its segment paths made absolute under `base_url` (without
/// trailing slashes); a body that is not UTF-8 gives the empty text.
pub open spec fn rewritten_segments_of(playlist: Seq<u8>, base_url: Seq<char>) -> Seq<char> {
    if valid_utf8(playlist) {
        segment_lines(crate::hls::lines(decode_utf8(playlist)), trim_end_char(base_url, '/'))
    } else {
        Seq::empty()
    }
}

impl PortalClient {
    /// Makes the segment paths of a streamer's playlist absolute.
    pub fn rewrite_hls_segments(playlist: &[u8], base_url: &str) -> (r: String)
        ensures
            r@ == rewritten_segments_of(playlist@, base_url@),
    {
        let base = trim_end_char_vec(&chars_of(base_url), '/');
        let text = match utf8_text(playlist) {
            Some(t) => t,
            None => return string_from_chars(Vec::new()),
        };
        let c = chars_of(text.as_str());
        let ls = crate::hls::split_lines(&c);
        let mut out: Vec<char> = Vec::new();
        let mut i: usize = 0;
        while i < ls.len()
            invariant
                i <= ls@.len(),
                ls@.len() == crate::hls::lines(c@).len(),
                forall|k: int| 0 <= k < ls@.len() ==> #[trigger] ls@[k]@ == crate::hls::lines(c@)[k],
                out@ == segment_lines(crate::hls::lines(c@).take(i as int), base@),
            decreases ls@.len() - i,
        {
            let line = &ls[i];
            let ghost before = out@;
            if line.len() == 0 {
                out.push('\n');
            } else if line[0] == '#' {
                push_chars(&mut out, line);
                out.push('\n');
            } else {
                let seg = crate::text::trim_vec(line);
                push_chars(&mut out, &base);
                if !(seg.len() > 0 && seg[0] == '/') {
                    out.push('/');
                }
                push_chars(&mut out, &seg);
                out.push('\n');
            }
            proof {
                assert(crate::hls::lines(c@).take(i + 1).drop_last() =~= crate::hls::lines(c@).take(i as int));
                assert(out@ =~= before + segment_line(ls@[i as int]@, base@));
            }
            i += 1;
        }
        assert(crate::hls::lines(c@).take(ls@.len() as int) =~= crate::hls::lines(c@));
        string_from_chars(out)
    }
}

// ---------------------------------------------------------------------------
// The programme guide
// ---------------------------------------------------------------------------

/// A guide item of the portal, as parsed: `name`, `descr`, `ch_id` and `id` where they
/// are strings, the timestamps where they are integers.
#[derive(Debug, Clone)]
pub struct EpgItem {
    pub name: Option<String>,
    pub descr: Option<String>,
    pub start_timestamp: Option<i64>,
    pub time: Option<i64>,
    pub stop_timestamp: Option<i64>,
    pub time_to: Option<i64>,
    pub ch_id: Option<String>,
    pub id: Option<String>,
}

pub open spec fn first_some<T>(a: Option<T>, b: Option<T>) -> Option<T> {
    match a {
        Some(x) => Some(x),
        None => b,
    }
}

pub open spec fn int_or_zero(o: Option<i64>) -> i64 {
    match o {
        Some(v) => v,
        None => 0,
    }
}

/// The guide entry of an item: its name, description, channel id (`ch_id`, else `id`)
/// and times (`start_timestamp`, else `time`; `stop_timestamp`, else `time_to`); items
/// without a name give none.
pub open spec fn epg_entry_of(it: EpgItem) -> Option<(Seq<char>, Seq<char>, Seq<char>, i64, i64)> {
    let title = opt_or_empty(it.name);
    if title.len() == 0 {
        None
    } else {
        Some(
            (
                opt_or_empty(first_some(it.ch_id, it.id)),
                title,
                opt_or_empty(it.descr),
                int_or_zero(first_some(it.start_timestamp, it.time)),
                int_or_zero(first_some(it.stop_timestamp, it.time_to)),
            ),
        )
    }
}

pub open spec fn epg_view(e: EpgEntry) -> (Seq<char>, Seq<char>, Seq<char>, i64, i64) {
    (e.channel_id@, e.title@, e.description@, e.start, e.stop)
}

/// The guide entries of the items, in order.
pub open spec fn epg_entries_of(items: Seq<EpgItem>) -> Seq<(Seq<char>, Seq<char>, Seq<char>, i64, i64)>
    decreases items.len(),
{
    if items.len() == 0 {
        Seq::empty()
    } else {
        match epg_entry_of(items.last()) {
            Some(e) => epg_entries_of(items.drop_last()).push(e),
            None => epg_entries_of(items.drop_last()),
        }
    }
}

/// What a guide entry takes from its item: an item with a non-empty name gives one entry
/// with that title; its channel is the item's `ch_id` where it has one, and only
/// otherwise the item's `id` (empty when neither is there); its description is `descr`
/// (or empty); its start is `start_timestamp`, else `time`, else 0; its stop is
/// `stop_timestamp`, else `time_to`, else 0. An item without a name gives none.
pub proof fn law_guide_entry_fields(it: EpgItem)
    ensures
        match it.name {
            Some(n) => if n@.len() > 0 {
                epg_entry_of(it) matches Some(e) && {
                    &&& e.1 == n@
                    &&& it.ch_id matches Some(c) ==> e.0 == c@
                    &&& it.ch_id is None ==> (it.id matches Some(i) ==> e.0 == i@)
                    &&& it.ch_id is None && it.id is None ==> e.0.len() == 0
                    &&& it.descr matches Some(d) ==> e.2 == d@
                    &&& it.descr is None ==> e.2.len() == 0
                    &&& it.start_timestamp matches Some(v) ==> e.3 == v
                    &&& it.start_timestamp is None ==> (it.time matches Some(v) ==> e.3 == v)
                    &&& it.start_timestamp is None && it.time is None ==> e.3 == 0
                    &&& it.stop_timestamp matches Some(v) ==> e.4 == v
                    &&& it.stop_timestamp is None ==> (it.time_to matches Some(v) ==> e.4 == v)
                    &&& it.stop_timestamp is None && it.time_to is None ==> e.4 == 0
                }
            } else {
                epg_entry_of(it) is None
            },
            None => epg_entry_of(it) is None,
        },
{
}

/// The guide entries of two runs of items are those of the first run followed by those
/// of the second: each item gives its entry on its own, in order.
pub proof fn law_guide_entries_in_order(a: Seq<EpgItem>, b: Seq<EpgItem>)
    ensures
        epg_entries_of(a + b) == epg_entries_of(a) + epg_entries_of(b),
    decreases b.len(),
{
    if b.len() == 0 {
        assert(a + b =~= a);
        assert(epg_entries_of(a) + epg_entries_of(b) =~= epg_entries_of(a));
    } else {
        law_guide_entries_in_order(a, b.drop_last());
        assert((a + b).drop_last() =~= a + b.drop_last());
        assert((a + b).last() == b.last());
        match epg_entry_of(b.last()) {
            Some(e) => {
                assert(epg_entries_of(a) + epg_entries_of(b.drop_last()).push(e) =~= (epg_entries_of(a)
                    + epg_entries_of(b.drop_last())).push(e));
            },
            None => {},
        }
    }
}

pub fn epg_entries(items: &Vec<EpgItem>) -> (r: Vec<EpgEntry>)
    ensures
        r@.map_values(|e: EpgEntry| epg_view(e)) == epg_entries_of(items@),
{
    let mut out: Vec<EpgEntry> = Vec::new();
    let mut i: usize = 0;
    while i < items.len()
        invariant
            i <= items.len(),
            out@.map_values(|e: EpgEntry| epg_view(e)) == epg_entries_of(items@.subrange(0, i as int)),
        decreases items.len() - i,
    {
        let ghost after = items@.subrange(0, i + 1);
        assert(after.drop_last() =~= items@.subrange(0, i as int));
        let it = &items[i];
        let title = or_empty(&it.name);
        if chars_of(title.as_str()).len() > 0 {
            let ch = match &it.ch_id {
                Some(c) => c.clone(),
                None => or_empty(&it.id),
            };
            let start = match it.start_timestamp {
                Some(v) => v,
                None => match it.time {
                    Some(v) => v,
                    None => 0,
                },
            };
            let stop = match it.stop_timestamp {
                Some(v) => v,
                None => match it.time_to {
                    Some(v) => v,
                    None => 0,
                },
            };
            let ghost before = out@.map_values(|e: EpgEntry| epg_view(e));
            out.push(EpgEntry { channel_id: ch, title, description: or_empty(&it.descr), start, stop });
            assert(out@.map_values(|e: EpgEntry| epg_view(e)) =~= before.push(epg_entry_of(*it).unwrap()));
        }
        i += 1;
    }
    assert(items@.subrange(0, items@.len() as int) =~= items@);
    out
}


// ---------------------------------------------------------------------------
// The watchdog ping and the API port
// ---------------------------------------------------------------------------

/// The headers of the watchdog ping: accept headers, the model, the bearer token when
/// there is one, and the cookie with the encoded serial, MAC and the account's time zone.
pub open spec fn watchdog_headers_of(w: WatchdogClient) -> Seq<(Seq<char>, Seq<char>)> {
    seq![("Accept"@, "*/*"@), ("Cache-Control"@, "no-cache"@), ("X-User-Agent"@, "Model: "@ + w.model@ + "; Link: Ethernet"@)]
        + (if w.token@.len() > 0 {
        seq![("Authorization"@, "Bearer "@ + w.token@)]
    } else {
        Seq::empty()
    }) + seq![
        ("Cookie"@, "PHPSESSID=null; sn="@ + percent_encode(encode_utf8(w.serial_number@)) + "; mac="@
            + percent_encode(encode_utf8(w.mac@)) + "; stb_lang=en; timezone="@ + percent_encode(
            encode_utf8(w.timezone@),
        ) + ";"@),
    ]
}

impl WatchdogClient {
    /// The address of the watchdog ping.
    pub fn watchdog_url(&self) -> (r: String)
        ensures
            r@ == api_url_of(self.base_url@) + request_query_of(PortalRequest::Watchdog),
    {
        let mut out = chars_of(self.api_url().as_str());
        push_str(
            &mut out,
            "?action=get_events&event_active_id=0&init=0&type=watchdog&cur_play_type=1&JsHttpRequest=1-xml",
        );
        string_from_chars(out)
    }

    /// The form fields of the watchdog ping.
    pub fn watchdog_params(&self) -> (r: Vec<(String, String)>)
        ensures
            crate::proxy::pairs_view(r@) == seq![("mac"@, self.mac@), ("sn"@, self.serial_number@)],
    {
        let r = vec![pair("mac", self.mac.as_str()), pair("sn", self.serial_number.as_str())];
        assert(crate::proxy::pairs_view(r@) =~= seq![("mac"@, self.mac@), ("sn"@, self.serial_number@)]);
        r
    }

    /// The headers of the watchdog ping (see `watchdog_headers_of`).
    pub fn headers(&self) -> (r: Vec<(String, String)>)
        ensures
            crate::proxy::pairs_view(r@) == watchdog_headers_of(*self),
    {
        let mut xua = chars_of("Model: ");
        push_str(&mut xua, self.model.as_str());
        push_str(&mut xua, "; Link: Ethernet");
        let mut r = vec![
            pair("Accept", "*/*"),
            pair("Cache-Control", "no-cache"),
            (string_from_chars(chars_of("X-User-Agent")), string_from_chars(xua)),
        ];
        if chars_of(self.token.as_str()).len() > 0 {
            let mut auth = chars_of("Bearer ");
            push_str(&mut auth, self.token.as_str());
            r.push((string_from_chars(chars_of("Authorization")), string_from_chars(auth)));
        }
        let mut cookie = chars_of("PHPSESSID=null; sn=");
        push_str(&mut cookie, urlencoding(self.serial_number.as_str()).as_str());
        push_str(&mut cookie, "; mac=");
        push_str(&mut cookie, urlencoding(self.mac.as_str()).as_str());
        push_str(&mut cookie, "; stb_lang=en; timezone=");
        push_str(&mut cookie, urlencoding(self.timezone.as_str()).as_str());
        push_str(&mut cookie, ";");
        r.push((string_from_chars(chars_of("Cookie")), string_from_chars(cookie)));
        assert(crate::proxy::pairs_view(r@) =~= watchdog_headers_of(*self));
        r
    }
}

/// The port the API is reached on: 443 in place of 80 or no port (the API address is
/// HTTPS), any other port as it is.
pub fn api_port(port: Option<u16>) -> (r: u16)
    ensures
        r == match port {
            Some(p) => if p == 80 {
                443
            } else {
                p
            },
            None => 443,
        },
{
    match port {
        Some(80) => 443,
        None => 443,
        Some(p) => p,
    }
}

/// Where the API of a portal is reached: the host of its address (empty where it has
/// none) and the API port (see `api_port`); `None` where the address does not parse.
pub open spec fn api_target_of(base_url: Seq<char>) -> Option<(Seq<char>, u16)> {
    match parsed_url(base_url) {
        Some(p) => Some((host_or_empty_of(p.1), match p.2 {
            Some(port) => if port == 80 {
                443
            } else {
                port
            },
            None => 443,
        })),
        None => None,
    }
}

impl PortalClient {
    /// Where the API is reached, for pinning its address (see `api_target_of`).
    pub fn api_target(&self) -> (r: Option<(String, u16)>)
        ensures
            match r {
                Some(t) => api_target_of(self.base_url@) == Some((t.0@, t.1)),
                None => api_target_of(self.base_url@) is None,
            },
    {
        match parse_url(self.base_url.as_str()) {
            Some(p) => Some((p.host_or_empty(), api_port(p.port))),
            None => None,
        }
    }
}

} // verus!
