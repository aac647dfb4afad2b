//! Portal discovery: finding Stalker portals that are not behind Cloudflare by scanning
//! subnets and looking up the domains hosted on an address.
use vstd::prelude::*;
use crate::text::{
    chars_of, string_from_chars, push_str, push_decimal, decimal, slice_vec, contains, contains_vec,
    rfind_char, rfind_char_vec, lemma_rfind_char_props, trim_start_str, trim_start_str_vec,
    str_eq, starts_with,
};

verus! {

/// What discovery found: the best portal, all portals found (best first), and whether
/// any was found.
#[derive(Debug, Clone)]
pub struct DiscoverResult {
    pub best_portal: String,
    pub all_portals: Vec<String>,
    pub discovered: bool,
}

/// The subnets scanned when the portal's own address gives nothing.
pub open spec fn known_subnets() -> Seq<Seq<char>> {
    seq!["103.176.90"@, "185.245.0"@]
}

pub fn known_subnet_list() -> (r: Vec<&'static str>)
    ensures
        r@.map_values(|s: &'static str| s@) == known_subnets(),
{
    let v = vec!["103.176.90", "185.245.0"];
    assert(v@.map_values(|s: &'static str| s@) =~= known_subnets());
    v
}

/// The /24 prefix of a dotted address: everything before its last `.`.
pub open spec fn subnet_of_spec(ip: Seq<char>) -> Seq<char> {
    match rfind_char(ip, '.') {
        Some(pos) => ip.subrange(0, pos),
        None => ip,
    }
}

pub fn subnet_of(ip: &str) -> (r: String)
    ensures
        r@ == subnet_of_spec(ip@),
{
    let v = chars_of(ip);
    proof {
        lemma_rfind_char_props(v@, '.');
    }
    match rfind_char_vec(&v, '.') {
        Some(pos) => string_from_chars(slice_vec(&v, 0, pos)),
        None => string_from_chars(v),
    }
}

/// Whether an IPv4 address lies in Cloudflare's 104.16.0.0/12 or 172.64.0.0/13.
pub open spec fn is_cloudflare_ip_of(a: u8, b: u8) -> bool {
    (a == 104 && 16 <= b && b <= 31) || (a == 172 && 64 <= b && b <= 71)
}

pub fn is_cloudflare_ip(octets: (u8, u8, u8, u8)) -> (r: bool)
    ensures
        r == is_cloudflare_ip_of(octets.0, octets.1),
{
    (octets.0 == 104 && 16 <= octets.1 && octets.1 <= 31) || (octets.0 == 172 && 64 <= octets.1 && octets.1 <= 71)
}

/// The /24 prefix of an address given by its octets.
pub open spec fn subnet_of_octets(a: u8, b: u8, c: u8) -> Seq<char> {
    decimal(a as nat) + seq!['.'] + decimal(b as nat) + seq!['.'] + decimal(c as nat)
}

pub fn octets_subnet(octets: (u8, u8, u8, u8)) -> (r: String)
    ensures
        r@ == subnet_of_octets(octets.0, octets.1, octets.2),
{
    let mut out: Vec<char> = Vec::new();
    push_decimal(&mut out, octets.0 as u64);
    out.push('.');
    push_decimal(&mut out, octets.1 as u64);
    out.push('.');
    push_decimal(&mut out, octets.2 as u64);
    string_from_chars(out)
}

/// The addresses a reverse lookup tries, in order: the address, then `.144` and `.1`
/// of its subnet.
pub open spec fn reverse_candidates_of(ip: Seq<char>) -> Seq<Seq<char>> {
    seq![ip, subnet_of_spec(ip) + ".144"@, subnet_of_spec(ip) + ".1"@]
}

pub fn reverse_candidates(ip: &str) -> (r: Vec<String>)
    ensures
        r@.map_values(|s: String| s@) == reverse_candidates_of(ip@),
{
    let sub = subnet_of(ip);
    let mut a = chars_of(sub.as_str());
    push_str(&mut a, ".144");
    let mut b = chars_of(sub.as_str());
    push_str(&mut b, ".1");
    let r = vec![string_from_chars(chars_of(ip)), string_from_chars(a), string_from_chars(b)];
    assert(r@.map_values(|s: String| s@) =~= reverse_candidates_of(ip@));
    r
}

/// The address of a portal found on a host (`http://host:80`), and the page probed.
pub open spec fn portal_base_of(host: Seq<char>) -> Seq<char> {
    "http://"@ + host + ":80"@
}

pub fn portal_base(host: &str) -> (r: String)
    ensures
        r@ == portal_base_of(host@),
{
    let mut out = chars_of("http://");
    push_str(&mut out, host);
    push_str(&mut out, ":80");
    string_from_chars(out)
}

pub open spec fn probe_url_of(host: Seq<char>) -> Seq<char> {
    "http://"@ + host + "/c/"@
}

pub fn probe_url(host: &str) -> (r: String)
    ensures
        r@ == probe_url_of(host@),
{
    let mut out = chars_of("http://");
    push_str(&mut out, host);
    push_str(&mut out, "/c/");
    string_from_chars(out)
}

/// The host of a found portal address: without the `http://` and `:80` around it.
pub open spec fn sample_host_of(base: Seq<char>) -> Seq<char> {
    crate::text::trim_end_str(trim_start_str(base, "http://"@), ":80"@)
}

pub fn sample_host(base: &str) -> (r: String)
    ensures
        r@ == sample_host_of(base@),
{
    let a = trim_start_str_vec(&chars_of(base), &chars_of("http://"));
    proof {
        reveal_strlit(":80");
    }
    let b = crate::text::trim_end_str_vec(&a, &chars_of(":80"));
    string_from_chars(b)
}

/// The address `i` of a /24 subnet.
pub fn subnet_host(subnet: &str, i: u8) -> (r: String)
    ensures
        r@ == subnet@ + seq!['.'] + decimal(i as nat),
{
    let mut out = chars_of(subnet);
    out.push('.');
    push_decimal(&mut out, i as u64);
    string_from_chars(out)
}

// ---------------------------------------------------------------------------
// Recognising a portal
// ---------------------------------------------------------------------------

/// Whether an answer comes from Cloudflare: a `cf-ray` header, or a `server` header
/// naming it (compared in lower case where `lower` is set).
pub open spec fn is_cloudflare_answer_of(has_cf_ray: bool, server: Option<Seq<char>>, lower: bool) -> bool {
    has_cf_ray || match server {
        Some(s) => contains(if lower {
            crate::proxy::ascii_lower(s)
        } else {
            s
        }, "cloudflare"@),
        None => false,
    }
}

pub fn is_cloudflare_answer(has_cf_ray: bool, server: Option<&str>, lower: bool) -> (r: bool)
    ensures
        r == is_cloudflare_answer_of(has_cf_ray, crate::proxy::opt_str(server), lower),
{
    if has_cf_ray {
        return true;
    }
    match server {
        Some(s) => {
            let v = if lower {
                crate::proxy::ascii_lower_vec(&chars_of(s))
            } else {
                chars_of(s)
            };
            contains_vec(&v, &chars_of("cloudflare"))
        },
        None => false,
    }
}

/// Whether a probe answer is a Stalker portal page: status 200, 401 or 302, not from
/// Cloudflare, and a body of more than 100 bytes with one of the portal's markers.
pub open spec fn is_portal_page_of(status: u16, cloudflare: bool, body: Seq<char>) -> bool {
    (status == 200 || status == 401 || status == 302) && !cloudflare && vstd::utf8::encode_utf8(body).len() > 100
        && (contains(body, "loadRequiredFiles"@) || contains(body, "stb."@) || contains(body, "portal"@))
}

/// Whether a probe answer's status and origin allow a portal page (the part of
/// `is_portal_page_of` known before the body is read).
pub fn portal_status_ok(status: u16, cloudflare: bool) -> (r: bool)
    ensures
        r == ((status == 200 || status == 401 || status == 302) && !cloudflare),
        !r ==> forall|body: Seq<char>| !#[trigger] is_portal_page_of(status, cloudflare, body),
{
    (status == 200 || status == 401 || status == 302) && !cloudflare
}

pub fn is_portal_page(status: u16, cloudflare: bool, body: &str) -> (r: bool)
    ensures
        r == is_portal_page_of(status, cloudflare, body@),
{
    if !((status == 200 || status == 401 || status == 302) && !cloudflare) {
        return false;
    }
    if body.as_bytes().len() <= 100 {
        return false;
    }
    let b = chars_of(body);
    contains_vec(&b, &chars_of("loadRequiredFiles")) || contains_vec(&b, &chars_of("stb.")) || contains_vec(
        &b,
        &chars_of("portal"),
    )
}

/// The handshake paths tried below a portal address, in order.
pub open spec fn handshake_paths() -> Seq<Seq<char>> {
    seq![
        "c/portal.php?type=stb&action=handshake&JsHttpRequest=1-xml"@,
        "portal.php?type=stb&action=handshake&JsHttpRequest=1-xml"@,
    ]
}

/// The handshake requests of a portal check: the addresses and the form body.
pub fn handshake_probe(base_url: &str) -> (r: (Vec<String>, String))
    ensures
        r.0@.map_values(|s: String| s@) == handshake_paths().map_values(|p: Seq<char>| base_url@ + seq!['/'] + p),
        r.1@ == "mac=00:1A:79:00:00:01&sn=0000000000000&stb_type=MAG254"@,
{
    let mut a = chars_of(base_url);
    a.push('/');
    push_str(&mut a, "c/portal.php?type=stb&action=handshake&JsHttpRequest=1-xml");
    let mut b = chars_of(base_url);
    b.push('/');
    push_str(&mut b, "portal.php?type=stb&action=handshake&JsHttpRequest=1-xml");
    let v = vec![string_from_chars(a), string_from_chars(b)];
    assert(v@.map_values(|s: String| s@)[0] == base_url@ + seq!['/'] + handshake_paths()[0]);
    assert(v@.map_values(|s: String| s@)[1] == base_url@ + seq!['/'] + handshake_paths()[1]);
    assert(v@.map_values(|s: String| s@) =~= handshake_paths().map_values(|p: Seq<char>| base_url@ + seq!['/'] + p));
    (v, string_from_chars(chars_of("mac=00:1A:79:00:00:01&sn=0000000000000&stb_type=MAG254")))
}

/// Whether a handshake answer is a portal's: a success status and a `"token"` in the body.
pub fn is_handshake_answer(success: bool, body: &str) -> (r: bool)
    ensures
        r == (success && contains(body@, "\"token\""@)),
{
    success && contains_vec(&chars_of(body), &chars_of("\"token\""))
}

/// The channel request that checks a MAC's subscription: address and form body.
pub open spec fn channel_probe_of(base_url: Seq<char>, mac: Seq<char>) -> (Seq<char>, Seq<char>) {
    (
        base_url + "/c/portal.php?type=itv&action=get_all_channels&JsHttpRequest=1-xml"@,
        "mac="@ + mac + "&sn=0000000000000&stb_type=MAG254&auth_second_step=1&hd=1&not_valid_token=1"@,
    )
}

pub fn channel_probe(base_url: &str, mac: &str) -> (r: (String, String))
    ensures
        (r.0@, r.1@) == channel_probe_of(base_url@, mac@),
{
    let mut u = chars_of(base_url);
    push_str(&mut u, "/c/portal.php?type=itv&action=get_all_channels&JsHttpRequest=1-xml");
    let mut b = chars_of("mac=");
    push_str(&mut b, mac);
    push_str(&mut b, "&sn=0000000000000&stb_type=MAG254&auth_second_step=1&hd=1&not_valid_token=1");
    (string_from_chars(u), string_from_chars(b))
}

// ---------------------------------------------------------------------------
// Domain names in lookup answers
// ---------------------------------------------------------------------------

/// A character allowed in a domain label.
pub open spec fn is_label_char(c: char) -> bool {
    ('a' <= c && c <= 'z') || ('0' <= c && c <= '9') || c == '-'
}

pub open spec fn is_alnum_lower(c: char) -> bool {
    ('a' <= c && c <= 'z') || ('0' <= c && c <= '9')
}

/// A domain label: lower-case letters, digits and inner hyphens.
pub open spec fn is_label(l: Seq<char>) -> bool {
    l.len() > 0 && is_alnum_lower(l[0]) && is_alnum_lower(l.last()) && forall|i: int|
        0 <= i < l.len() ==> is_label_char(#[trigger] l[i])
}

/// A domain name: two or more labels separated by dots
/// (`^[a-z0-9]([a-z0-9-]*[a-z0-9])?(\.[a-z0-9]([a-z0-9-]*[a-z0-9])?)+$`).
pub open spec fn is_domain_name(s: Seq<char>) -> bool {
    let ls = crate::text::split_on(s, '.');
    ls.len() >= 2 && forall|i: int| 0 <= i < ls.len() ==> is_label(#[trigger] ls[i])
}

fn is_label_vec(l: &Vec<char>) -> (r: bool)
    ensures
        r == is_label(l@),
{
    if l.len() == 0 {
        return false;
    }
    let f = l[0];
    let z = l[l.len() - 1];
    if !((('a' <= f && f <= 'z') || ('0' <= f && f <= '9')) && (('a' <= z && z <= 'z') || ('0' <= z && z <= '9'))) {
        return false;
    }
    let mut i: usize = 0;
    while i < l.len()
        invariant
            i <= l.len(),
            forall|j: int| 0 <= j < i ==> is_label_char(#[trigger] l@[j]),
        decreases l.len() - i,
    {
        let c = l[i];
        if !(('a' <= c && c <= 'z') || ('0' <= c && c <= '9') || c == '-') {
            return false;
        }
        i += 1;
    }
    true
}

pub fn domain_name_ok(s: &str) -> (r: bool)
    ensures
        r == is_domain_name(s@),
{
    let ls = crate::text::split_char(s, '.');
    let ghost lv = ls@.map_values(|w: Vec<char>| w@);
    if ls.len() < 2 {
        return false;
    }
    let mut i: usize = 0;
    while i < ls.len()
        invariant
            i <= ls.len(),
            lv == ls@.map_values(|w: Vec<char>| w@),
            lv == crate::text::split_on(s@, '.'),
            forall|j: int| 0 <= j < i ==> is_label(#[trigger] lv[j]),
        decreases ls.len() - i,
    {
        assert(lv[i as int] == ls@[i as int]@);
        if !is_label_vec(&ls[i]) {
            assert(!is_label(lv[i as int]));
            return false;
        }
        i += 1;
    }
    true
}

/// What `str::to_lowercase` gives for a text.
pub uninterp spec fn lowercase_of(s: Seq<char>) -> Seq<char>;

/// Calls `str::to_lowercase`. The contract names the result.
#[verifier::external_body]
fn lowercase(s: &str) -> (r: String)
    ensures
        r@ == lowercase_of(s@),
{
    s.to_lowercase()
}

/// Whether a line of a reverse-lookup answer (trimmed and lower-cased) is a domain:
/// not empty, no error text, no markup, at least four bytes, and a domain name.
pub open spec fn is_domain_line(l: Seq<char>) -> bool {
    l.len() > 0 && !contains(l, "error"@) && !contains(l, "invalid"@) && !contains(l, "API"@) && !starts_with(
        l,
        seq!['<'],
    ) && vstd::utf8::encode_utf8(l).len() >= 4 && contains(l, seq!['.']) && is_domain_name(l)
}

/// The domains of a reverse-lookup answer, one per line, in order.
pub open spec fn domain_lines_of(lines: Seq<Seq<char>>) -> Seq<Seq<char>>
    decreases lines.len(),
{
    if lines.len() == 0 {
        Seq::empty()
    } else {
        let l = lowercase_of(crate::text::trim(lines.last()));
        if is_domain_line(l) {
            domain_lines_of(lines.drop_last()).push(l)
        } else {
            domain_lines_of(lines.drop_last())
        }
    }
}

pub fn domain_lines(body: &str) -> (r: Vec<String>)
    ensures
        r@.map_values(|s: String| s@) == domain_lines_of(crate::hls::lines(body@)),
{
    let c = chars_of(body);
    let ls = crate::hls::split_lines(&c);
    let ghost all = crate::hls::lines(body@);
    let mut out: Vec<String> = Vec::new();
    let mut i: usize = 0;
    while i < ls.len()
        invariant
            i <= ls@.len(),
            c@ == body@,
            all == crate::hls::lines(c@),
            ls@.len() == all.len(),
            forall|k: int| 0 <= k < ls@.len() ==> #[trigger] ls@[k]@ == all[k],
            out@.map_values(|s: String| s@) == domain_lines_of(all.take(i as int)),
        decreases ls@.len() - i,
    {
        assert(all.take(i + 1).drop_last() =~= all.take(i as int));
        assert(all.take(i + 1).last() == ls@[i as int]@);
        let t = string_from_chars(crate::text::trim_vec(&ls[i]));
        let l = lowercase(t.as_str());
        let lc = chars_of(l.as_str());
        let dot: Vec<char> = vec!['.'];
        assert(dot@ =~= seq!['.']);
        let ok = lc.len() > 0 && !contains_vec(&lc, &chars_of("error")) && !contains_vec(&lc, &chars_of("invalid"))
            && !contains_vec(&lc, &chars_of("API")) && !(lc[0] == '<') && l.as_str().as_bytes().len() >= 4
            && contains_vec(&lc, &dot) && domain_name_ok(l.as_str());
        proof {
            let v = lc@;
            if v.len() > 0 {
                assert(v.subrange(0, 1) =~= seq![v[0]]);
                assert(seq![v[0]][0] == v[0]);
                if v[0] == '<' {
                    assert(v.subrange(0, 1) =~= seq!['<']);
                }
            }
            assert(ok == is_domain_line(l@));
        }
        if ok {
            let ghost before = out@.map_values(|s: String| s@);
            out.push(l);
            assert(out@.map_values(|s: String| s@) =~= before.push(lowercase_of(crate::text::trim(all[i as int]))));
        }
        i += 1;
    }
    assert(all.take(all.len() as int) =~= all);
    out
}


// ---------------------------------------------------------------------------
// The result
// ---------------------------------------------------------------------------

/// A found portal: its address and how long it took to answer (any unit, smaller is
/// faster).
pub type Found = (Seq<char>, u64);

pub open spec fn found_view(v: Seq<(String, u64)>) -> Seq<Found> {
    v.map_values(|p: (String, u64)| (p.0@, p.1))
}

/// Where a portal answering in time `t` goes among portals sorted by time: after all
/// that were as fast or faster.
pub open spec fn insert_pos(sorted: Seq<Found>, t: u64) -> int
    decreases sorted.len(),
{
    if sorted.len() == 0 {
        0
    } else if sorted.last().1 <= t {
        sorted.len() as int
    } else {
        insert_pos(sorted.drop_last(), t)
    }
}

/// The portals sorted by answer time, keeping the order of equally fast ones.
pub open spec fn sort_by_time(s: Seq<Found>) -> Seq<Found>
    decreases s.len(),
{
    if s.len() == 0 {
        Seq::empty()
    } else {
        let sorted = sort_by_time(s.drop_last());
        sorted.insert(insert_pos(sorted, s.last().1), s.last())
    }
}

/// The portals without repeats of the address just before (the first of a run stays).
pub open spec fn dedup_by_url(s: Seq<Found>) -> Seq<Found>
    decreases s.len(),
{
    if s.len() <= 1 {
        s
    } else {
        let prev = dedup_by_url(s.drop_last());
        if prev.last().0 == s.last().0 {
            prev
        } else {
            prev.push(s.last())
        }
    }
}

proof fn lemma_insert_pos_bound(sorted: Seq<Found>, t: u64)
    ensures
        0 <= insert_pos(sorted, t) <= sorted.len(),
    decreases sorted.len(),
{
    if sorted.len() > 0 && sorted.last().1 > t {
        lemma_insert_pos_bound(sorted.drop_last(), t);
    }
}

proof fn lemma_dedup_nonempty(s: Seq<Found>)
    ensures
        s.len() > 0 ==> dedup_by_url(s).len() > 0,
        s.len() == 0 ==> dedup_by_url(s).len() == 0,
    decreases s.len(),
{
    if s.len() > 1 {
        lemma_dedup_nonempty(s.drop_last());
    }
}

/// The portal addresses as reported: each followed by `/c/`.
pub open spec fn portal_entries(s: Seq<Found>) -> Seq<Seq<char>> {
    s.map_values(|p: Found| p.0 + "/c/"@)
}

/// What discovery reports: domain portals where there are any, else the bare addresses,
/// sorted by answer time without repeated neighbours, each as `address/c/`; the first is
/// the best, else the portal asked about.
pub open spec fn discover_result_of(portal_url: Seq<char>, domains: Seq<Found>, ips: Seq<Found>) -> (Seq<char>, Seq<Seq<char>>, bool) {
    let chosen = if domains.len() == 0 {
        ips
    } else {
        domains
    };
    let all = portal_entries(dedup_by_url(sort_by_time(chosen)));
    (if all.len() > 0 {
        all[0]
    } else {
        portal_url
    }, all, all.len() > 0)
}

pub open spec fn result_view(r: DiscoverResult) -> (Seq<char>, Seq<Seq<char>>, bool) {
    (r.best_portal@, r.all_portals@.map_values(|s: String| s@), r.discovered)
}

fn sorted_by_time(v: &Vec<(String, u64)>) -> (r: Vec<(String, u64)>)
    ensures
        found_view(r@) == sort_by_time(found_view(v@)),
{
    let mut out: Vec<(String, u64)> = Vec::new();
    let mut i: usize = 0;
    while i < v.len()
        invariant
            i <= v.len(),
            found_view(out@) == sort_by_time(found_view(v@).subrange(0, i as int)),
        decreases v.len() - i,
    {
        let ghost pre = found_view(v@).subrange(0, i as int);
        let ghost post = found_view(v@).subrange(0, i + 1);
        assert(post.drop_last() =~= pre);
        assert(post.last() == (v@[i as int].0@, v@[i as int].1));
        let t = v[i].1;
        let mut j: usize = out.len();
        assert(found_view(out@).subrange(0, j as int) =~= found_view(out@));
        while j > 0 && out[j - 1].1 > t
            invariant
                j <= out.len(),
                insert_pos(found_view(out@), t) == insert_pos(found_view(out@).subrange(0, j as int), t),
            decreases j,
        {
            let ghost sub = found_view(out@).subrange(0, j as int);
            assert(sub.drop_last() =~= found_view(out@).subrange(0, j - 1));
            assert(sub.last().1 == out@[j - 1].1);
            j -= 1;
        }
        proof {
            let sub = found_view(out@).subrange(0, j as int);
            if j > 0 {
                assert(sub.last().1 == out@[j - 1].1);
            }
            lemma_insert_pos_bound(found_view(out@), t);
        }
        let ghost before = found_view(out@);
        let item = (v[i].0.clone(), t);
        out.insert(j, item);
        assert(found_view(out@) =~= before.insert(j as int, post.last()));
        i += 1;
    }
    assert(found_view(v@).subrange(0, v@.len() as int) =~= found_view(v@));
    out
}

fn dedup_urls(v: Vec<(String, u64)>) -> (r: Vec<(String, u64)>)
    ensures
        found_view(r@) == dedup_by_url(found_view(v@)),
{
    let mut out: Vec<(String, u64)> = Vec::new();
    let mut i: usize = 0;
    while i < v.len()
        invariant
            i <= v.len(),
            found_view(out@) == dedup_by_url(found_view(v@).subrange(0, i as int)),
        decreases v.len() - i,
    {
        let ghost pre = found_view(v@).subrange(0, i as int);
        let ghost post = found_view(v@).subrange(0, i + 1);
        assert(post.drop_last() =~= pre);
        assert(post.last() == (v@[i as int].0@, v@[i as int].1));
        proof {
            lemma_dedup_nonempty(pre);
        }
        if out.len() == 0 {
            out.push((v[i].0.clone(), v[i].1));
            assert(post =~= seq![post.last()]);
            assert(found_view(out@) =~= post);
        } else {
            let same = str_eq(out[out.len() - 1].0.as_str(), v[i].0.as_str());
            assert(found_view(out@).last() == (out@[out@.len() - 1].0@, out@[out@.len() - 1].1));
            if !same {
                let ghost before = found_view(out@);
                out.push((v[i].0.clone(), v[i].1));
                assert(found_view(out@) =~= before.push(post.last()));
            }
        }
        i += 1;
    }
    assert(found_view(v@).subrange(0, v@.len() as int) =~= found_view(v@));
    out
}

/// The result of discovery from the portals found (see `discover_result_of`).
pub fn discover_result(portal_url: &str, domains: &Vec<(String, u64)>, ips: &Vec<(String, u64)>) -> (r: DiscoverResult)
    ensures
        result_view(r) == discover_result_of(portal_url@, found_view(domains@), found_view(ips@)),
{
    let chosen = if domains.len() == 0 {
        ips
    } else {
        domains
    };
    let sorted = sorted_by_time(chosen);
    let kept = dedup_urls(sorted);
    let ghost kv = found_view(kept@);
    let mut all: Vec<String> = Vec::new();
    let mut i: usize = 0;
    while i < kept.len()
        invariant
            i <= kept.len(),
            kv == found_view(kept@),
            all@.map_values(|s: String| s@) == portal_entries(kv.subrange(0, i as int)),
        decreases kept.len() - i,
    {
        assert(kv[i as int] == (kept@[i as int].0@, kept@[i as int].1));
        let mut u = chars_of(kept[i].0.as_str());
        push_str(&mut u, "/c/");
        let ghost before = all@.map_values(|s: String| s@);
        all.push(string_from_chars(u));
        assert(portal_entries(kv.subrange(0, i + 1)) =~= portal_entries(kv.subrange(0, i as int)).push(kv[i as int].0 + "/c/"@));
        assert(all@.map_values(|s: String| s@) =~= portal_entries(kv.subrange(0, i + 1)));
        i += 1;
    }
    assert(kv.subrange(0, kv.len() as int) =~= kv);
    let best = if all.len() > 0 {
        all[0].clone()
    } else {
        string_from_chars(chars_of(portal_url))
    };
    let discovered = all.len() > 0;
    DiscoverResult { best_portal: best, all_portals: all, discovered }
}


// ---------------------------------------------------------------------------
// Domains in a lookup service's JSON answer
// ---------------------------------------------------------------------------

/// The end of the run of label characters of `s` from `i`.
pub open spec fn label_run_end(s: Seq<char>, i: int) -> int
    decreases s.len() - i,
{
    if 0 <= i < s.len() && is_label_char(s[i]) {
        label_run_end(s, i + 1)
    } else {
        i
    }
}

/// The end of the run of lower-case letters of `s` from `i`.
pub open spec fn alpha_run_end(s: Seq<char>, i: int) -> int
    decreases s.len() - i,
{
    if 0 <= i < s.len() && 'a' <= s[i] && s[i] <= 'z' {
        alpha_run_end(s, i + 1)
    } else {
        i
    }
}

/// A domain quoted as the first item of a JSON pair at position `p`
/// (`\["([a-z0-9]([a-z0-9-]*[a-z0-9])?\.[a-z]{2,})"`): the domain and where the match
/// ends.
pub open spec fn quoted_domain_at(s: Seq<char>, p: int) -> Option<(Seq<char>, int)> {
    if 0 <= p && p + 2 <= s.len() && s[p] == '[' && s[p + 1] == '"' {
        let k = label_run_end(s, p + 2);
        if k > p + 2 && is_alnum_lower(s[p + 2]) && is_alnum_lower(s[k - 1]) && k < s.len() && s[k] == '.' {
            let e = alpha_run_end(s, k + 1);
            if e - k >= 3 && e < s.len() && s[e] == '"' {
                Some((s.subrange(p + 2, e), e + 1))
            } else {
                None
            }
        } else {
            None
        }
    } else {
        None
    }
}

/// The quoted domains of `s` from position `i`, left to right without overlaps.
pub open spec fn quoted_domains_from(s: Seq<char>, i: int) -> Seq<Seq<char>>
    decreases s.len() - i,
{
    if i < 0 || i >= s.len() {
        Seq::empty()
    } else {
        match quoted_domain_at(s, i) {
            Some((d, e)) => if e > i {
                seq![d] + quoted_domains_from(s, e)
            } else {
                Seq::empty()
            },
            None => quoted_domains_from(s, i + 1),
        }
    }
}

/// Each text once, where it first occurs.
pub open spec fn first_occurrences(v: Seq<Seq<char>>) -> Seq<Seq<char>>
    decreases v.len(),
{
    if v.len() == 0 {
        Seq::empty()
    } else {
        let prev = first_occurrences(v.drop_last());
        if prev.contains(v.last()) {
            prev
        } else {
            prev.push(v.last())
        }
    }
}

/// The domains of a lookup service's answer (`{"domainArray":[["domain.com",""],...]}`),
/// each once.
pub open spec fn quoted_domains_of(body: Seq<char>) -> Seq<Seq<char>> {
    first_occurrences(quoted_domains_from(body, 0))
}

fn label_run(s: &Vec<char>, i: usize) -> (r: usize)
    requires
        i <= s.len(),
    ensures
        r as int == label_run_end(s@, i as int),
        i <= r <= s.len(),
{
    let mut k = i;
    while k < s.len() && (('a' <= s[k] && s[k] <= 'z') || ('0' <= s[k] && s[k] <= '9') || s[k] == '-')
        invariant
            i <= k <= s.len(),
            label_run_end(s@, i as int) == label_run_end(s@, k as int),
        decreases s.len() - k,
    {
        k += 1;
    }
    k
}

fn alpha_run(s: &Vec<char>, i: usize) -> (r: usize)
    requires
        i <= s.len(),
    ensures
        r as int == alpha_run_end(s@, i as int),
        i <= r <= s.len(),
{
    let mut k = i;
    while k < s.len() && 'a' <= s[k] && s[k] <= 'z'
        invariant
            i <= k <= s.len(),
            alpha_run_end(s@, i as int) == alpha_run_end(s@, k as int),
        decreases s.len() - k,
    {
        k += 1;
    }
    k
}

fn quoted_domain(s: &Vec<char>, p: usize) -> (r: Option<(Vec<char>, usize)>)
    requires
        p < s.len(),
    ensures
        match r {
            Some((d, e)) => quoted_domain_at(s@, p as int) == Some((d@, e as int)),
            None => quoted_domain_at(s@, p as int) is None,
        },
{
    if !(p < s.len() - 1 && s[p] == '[' && s[p + 1] == '"') {
        return None;
    }
    let k = label_run(s, p + 2);
    if !(k > p + 2 && (('a' <= s[p + 2] && s[p + 2] <= 'z') || ('0' <= s[p + 2] && s[p + 2] <= '9'))
        && (('a' <= s[k - 1] && s[k - 1] <= 'z') || ('0' <= s[k - 1] && s[k - 1] <= '9')) && k < s.len()
        && s[k] == '.') {
        return None;
    }
    let e = alpha_run(s, k + 1);
    if e - k >= 3 && e < s.len() && s[e] == '"' {
        Some((slice_vec(s, p + 2, e), e + 1))
    } else {
        None
    }
}

pub fn quoted_domains(body: &str) -> (r: Vec<String>)
    ensures
        r@.map_values(|d: String| d@) == quoted_domains_of(body@),
{
    let s = chars_of(body);
    let mut found: Vec<Vec<char>> = Vec::new();
    let mut i: usize = 0;
    while i < s.len()
        invariant
            i <= s.len(),
            s@ == body@,
            quoted_domains_from(s@, 0) == found@.map_values(|d: Vec<char>| d@) + quoted_domains_from(s@, i as int),
        decreases s.len() - i,
    {
        match quoted_domain(&s, i) {
            Some((d, e)) => {
                let ghost before = found@.map_values(|d: Vec<char>| d@);
                let ghost dv = d@;
                found.push(d);
                assert(found@.map_values(|d: Vec<char>| d@) =~= before.push(dv));
                assert(before + quoted_domains_from(s@, i as int) =~= before.push(dv) + quoted_domains_from(s@, e as int));
                i = e;
            },
            None => {
                i += 1;
            },
        }
    }
    assert(quoted_domains_from(s@, i as int) =~= Seq::<Seq<char>>::empty());
    assert(found@.map_values(|d: Vec<char>| d@) + Seq::<Seq<char>>::empty() =~= found@.map_values(|d: Vec<char>| d@));
    let ghost fv = found@.map_values(|d: Vec<char>| d@);
    let mut out: Vec<String> = Vec::new();
    let mut j: usize = 0;
    while j < found.len()
        invariant
            j <= found.len(),
            fv == found@.map_values(|d: Vec<char>| d@),
            out@.map_values(|d: String| d@) == first_occurrences(fv.subrange(0, j as int)),
        decreases found.len() - j,
    {
        let ghost pre = fv.subrange(0, j as int);
        let ghost post = fv.subrange(0, j + 1);
        assert(post.drop_last() =~= pre);
        assert(post.last() == found@[j as int]@);
        let ghost ov = out@.map_values(|d: String| d@);
        let cand = string_from_chars(slice_vec(&found[j], 0, found[j].len()));
        assert(cand@ =~= found@[j as int]@);
        let mut seen = false;
        let mut k: usize = 0;
        while k < out.len()
            invariant
                k <= out.len(),
                ov == out@.map_values(|d: String| d@),
                seen == (exists|t: int| 0 <= t < k && ov[t] == cand@),
            decreases out.len() - k,
        {
            assert(ov[k as int] == out@[k as int]@);
            if str_eq(out[k].as_str(), cand.as_str()) {
                seen = true;
            }
            k += 1;
        }
        if !seen {
            out.push(cand);
            assert(out@.map_values(|d: String| d@) =~= ov.push(post.last()));
        } else {
            proof {
                let t = choose|t: int| 0 <= t < k && ov[t] == cand@;
                assert(ov[t] == post.last());
                assert(ov.contains(post.last()));
            }
        }
        j += 1;
    }
    assert(fv.subrange(0, fv.len() as int) =~= fv);
    out
}


// ---------------------------------------------------------------------------
// Order of the reported portals
// ---------------------------------------------------------------------------

pub open spec fn time_sorted(s: Seq<Found>) -> bool {
    forall|i: int, j: int| 0 <= i < j < s.len() ==> s[i].1 <= s[j].1
}

proof fn lemma_insert_sorted(s: Seq<Found>, x: Found)
    requires
        time_sorted(s),
    ensures
        time_sorted(s.insert(insert_pos(s, x.1), x)),
    decreases s.len(),
{
    lemma_insert_pos_bound(s, x.1);
    let p = insert_pos(s, x.1);
    let r = s.insert(p, x);
    if s.len() > 0 && s.last().1 > x.1 {
        let t = s.drop_last();
        assert(time_sorted(t));
        lemma_insert_sorted(t, x);
        lemma_insert_pos_bound(t, x.1);
        assert(r =~= t.insert(p, x).push(s.last()));
        let tr = t.insert(p, x);
        assert forall|i: int, j: int| 0 <= i < j < r.len() implies r[i].1 <= r[j].1 by {
            if j == r.len() - 1 {
                if i == p {
                    assert(r[i] == x);
                } else if i < p {
                    assert(r[i] == s[i]);
                } else {
                    assert(r[i] == s[i - 1]);
                }
            } else {
                assert(r[i] == tr[i] && r[j] == tr[j]);
            }
        }
    } else {
        assert forall|i: int, j: int| 0 <= i < j < r.len() implies r[i].1 <= r[j].1 by {
            if s.len() > 0 {
                assert(p == s.len());
                if j == s.len() {
                    assert(r[i] == s[i]);
                    assert(s[i].1 <= s.last().1);
                } else {
                    assert(r[i] == s[i] && r[j] == s[j]);
                }
            }
        }
    }
}

proof fn lemma_sort_sorted(s: Seq<Found>)
    ensures
        time_sorted(sort_by_time(s)),
        sort_by_time(s).len() == s.len(),
    decreases s.len(),
{
    if s.len() > 0 {
        lemma_sort_sorted(s.drop_last());
        lemma_insert_sorted(sort_by_time(s.drop_last()), s.last());
        lemma_insert_pos_bound(sort_by_time(s.drop_last()), s.last().1);
    }
}

/// No address directly follows itself.
pub open spec fn no_adjacent_repeats(s: Seq<Found>) -> bool {
    forall|i: int, j: int| #![trigger s[i], s[j]] 0 <= i && j == i + 1 && j < s.len() ==> s[i].0 != s[j].0
}

proof fn lemma_dedup_props(s: Seq<Found>)
    requires
        time_sorted(s),
    ensures
        time_sorted(dedup_by_url(s)),
        no_adjacent_repeats(dedup_by_url(s)),
        s.len() > 0 ==> dedup_by_url(s).len() > 0 && dedup_by_url(s).last().0 == s.last().0,
        forall|i: int| 0 <= i < dedup_by_url(s).len() ==> exists|j: int| 0 <= j < s.len() && #[trigger] dedup_by_url(s)[i] == s[j],
    decreases s.len(),
{
    if s.len() > 1 {
        let t = s.drop_last();
        assert(time_sorted(t));
        lemma_dedup_props(t);
        lemma_dedup_nonempty(t);
        let p = dedup_by_url(t);
        let d = dedup_by_url(s);
        assert forall|i: int| 0 <= i < p.len() implies exists|j: int| 0 <= j < s.len() && #[trigger] p[i] == s[j] by {
            let j = choose|j: int| 0 <= j < t.len() && p[i] == t[j];
            assert(t[j] == s[j]);
        }
        if p.last().0 != s.last().0 {
            assert(d == p.push(s.last()));
            assert forall|i: int, k: int| 0 <= i < k < d.len() implies d[i].1 <= d[k].1 by {
                if k == d.len() - 1 {
                    assert(d[i] == p[i]);
                    let j = choose|j: int| 0 <= j < s.len() && p[i] == s[j];
                    assert(s[j].1 <= s[s.len() - 1].1 || j == s.len() - 1);
                } else {
                    assert(d[i] == p[i] && d[k] == p[k]);
                }
            }
            assert forall|i: int, j: int| #![trigger d[i], d[j]] 0 <= i && j == i + 1 && j < d.len() implies d[i].0 != d[j].0 by {
                if j == d.len() - 1 {
                    assert(d[i] == p.last());
                } else {
                    assert(d[i] == p[i] && d[j] == p[j]);
                }
            }
            assert forall|i: int| 0 <= i < d.len() implies exists|j: int| 0 <= j < s.len() && #[trigger] d[i] == s[j] by {
                if i == d.len() - 1 {
                    assert(d[i] == s[s.len() - 1]);
                } else {
                    assert(d[i] == p[i]);
                }
            }
        }
    } else if s.len() == 1 {
        assert(dedup_by_url(s) == s);
        assert forall|i: int| 0 <= i < dedup_by_url(s).len() implies exists|j: int| 0 <= j < s.len() && #[trigger] dedup_by_url(s)[i] == s[j] by {
            assert(dedup_by_url(s)[i] == s[i]);
        }
    }
}

/// The portals discovery reports come fastest first, and no address follows itself.
pub proof fn law_discovered_fastest_first(domains: Seq<Found>, ips: Seq<Found>)
    ensures
        ({
            let chosen = if domains.len() == 0 {
                ips
            } else {
                domains
            };
            let r = dedup_by_url(sort_by_time(chosen));
            &&& time_sorted(r)
            &&& no_adjacent_repeats(r)
        }),
{
    let chosen = if domains.len() == 0 {
        ips
    } else {
        domains
    };
    lemma_sort_sorted(chosen);
    lemma_dedup_props(sort_by_time(chosen));
}

} // verus!
