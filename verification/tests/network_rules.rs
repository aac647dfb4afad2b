use stalkerhek_engine::address::{api_url, connect_target, parsed_host, portal_api_base, redirect_target, url_host, url_origin};
use stalkerhek_engine::discover::{
    discover_result, domain_lines, is_cloudflare_answer, is_cloudflare_ip, is_handshake_answer, is_portal_page, portal_status_ok,
    known_subnet_list, octets_subnet, quoted_domains, reverse_candidates, sample_host, subnet_of, channel_probe,
};
use stalkerhek_engine::dns::{
    answer_ips, doh_query_url, european_blocks, get_random_european_identity, get_random_european_ip,
    get_sticky_accept_language, get_sticky_country_code, get_sticky_european_identity, clear_sticky_identity, parse_ipv4,
    timezone_query_url, ExpiringCache, IdentityCache, IdentityEntry,
};
use stalkerhek_engine::mag::{mag_headers, scrub_metrics, apply_mag_headers};

fn s(x: &str) -> String {
    x.to_string()
}

#[test]
fn url_parts() {
    assert_eq!(parsed_host("http://Portal.Example.com:8080/c/"), Some(s("portal.example.com")));
    assert_eq!(connect_target("http://Portal.Example.com:8080/c/"), Some((s("portal.example.com"), 8080)));
    assert_eq!(connect_target("https://a.tv/"), Some((s("a.tv"), 443)));
    assert_eq!(connect_target("http://a.tv/"), Some((s("a.tv"), 80)));
    assert_eq!(connect_target("mailto:x@y.z"), Some((s(""), 443)));
    assert_eq!(connect_target("not a url"), None);
    assert_eq!(parsed_host("not a url"), None);
    assert_eq!(parsed_host("mailto:x@y.z"), None);
    assert_eq!(api_url("http://a.tv:80/c/"), "https://a.tv/portal.php");
    assert_eq!(api_url("junk"), "https:///portal.php");
    assert_eq!(portal_api_base("https://a.tv/c/"), "https://a.tv/portal.php");
    assert_eq!(portal_api_base("junk"), "junk");
    assert_eq!(url_host("http://a.tv/x"), "a.tv");
    assert_eq!(url_origin("http://185.245.0.132:80/live/play/T"), "http://185.245.0.132");
}

#[test]
fn redirects() {
    assert_eq!(redirect_target("http://a/x/y", "https://b/z"), "https://b/z");
    assert_eq!(redirect_target("http://a/x/y", "/z?q=1"), "http://a/z?q=1");
    assert_eq!(redirect_target("http://a/x/y", "w"), "http://a/x/w");
    assert_eq!(redirect_target("bad", "w"), "w");
}

#[test]
fn european_identities() {
    let blocks = european_blocks();
    assert_eq!(blocks.len(), 22);
    assert_eq!(blocks[0].prefix, "85.214");
    assert_eq!(blocks[21].tz, "Europe/Berlin");
    let (ip, tz) = get_random_european_identity();
    let b = blocks.iter().find(|b| ip.starts_with(&format!("{}.", b.prefix)) && b.tz == tz);
    assert!(b.is_some());
    let ip2 = get_random_european_ip();
    assert_eq!(ip2.split('.').count(), 4);
}

#[test]
fn block_table_spans_ten_countries() {
    let blocks = european_blocks();
    let mut countries: Vec<&str> = blocks.iter().map(|b| b.country).collect();
    countries.sort();
    countries.dedup();
    assert_eq!(countries, vec!["BE", "DE", "ES", "FR", "GB", "IT", "NL", "PL", "PT", "SE"]);
    let mut prefixes: Vec<&str> = blocks.iter().map(|b| b.prefix).collect();
    prefixes.sort();
    prefixes.dedup();
    assert_eq!(prefixes.len(), 22);
    for a in blocks.iter() {
        assert!(a.tz.starts_with("Europe/"));
        assert!(a.country.len() == 2 && a.country.chars().all(|c| c.is_ascii_uppercase()));
        for b in blocks.iter().filter(|b| b.country == a.country) {
            assert_eq!((a.tz, a.lang), (b.tz, b.lang));
        }
    }
}

#[test]
fn identity_is_sticky_until_cleared() {
    let mut cache = IdentityCache::new();
    let (ip1, tz1) = get_sticky_european_identity(&mut cache, "portal.tv");
    let (ip2, tz2) = get_sticky_european_identity(&mut cache, "portal.tv");
    assert_eq!((ip1.clone(), tz1.clone()), (ip2, tz2));
    let lang = get_sticky_accept_language(&mut cache, "portal.tv");
    let country = get_sticky_country_code(&mut cache, "portal.tv");
    let block = european_blocks()
        .into_iter()
        .find(|b| ip1.starts_with(&format!("{}.", b.prefix)))
        .unwrap();
    assert_eq!((block.tz, block.lang, block.country), (tz1.as_str(), lang.as_str(), country.as_str()));
    clear_sticky_identity(&mut cache, "portal.tv");
    let de = |ip: &str, expires: u64| IdentityEntry {
        ip: s(ip),
        tz: s("Europe/Berlin"),
        expires,
        accept_lang: s("de-DE,de;q=0.9,en;q=0.8"),
        country_code: s("DE"),
    };
    let e = cache.identity_at("portal.tv", 50, de("85.214.1.2", 100));
    assert_eq!(e.ip, "85.214.1.2");
    assert_eq!(cache.identity_at("portal.tv", 99, de("85.214.9.9", 500)).ip, "85.214.1.2");
    assert_eq!(cache.identity_at("portal.tv", 100, de("85.214.8.8", 500)).ip, "85.214.8.8");
}

#[test]
fn dns_over_https_queries() {
    assert_eq!(
        doh_query_url("https://dns.google/resolve", "portal.tv", "85.214.1.2"),
        "https://dns.google/resolve?name=portal.tv&type=A&edns_client_subnet=85.214.1.2/24"
    );
    assert_eq!(parse_ipv4("104.16.1.2"), Some((104, 16, 1, 2)));
    assert_eq!(parse_ipv4("01.2.3.4"), None);
    assert_eq!(parse_ipv4("256.1.1.1"), None);
    assert_eq!(parse_ipv4("1.2.3"), None);
    assert_eq!(answer_ips(&vec![s("1.1.1.1"), s("::1"), s("x"), s("0.0.0.0")]), vec![(1, 1, 1, 1), (0, 0, 0, 0)]);
    assert_eq!(timezone_query_url("85.214"), "http://ip-api.com/json/85.214.0.1?fields=timezone");
}

#[test]
fn mag_identity_headers() {
    let h = mag_headers("tok", "SN", "MAC", "MAG254", "85.214.1.1", "Europe/Berlin");
    assert_eq!(h.len(), 14);
    assert_eq!(h[0].1, "Mozilla/5.0 (QtEmbedded; U; Linux; C) AppleWebKit/533.3 (KHTML, like Gecko) MAG254 stbapp ver: 4 rev: 2034 Mobile Safari/533.3");
    assert_eq!(h[3], (s("Cookie"), s("PHPSESSID=null; sn=SN; mac=MAC; stb_lang=en; timezone=Europe/Berlin;")));
    assert_eq!(h[8], (s("X-Forwarded-For"), s("85.214.1.1")));
    let r = apply_mag_headers("tok", "SN", "MAC", "MAG254");
    assert_eq!(r[2], (s("Authorization"), s("Bearer tok")));
}

#[test]
fn metrics_are_scrubbed() {
    let mut q = vec![
        (s("metrics"), s(r#"{"mac":"AA","sn":"BOX","model":"x"}"#)),
        (s("metrics"), s("not json")),
        (s("other"), s(r#"{"mac":"AA"}"#)),
    ];
    scrub_metrics(&mut q, "SN1", "00:1A");
    let v: serde_json::Value = serde_json::from_str(&q[0].1).unwrap();
    assert_eq!(v["mac"], "00:1A");
    assert_eq!(v["sn"], "SN1");
    assert_eq!(v["ver"], "Image_0.2.18-r14-254");
    assert_eq!(v["model"], "x");
    assert_eq!(q[1].1, "not json");
    assert_eq!(q[2].1, r#"{"mac":"AA"}"#);
}

#[test]
fn discovery_helpers() {
    assert_eq!(subnet_of("103.176.90.139"), "103.176.90");
    assert_eq!(subnet_of("nodots"), "nodots");
    assert!(is_cloudflare_ip((104, 20, 1, 1)));
    assert!(is_cloudflare_ip((172, 67, 0, 1)));
    assert!(!is_cloudflare_ip((185, 245, 0, 132)));
    assert_eq!(octets_subnet((185, 245, 0, 132)), "185.245.0");
    assert_eq!(reverse_candidates("1.2.3.4"), vec![s("1.2.3.4"), s("1.2.3.144"), s("1.2.3.1")]);
    assert_eq!(sample_host("http://1.2.3.4:80"), "1.2.3.4");
    assert_eq!(known_subnet_list(), vec!["103.176.90", "185.245.0"]);
    assert!(is_cloudflare_answer(false, Some("CloudFlare"), true));
    assert!(!is_cloudflare_answer(false, Some("CloudFlare"), false));
    let page = format!("{}loadRequiredFiles", "x".repeat(100));
    assert!(is_portal_page(401, false, &page));
    assert!(!is_portal_page(401, true, &page));
    assert!(!is_portal_page(200, false, "portal"));
    assert!(is_handshake_answer(true, r#"{"js":{"token":"x"}}"#));
    assert_eq!(channel_probe("http://h:80", "M").0, "http://h:80/c/portal.php?type=itv&action=get_all_channels&JsHttpRequest=1-xml");
}

#[test]
fn reverse_lookup_answers() {
    let body = "portal.example.com\nError check\n  Sub.Domain.TV \n<html>\nbad_domain.com\n-bad.com\nab\nx.yz\n";
    assert_eq!(domain_lines(body), vec![s("portal.example.com"), s("sub.domain.tv"), s("x.yz")]);
    let json = r#"{"domainArray":[["one.com",""],["two.tv",""],["one.com",""],["a.b.com",""],["x.c",""]]}"#;
    assert_eq!(quoted_domains(json), vec![s("one.com"), s("two.tv")]);
}

#[test]
fn discovery_result_prefers_fast_domains() {
    let domains = vec![(s("http://b:80"), 30), (s("http://a:80"), 10), (s("http://a:80"), 10)];
    let r = discover_result("http://orig/c/", &domains, &vec![(s("http://1.2.3.4:80"), 1)]);
    assert!(r.discovered);
    assert_eq!(r.best_portal, "http://a:80/c/");
    assert_eq!(r.all_portals, vec![s("http://a:80/c/"), s("http://b:80/c/")]);
    let r = discover_result("http://orig/c/", &vec![], &vec![]);
    assert!(!r.discovered);
    assert_eq!(r.best_portal, "http://orig/c/");
}

#[test]
fn portal_status_gate() {
    assert!(portal_status_ok(200, false));
    assert!(portal_status_ok(401, false));
    assert!(portal_status_ok(302, false));
    assert!(!portal_status_ok(404, false));
    assert!(!portal_status_ok(200, true));
}

#[test]
fn cache_keeps_for_lifetime() {
    let mut c: ExpiringCache<String> = ExpiringCache::new();
    c.keep("h", s("Europe/Berlin"), 1000, 3600);
    assert_eq!(c.fresh_value("h", 1000), Some(s("Europe/Berlin")));
    assert_eq!(c.fresh_value("h", 4599), Some(s("Europe/Berlin")));
    assert_eq!(c.fresh_value("h", 4600), None);
    assert_eq!(c.fresh_value("x", 1000), None);
    c.keep("late", s("UTC"), u64::MAX - 1, 10);
    assert_eq!(c.fresh_value("late", u64::MAX - 1), Some(s("UTC")));
    assert_eq!(c.fresh_value("late", u64::MAX), None);
}
