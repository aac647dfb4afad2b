use stalkerhek_engine::stalker::{playlist_step, portal_playlist, streamer_playlist, streamer_refused, PlaylistStep};
use stalkerhek_engine::dns::IdentityCache;
use stalkerhek_engine::stalker::{
    channels_from_data, device_auth_result, epg_entries, is_geo_blocked, is_playlist, keep_category,
    logo_url, model_fingerprint, playlist_url, repaired_mac, retry_delay_secs, streamer_answered,
    streamer_fallback_ips, urlencoding, user_agent, user_pass_result, api_port, AuthReply, Channel,
    ChannelData, EpgItem, PortalClient, PortalRequest, ProfileId,
};

fn s(x: &str) -> String {
    x.to_string()
}

fn client(device_id: &str) -> PortalClient {
    PortalClient::new(
        s("http://portal.example.com/c/"),
        s("00:1a:79:12:34:56"),
        s(""),
        s(""),
        s("SN123"),
        s(device_id),
        s(""),
        s("sig"),
        s("MAG254"),
        s("Europe/Berlin"),
        true,
    )
}

#[test]
fn new_client_branches_identity() {
    let c = client("DEV");
    assert_eq!(c.mac, "00:1A:79:12:34:56");
    assert_eq!(c.serial_number, "SN123B");
    assert_eq!(c.device_id, "DEVB");
    assert_eq!(c.device_id2, "");
    assert_eq!(c.token, "");
    assert_eq!(c.incarnation, 0);
    assert_eq!(c.api_url(), "https://portal.example.com/portal.php");
}

#[test]
fn mac_repair_pads_with_infomir_oui() {
    assert_eq!(repaired_mac("001a79aabbcc", 0), "00:1A:79:AA:BB:CC");
    assert_eq!(repaired_mac("12:34:56:78", 1), "00:1E:5F:34:56:78");
    assert_eq!(repaired_mac("xyz", 3), "C8:2E:46:AB:CD:EF");
    let r = PortalClient::repair_mac("1234");
    assert!(["00:1A:79:AB:CD:EF", "00:1E:5F:AB:CD:EF", "08:00:28:AB:CD:EF", "C8:2E:46:AB:CD:EF"].contains(&r.as_str()));
}

#[test]
fn hardware_version_is_sha1_of_mac() {
    assert_eq!(PortalClient::calculate_hw_version("00:1A:79:00:00:01"), "d0840df5de82186edd17121fe132ae02056d561f");
    assert_eq!(PortalClient::calculate_hw_version(""), "da39a3ee5e6b4b0d3255bfef95601890afd80709");
}

#[test]
fn encrypted_links_are_decrypted_with_the_device_id() {
    let c = client("ffffffffffffffffffffffffffffffff");
    assert_eq!(c.device_id, "ffffffffffffffffffffffffffffffffB");
    let hex = "f0973c61c11b15c26e25040af48d8ae67b4393c1230cb79d9c3a2655a08814d7dc97e37c6386341a5be9d884a7093416";
    assert_eq!(c.decrypt_link(hex), "http://example.com/live/stream.ts");
    assert_eq!(c.link_from_reply(&format!(" ffmpeg {} ", hex)), "http://example.com/live/stream.ts");
    let short = client("abc");
    let mut k = short.clone();
    k.device_id = s("abc");
    assert_eq!(k.decrypt_link("aa9f7918e329bf8f74f471134d659957"), "hello world");
    assert_eq!(k.decrypt_link("zz"), "zz");
    assert_eq!(k.decrypt_link("00ff"), "00ff");
    assert_eq!(k.decrypt_link("abc"), "abc");
    assert_eq!(k.decrypt_link("aa9f7918e329bf8f74f471134d6599571"), "aa9f7918e329bf8f74f471134d6599571");
    let odd = "aa9f7918e329bf8f74f471134d6599571";
    assert_eq!(k.link_from_reply(&format!("ffmpeg {}", odd)), odd);
}

#[test]
fn create_link_request_and_reply() {
    let c = client("d");
    assert_eq!(
        c.create_link_body("ffmpeg http://h/live.php?stream=12&x=1"),
        "cmd=ffmpeg http://h/live.php?stream=12&x=1&mac=00%3A1A%3A79%3A12%3A34%3A56&sn=SN123B&stb_type=MAG254&stream=12"
    );
    assert_eq!(c.create_link_body("ffmpeg http://h/1"), "cmd=ffmpeg http://h/1&mac=00%3A1A%3A79%3A12%3A34%3A56&sn=SN123B&stb_type=MAG254");
    assert_eq!(c.link_from_reply("ffmpeg http://cdn/x.ts "), "http://cdn/x.ts");
    assert_eq!(c.link_from_reply(""), "");
    assert_eq!(
        c.request_url(&PortalRequest::Categories(s("vod"))),
        "https://portal.example.com/portal.php?action=get_categories&type=vod&JsHttpRequest=1-xml"
    );
    assert_eq!(
        c.request_url(&PortalRequest::EpgChannel(s("ffmpeg http://h/1"))),
        "https://portal.example.com/portal.php?type=itv&action=get_epg_info&period=5&cmd=ffmpeg%20http%3A%2F%2Fh%2F1&JsHttpRequest=1-xml"
    );
    let p = c.form_params(&PortalRequest::Handshake);
    assert_eq!(p, vec![(s("mac"), s("00:1A:79:12:34:56")), (s("sn"), s("SN123B")), (s("stb_type"), s("MAG254"))]);
    assert!(c.uses_device_id_auth());
}

#[test]
fn request_headers() {
    let mut c = client("d");
    c.token = s("T");
    let h = c.headers_with("PAD", "Europe/Paris");
    assert_eq!(h[4], (s("X-DPI-Padding"), s("PAD")));
    assert_eq!(h[5], (s("X-User-Agent"), s("Model: MAG254; Link: Ethernet")));
    assert_eq!(h[6], (s("Authorization"), s("Bearer T")));
    assert_eq!(h[7], (s("Cookie"), s("PHPSESSID=null; sn=SN123B; mac=00%3A1A%3A79%3A12%3A34%3A56; stb_lang=en; timezone=Europe%2FParis;")));
    let mut ids = IdentityCache::new();
    let h2 = c.headers(&mut ids);
    assert_eq!(h2.len(), 8);
    let pad = &h2[4].1;
    assert!(pad.len() >= 32 && pad.len() < 128);
    assert!(pad.chars().all(|ch| ch >= '!' && ch < '~'));
}

#[test]
fn sign_in_answers() {
    let base = AuthReply {
        body_empty: false,
        parsed: true,
        as_bool: None,
        is_object: true,
        js_token: Some(s("abc")),
        js_id: None,
        js_has_token: true,
        token: None,
        text: Some(s("Welcome")),
    };
    assert_eq!(user_pass_result(&base), Ok(s("Welcome")));
    let mut r = base.clone();
    r.js_token = Some(s(""));
    r.text = None;
    assert_eq!(user_pass_result(&r), Err(s("Invalid credentials")));
    r.body_empty = true;
    r.parsed = false;
    assert_eq!(user_pass_result(&r), Ok(s("authenticated")));
    assert_eq!(device_auth_result(&ProfileId::Number, "Bob"), Ok(s("Bob")));
    assert_eq!(device_auth_result(&ProfileId::Text(s("")), "Bob"), Err(s("Device ID auth failed")));
}

#[test]
fn channels_from_portal_data() {
    let data = vec![
        ChannelData { name: s("BBC"), cmd: s("c1"), logo: None, tv_genre_id: Some(s("2")), first_cmd: Some((Some(s("9")), None)) },
        ChannelData { name: s("## UK ##"), cmd: s("c2"), logo: None, tv_genre_id: None, first_cmd: None },
        ChannelData { name: s("X"), cmd: s("c3"), logo: Some(s("x.png")), tv_genre_id: Some(s("7")), first_cmd: None },
    ];
    let genres = vec![(s("2"), s("News")), (s("2"), s("UK News"))];
    let chs: Vec<Channel> = channels_from_data(&data, &genres);
    assert_eq!(chs.len(), 2);
    assert_eq!((chs[0].title.as_str(), chs[0].genre.as_str(), chs[0].cmd_id.as_str(), chs[0].cmd_ch_id.as_str()), ("BBC", "UK News", "9", ""));
    assert_eq!((chs[1].logo.as_str(), chs[1].genre.as_str()), ("x.png", "Other"));
    assert!(!keep_category(true, &Some(s("#x"))));
    assert!(keep_category(false, &Some(s("#x"))));
}

#[test]
fn stream_playlists() {
    assert_eq!(playlist_url("http://h:80/play/live.php?stream=1&extension=ts"), "https://h/play/live.php?stream=1&extension=m3u8");
    assert!(is_geo_blocked(458) && is_geo_blocked(444) && !is_geo_blocked(403));
    assert!(streamer_answered(302) && !streamer_answered(404));
    assert_eq!(streamer_fallback_ips().1.len(), 3);
    assert!(is_playlist(b"#EXTM3U\n#EXTINF"));
    assert!(!is_playlist(b"<html>"));
    let out = PortalClient::rewrite_hls_segments(b"#EXTM3U\nseg1.ts\n/abs/seg2.ts\n\n", "http://1.2.3.4:80/");
    assert_eq!(out, "#EXTM3U\nhttp://1.2.3.4:80/seg1.ts\nhttp://1.2.3.4:80/abs/seg2.ts\n\n");
    assert_eq!(PortalClient::rewrite_hls_segments(&[0xff, 0xfe], "http://x"), "");
}

#[test]
fn guide_entries() {
    let items = vec![
        EpgItem { name: Some(s("News")), descr: None, start_timestamp: None, time: Some(10), stop_timestamp: Some(20), time_to: Some(99), ch_id: None, id: Some(s("5")) },
        EpgItem { name: None, descr: Some(s("x")), start_timestamp: None, time: None, stop_timestamp: None, time_to: None, ch_id: None, id: None },
    ];
    let e = epg_entries(&items);
    assert_eq!(e.len(), 1);
    assert_eq!((e[0].channel_id.as_str(), e[0].title.as_str(), e[0].description.as_str(), e[0].start, e[0].stop), ("5", "News", "", 10, 20));
}

#[test]
fn small_rules() {
    assert_eq!(retry_delay_secs(0), 1);
    assert_eq!(retry_delay_secs(3), 8);
    assert_eq!(api_port(Some(80)), 443);
    assert_eq!(api_port(None), 443);
    assert_eq!(api_port(Some(8080)), 8080);
    assert_eq!(urlencoding("a b"), "a%20b");
    assert_eq!(model_fingerprint("MAG322").webkit_ver, "602.1");
    assert_eq!(user_agent("MAG250", 2034), "Mozilla/5.0 (QtEmbedded; U; Linux; C) AppleWebKit/533.3 (KHTML, like Gecko) MAG250 stbapp ver: 2 rev: 2034 Mobile Safari/533.3");
    assert_eq!(logo_url("http://p/stalker_portal/c/", "1.png"), "http://p/stalker_portal/misc/logos/320/1.png");
    assert_eq!(logo_url("http://p/c", "http://x/1.png"), "http://x/1.png");
    assert_eq!(logo_url("http://p/c", ""), "");
}

#[test]
fn reborn_forgets_identity() {
    let mut c = client("d");
    c.token = s("T");
    let mut ids = IdentityCache::new();
    let _ = c.headers(&mut ids);
    c.reborn(&mut ids);
    assert_eq!(c.incarnation, 1);
    assert_eq!(c.token, "");
    let w = c.clone_for_watchdog();
    assert_eq!(w.api_url(), "https://portal.example.com/portal.php");
}

#[test]
fn well_formed_mac_is_kept() {
    for k in 0..4 {
        assert_eq!(repaired_mac("00:1A:79:12:AB:EF", k), "00:1A:79:12:AB:EF");
        assert_eq!(repaired_mac("00-1a-79-12-ab-ef", k), "00:1A:79:12:AB:EF");
    }
    let r = PortalClient::repair_mac("C8:2E:46:00:00:01");
    assert_eq!(r, "C8:2E:46:00:00:01");
}

#[test]
fn api_target_uses_https_port() {
    let mut c = client("DEV");
    assert_eq!(c.api_target(), Some((s("portal.example.com"), 443)));
    c.base_url = s("http://portal.example.com:8080/c/");
    assert_eq!(c.api_target(), Some((s("portal.example.com"), 8080)));
    c.base_url = s("http://portal.example.com:80/c/");
    assert_eq!(c.api_target(), Some((s("portal.example.com"), 443)));
    c.base_url = s("junk");
    assert_eq!(c.api_target(), None);
}

#[test]
fn user_agent_follows_the_serial_number() {
    let a = stalkerhek_engine::stalker::client_user_agent("MAG254", &s("SN1"));
    let b = stalkerhek_engine::stalker::client_user_agent("MAG254", &s("SN1"));
    assert_eq!(a, b);
    let rev: u32 = a.split(" rev: ").nth(1).unwrap().split(' ').next().unwrap().parse().unwrap();
    assert!((2000..2200).contains(&rev));
}

#[test]
fn playlist_answer_steps() {
    assert_eq!(
        playlist_step(302, Some(Some(s("http://185.245.0.132:80/live/play/TOKEN/1.m3u8")))),
        PlaylistStep::AskStreamer(s("http://185.245.0.132:80/live/play/TOKEN/1.m3u8"))
    );
    assert_eq!(playlist_step(302, Some(None)), PlaylistStep::AskStreamer(s("")));
    assert_eq!(playlist_step(302, None), PlaylistStep::ReadBody);
    assert_eq!(playlist_step(301, Some(Some(s("http://x/")))), PlaylistStep::ReadBody);
    assert_eq!(playlist_step(200, None), PlaylistStep::ReadBody);
    assert!(streamer_refused(400));
    assert!(streamer_refused(503));
    assert!(!streamer_refused(399));
    assert!(!streamer_refused(200));
    assert_eq!(
        streamer_playlist(b"#EXTM3U\nseg1.ts\n/abs/seg2.ts\n", "http://185.245.0.132:80/live/play/TOKEN/1.m3u8"),
        "#EXTM3U\nhttp://185.245.0.132/seg1.ts\nhttp://185.245.0.132/abs/seg2.ts\n"
    );
    assert_eq!(portal_playlist(b"#EXTM3U\n#EXT-X-VERSION:3\n".to_vec()), Some(b"#EXTM3U\n#EXT-X-VERSION:3\n".to_vec()));
    assert_eq!(portal_playlist(Vec::new()), None);
    assert_eq!(portal_playlist(b"<html>458</html>".to_vec()), None);
}
