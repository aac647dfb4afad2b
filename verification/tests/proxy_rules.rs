use stalkerhek_engine::hls::{fetch_step, FetchStep, MAX_FETCH_REDIRECTS};
use stalkerhek_engine::filter::FilterStore;
use stalkerhek_engine::proxy::{
    error_substitute, extract_stream_id, find_channel_for_cmd, fixed_body, forward_request_header,
    forward_response_header, generate_create_link_response, handshake_response, is_api_request, list_channels,
    list_rewrite, local_categories, local_stream_url, ordered_list, page_bounds, page_param,
    portal_categories, portal_channels, portal_root, portal_root_path, query_string, referer_for,
    origin_for, refreshed_cmd, retry_create_link_url, route_request, upstream_params, upstream_url,
    watchdog_response, CategoryItem, ChannelItem, DeviceIdentity, HopAction, HopEvent, ListRewrite, PortalQuery,
    ProxyRoute, next_hop, refresh_after_answer,
};
use stalkerhek_engine::stalker::Channel;

fn s(x: &str) -> String {
    x.to_string()
}

fn ch(title: &str, cmd: &str, genre: &str) -> Channel {
    Channel {
        title: s(title),
        cmd: s(cmd),
        logo: s(""),
        genre_id: s(genre),
        genre: s("G"),
        cmd_id: s("11"),
        cmd_ch_id: s("22"),
    }
}

#[test]
fn stream_id_from_command() {
    assert_eq!(extract_stream_id("ffmpeg http://h/live.php?mac=x&stream=691402&extension=ts"), "691402");
    assert_eq!(extract_stream_id("ffmpeg http://h/live.php?stream=&x"), "");
    assert_eq!(extract_stream_id("ffmpeg http://h/1"), "");
}

#[test]
fn create_link_answer_escapes_slashes_after_scheme() {
    assert_eq!(
        generate_create_link_response("http://192.168.1.2:4600/BBC%20One", "5", "77"),
        r#"{"js":{"id":"5","cmd":"http://192.168.1.2:4600\/BBC%20One","streamer_id":0,"link_id":77,"load":0,"error":""},"text":""}"#
    );
    assert_eq!(
        generate_create_link_response("a/b", "", "x"),
        r#"{"js":{"id":"","cmd":"a\/b","streamer_id":0,"link_id":0,"load":0,"error":""},"text":""}"#
    );
}

#[test]
fn local_stream_address() {
    assert_eq!(local_stream_url(Some("192.168.1.5:4800"), "0.0.0.0:4600", "BBC One"), "http://192.168.1.5:4600/BBC%20One");
    assert_eq!(local_stream_url(None, "0.0.0.0:4602", "A"), "http://localhost:4602/A");
}

#[test]
fn answers_the_proxy_gives_itself() {
    assert_eq!(
        handshake_response("tok"),
        r#"{"js":{"token":"tok","random":"b8c4ef93de04e675350605eb0086bffe51507b88e6a1662e71fe9372"},"text":"generated in: 0.01s"}"#
    );
    assert_eq!(
        watchdog_response(1, 42),
        r#"{"js":{"data":{"msgs":0,"additional_services_on":"1","cur_play_type":"1","event_active_id":42,"id":42},"text":"generated in: 0.01s"}}"#
    );
    assert_eq!(fixed_body(ProxyRoute::DoAuth).unwrap(), r#"{"js":true,"text":"Authenticated"}"#);
    assert_eq!(fixed_body(ProxyRoute::FavChannels).unwrap(), r#"{"js": {"data": []}}"#);
    assert!(fixed_body(ProxyRoute::Forward).is_none());
}

#[test]
fn routing_of_box_requests() {
    assert_eq!(route_request("/favicon.ico", Some("handshake"), None, false, true), ProxyRoute::NotFound);
    assert_eq!(route_request("/c/", Some("handshake"), Some("stb"), false, true), ProxyRoute::Handshake);
    assert_eq!(route_request("/c/", Some("get_events"), Some("watchdog"), false, true), ProxyRoute::WatchdogEvents);
    assert_eq!(route_request("/c/", Some("get_events"), Some("log"), false, true), ProxyRoute::EventLog);
    assert_eq!(route_request("/c/", Some("get_events"), Some("x"), false, true), ProxyRoute::Forward);
    assert_eq!(route_request("/c/", Some("get_all_channels"), Some("itv"), false, true), ProxyRoute::AllChannels);
    assert_eq!(route_request("/c/", Some("get_categories"), Some("series"), false, true), ProxyRoute::SeriesCategories);
    assert_eq!(route_request("/c/", Some("create_link"), Some("itv"), true, true), ProxyRoute::CreateLink);
    assert_eq!(route_request("/c/", Some("create_link"), Some("itv"), true, false), ProxyRoute::Forward);
    assert_eq!(route_request("/c/", None, None, false, true), ProxyRoute::Forward);
}

#[test]
fn upstream_parameters_carry_engine_identity() {
    let q = PortalQuery {
        media_type: Some(s("itv")),
        action: Some(s("get_ordered_list")),
        cmd: None,
        sn: Some(s("BOXSN")),
        device_id: None,
        device_id2: Some(s("BOXD2")),
        signature: Some(s("BOXSIG")),
        extra: vec![
            (s("stb_type"), s("MAG250")),
            (s("genre"), s("10")),
            (s("p"), s("2")),
            (s("token"), s("undefined")),
            (s("metrics"), s("{}")),
            (s("JsHttpRequest"), s("1-xml")),
        ],
    };
    let id = DeviceIdentity {
        serial_number: s("SN1"),
        mac: s("00:1A:79:00:00:01"),
        model: s("MAG254"),
        device_id: s("D1"),
        device_id2: s("D2"),
    };
    let p = upstream_params(&q, &id);
    let expect: Vec<(String, String)> = vec![
        (s("type"), s("itv")),
        (s("action"), s("get_ordered_list")),
        (s("sn"), s("SN1")),
        (s("device_id2"), s("D2")),
        (s("signature"), "f".repeat(64)),
        (s("mac"), s("00:1A:79:00:00:01")),
        (s("stb_type"), s("MAG254")),
        (s("genre"), s("10")),
        (s("p"), s("2")),
        (s("JsHttpRequest"), s("1-xml")),
    ];
    assert_eq!(p, expect);
    assert_eq!(query_string(&vec![(s("a"), s("x y")), (s("b"), s("1/2"))]), "a=x%20y&b=1%2F2");
    assert_eq!(page_param(&q.extra), 2);
}

#[test]
fn upstream_addresses() {
    let params = vec![(s("type"), s("itv"))];
    assert_eq!(upstream_url(&params, "http://portal.tv/c/", true, "/c/portal.php", "/c/", "http://portal.tv/c/"), "http://portal.tv/portal.php?type=itv");
    assert_eq!(upstream_url(&params, "http://portal.tv/c/", false, "/x", "/c/", "http://portal.tv/c/"), "http://portal.tv/c/?type=itv");
    assert_eq!(upstream_url(&vec![], "b", false, "/c/xpcom.common.js", "/c/", "http://portal.tv/c/"), "http://portal.tv/c/xpcom.common.js");
    assert_eq!(upstream_url(&vec![], "b", false, "/c/", "/c/", "http://portal.tv/c/"), "http://portal.tv/c/");
    assert_eq!(portal_root("http://portal.tv/c/index.html"), "http://portal.tv/c/");
    assert_eq!(portal_root_path("http://portal.tv/stalker_portal/c/"), "/stalker_portal/c/");
    assert_eq!(portal_root_path("portal"), "/");
    assert_eq!(referer_for("https://a.tv/c/portal.php?x", "http://b/"), "https://a.tv/");
    assert_eq!(referer_for("nowhere", "http://b.tv/c//"), "http://b.tv/c/");
    assert_eq!(origin_for("https://a.tv/"), "https://a.tv");
}

#[test]
fn header_filters() {
    assert!(!forward_request_header("Cookie"));
    assert!(!forward_request_header("content-type"));
    assert!(forward_request_header("X-User-Agent"));
    assert!(!forward_response_header("Transfer-Encoding"));
    assert!(forward_response_header("content-type"));
}

#[test]
fn failed_answers_are_replaced() {
    let (ok, body) = error_substitute("get_ordered_list", "vod").unwrap();
    assert!(ok);
    assert_eq!(body, r#"{"js":{"cur_page":1,"data":[],"max_page_items":14,"selected_item":0,"total_items":0}}"#);
    let (ok, body) = error_substitute("get_genres", "itv").unwrap();
    assert!(!ok);
    assert_eq!(body, r#"{"js":[]}"#);
    assert!(error_substitute("get_genres", "vod").is_none());
}

#[test]
fn cached_channel_list_pages() {
    let mut f = FilterStore::new();
    f.set_channel_disabled(1, s("c2"), true);
    f.set_rename(1, s("UK: "), s(""));
    let chs = vec![
        ch("UK: One", "ffmpeg http://h/live.php?stream=1", "1"),
        ch("Two", "c2", "1"),
        ch("UK: #### SPORT ####", "c3", "1"),
        ch("Four", "ffmpeg http://h/live.php?stream=4", "1"),
    ];
    let l = list_channels(&chs, &f, 1);
    assert_eq!(l.len(), 2);
    assert_eq!((l[0].id.as_str(), l[0].name.as_str(), l[0].number, l[0].source), ("1", "One", 1, 0));
    assert_eq!((l[1].id.as_str(), l[1].name.as_str(), l[1].number, l[1].source), ("4", "Four", 3, 3));
    assert_eq!(page_bounds(30, 0), (0, 14));
    assert_eq!(page_bounds(30, 2), (28, 30));
    assert_eq!(page_bounds(30, 5), (30, 30));
}

#[test]
fn channel_for_create_link() {
    let chs = vec![ch("A", "ffmpeg http://h/live.php?stream=5&x", "1"), ch("B", "ffmpeg http://h/b", "1")];
    assert_eq!(find_channel_for_cmd(&chs, "ffmpeg http://h/b"), Some(1));
    assert_eq!(find_channel_for_cmd(&chs, "ffmpeg http://other/live.php?stream=5"), Some(0));
    assert_eq!(find_channel_for_cmd(&chs, "ffmpeg http://other/x"), None);
}

#[test]
fn portal_list_answers_are_filtered() {
    let mut f = FilterStore::new();
    f.set_genre_disabled(1, s("3"), true);
    f.set_genre_rename(1, s("4"), s("News"));
    f.set_rename(1, s("X "), s(""));
    let cats = vec![
        CategoryItem { id: s("*"), id_is_text: true, title: s("All"), is_object: true },
        CategoryItem { id: s("3"), id_is_text: true, title: s("Off"), is_object: true },
        CategoryItem { id: s("4"), id_is_text: true, title: s("Nws"), is_object: true },
        CategoryItem { id: s("5"), id_is_text: false, title: s("Num"), is_object: true },
        CategoryItem { id: s(""), id_is_text: false, title: s("None"), is_object: true },
    ];
    assert_eq!(portal_categories(&cats, &f, 1), vec![(2, Some(s("News"))), (3, None)]);
    assert_eq!(local_categories(&cats, &f, 1), vec![(2, Some(s("News"))), (3, Some(s("Num"))), (4, Some(s("None")))]);
    let items = vec![
        ChannelItem { cmd: s("c1"), genre_id: s("3"), name: s("X a"), name_is_text: true },
        ChannelItem { cmd: s("c2"), genre_id: s("4"), name: s("X b"), name_is_text: true },
        ChannelItem { cmd: s("c3"), genre_id: s("4"), name: s("#sep"), name_is_text: true },
    ];
    assert_eq!(portal_channels(&items, &f, 1), vec![(1, Some(s("b")))]);
    assert_eq!(ordered_list(&vec![Some(s("X #1")), None, Some(s("X c"))], &f, 1), vec![(1, None), (2, Some(s("c")))]);
    assert_eq!(list_rewrite("get_ordered_list", "series"), Some(ListRewrite::OrderedList));
    assert_eq!(list_rewrite("get_categories", "itv"), None);
}

#[test]
fn create_link_retry_request() {
    let chs = vec![ch("BBC", "ffmpeg http://h/live.php?stream=9", "1")];
    assert_eq!(refreshed_cmd(&chs, "BBC"), "ffmpeg http://h/live.php?stream=9");
    assert_eq!(refreshed_cmd(&chs, "zzz"), "zzz");
    assert_eq!(
        retry_create_link_url("http://p/c/portal.php", "ffmpeg http://h/live.php?stream=9"),
        "http://p/c/portal.php?action=create_link&type=itv&cmd=ffmpeg%20http%3A%2F%2Fh%2Flive.php%3Fstream%3D9&JsHttpRequest=1-xml"
    );
}

#[test]
fn api_requests_are_recognised() {
    assert!(is_api_request("/portal.php", None, None));
    assert!(is_api_request("/server/load.php", None, None));
    assert!(is_api_request("/c/", Some("itv"), None));
    assert!(is_api_request("/c/", None, Some("handshake")));
    assert!(!is_api_request("/c/index.html", None, None));
    assert!(!is_api_request("/c/xpcom.common.js", None, None));
}

#[test]
fn redirect_loop_steps() {
    let moved = HopEvent::Answered { status: 302, location: Some(Some(s("/c/portal.php?x=1"))) };
    assert_eq!(next_hop(0, "http://a.tv/c/x", &moved), HopAction::Follow(s("http://a.tv/c/portal.php?x=1")));
    assert_eq!(next_hop(200, "http://a.tv/c/x", &moved), HopAction::Deliver);
    let bad = HopEvent::Answered { status: 301, location: Some(None) };
    assert_eq!(next_hop(3, "http://a.tv/", &bad), HopAction::GiveUp);
    let no_loc = HopEvent::Answered { status: 302, location: None };
    assert_eq!(next_hop(3, "http://a.tv/", &no_loc), HopAction::Deliver);
    let ok = HopEvent::Answered { status: 200, location: Some(Some(s("/x"))) };
    assert_eq!(next_hop(3, "http://a.tv/", &ok), HopAction::Deliver);
    assert_eq!(next_hop(199, "http://a.tv/", &HopEvent::Failed), HopAction::RetryAfterPause);
    assert_eq!(next_hop(200, "http://a.tv/", &HopEvent::Failed), HopAction::GiveUp);
    assert!(refresh_after_answer(458, Some("create_link")));
    assert!(!refresh_after_answer(458, Some("get_ordered_list")));
    assert!(!refresh_after_answer(200, Some("create_link")));
}

#[test]
fn stream_fetch_redirect_steps() {
    assert_eq!(
        fetch_step(0, "https://a.tv/play/1.m3u8", 302, Some(Some(s("/cdn/1.m3u8")))),
        FetchStep::Follow(s("https://a.tv/cdn/1.m3u8"))
    );
    assert_eq!(
        fetch_step(5, "https://a.tv/play/1.m3u8", 307, Some(Some(s("http://b.tv/x.ts")))),
        FetchStep::Follow(s("http://b.tv/x.ts"))
    );
    assert_eq!(fetch_step(5, "https://a.tv/", 301, Some(None)), FetchStep::Fail);
    assert_eq!(fetch_step(5, "https://a.tv/", 301, None), FetchStep::Deliver);
    assert_eq!(fetch_step(5, "https://a.tv/", 200, Some(Some(s("/x")))), FetchStep::Deliver);
    assert_eq!(fetch_step(MAX_FETCH_REDIRECTS, "https://a.tv/", 302, Some(Some(s("/x")))), FetchStep::Deliver);
    assert_eq!(fetch_step(MAX_FETCH_REDIRECTS - 1, "https://a.tv/", 302, Some(Some(s("/x")))), FetchStep::Follow(s("https://a.tv/x")));
}
