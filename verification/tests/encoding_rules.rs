use stalkerhek_engine::encoding::{url_decode, url_encode};
use stalkerhek_engine::hls::{channel_path, rewrite_m3u8, upgrade_to_https, get_hls_root_for_url, segment_url, scheme_from_request, host_from_request};
use stalkerhek_engine::text::{split_words, split_char};

#[test]
fn url_encode_escapes_all_but_unreserved() {
    assert_eq!(url_encode("BBC One/HD"), "BBC%20One%2FHD");
    assert_eq!(url_encode("a-b_c.d~e"), "a-b_c.d~e");
    assert_eq!(url_encode("é"), "%C3%A9");
}

#[test]
fn url_decode_reads_escapes_and_plus() {
    assert_eq!(url_decode("BBC%20One%2FHD"), "BBC One/HD");
    assert_eq!(url_decode("a+b"), "a b");
    assert_eq!(url_decode("100%"), "100%");
    assert_eq!(url_decode("%zz!"), "%zz!");
    assert_eq!(url_decode("%C3%A9"), "é");
}

#[test]
fn url_round_trip() {
    for t in ["Sky Sports 1 HD", "ÄÖÜ news", "a/b?c=d&e", ""] {
        assert_eq!(url_decode(&url_encode(t)), t);
    }
}

#[test]
fn channel_path_splits_title_and_segment() {
    let (t, rest) = channel_path("BBC%20One/seg-1.ts");
    assert_eq!(t, "BBC One");
    assert_eq!(rest, "seg-1.ts");
    let (t, rest) = channel_path(&url_encode("A/B"));
    assert_eq!(t, "A/B");
    assert_eq!(rest, "");
}

#[test]
fn rewrite_m3u8_points_segments_here() {
    let src = "#EXTM3U\r\n#EXT-X-KEY:METHOD=AES-128,URI=\"/key/1\"\n\nseg1.ts\n /abs/seg2.ts \n";
    let out = rewrite_m3u8(src, "http", "box:4600", "BBC One");
    assert_eq!(
        out,
        "#EXTM3U\n#EXT-X-KEY:METHOD=AES-128,URI=\"http://box:4600/BBC%20One/key/1\"\n\nhttp://box:4600/BBC%20One/seg1.ts\nhttp://box:4600/BBC%20One/abs/seg2.ts\n"
    );
}

#[test]
fn https_upgrade_and_roots() {
    assert_eq!(upgrade_to_https("http://h:80/live.php?x=1"), "https://h/live.php?x=1");
    assert_eq!(upgrade_to_https("http://h:80?x"), "https://h?x");
    assert_eq!(upgrade_to_https("http://h.tv:80/live/a.ts?x=1"), "https://h.tv/live/a.ts?x=1");
    assert_eq!(upgrade_to_https("http://h.tv:80?t=1"), "https://h.tv?t=1");
    assert_eq!(upgrade_to_https("http://h.tv/a:80/b"), "https://h.tv/a:80/b");
    assert_eq!(upgrade_to_https("http://h.tv:80"), "https://h.tv");
    assert_eq!(upgrade_to_https("http://h.tv:8080/x"), "https://h.tv:8080/x");
    assert_eq!(upgrade_to_https("https://h.tv:80/x"), "https://h.tv/x");
    assert_eq!(get_hls_root_for_url("http://h/a/b/index.m3u8?t=1"), "http://h/a/b/");
    assert_eq!(get_hls_root_for_url("http://h/a/b/stream.ts"), "http://h/a/b/stream.ts");
    assert_eq!(segment_url("http://h:80/a/index.m3u8", "seg.ts"), "https://h/a/seg.ts");
    assert_eq!(segment_url("http://h:80/a/index.m3u8", ""), "https://h/a/index.m3u8");
}

#[test]
fn request_scheme_and_host() {
    assert_eq!(scheme_from_request(Some("https, http")), "https");
    assert_eq!(scheme_from_request(None), "http");
    assert_eq!(host_from_request(Some(" a.example , b"), Some("c")), "a.example");
    assert_eq!(host_from_request(None, Some("c:1")), "c:1");
    assert_eq!(host_from_request(None, None), "localhost");
}

#[test]
fn words_and_pieces() {
    let w: Vec<String> = split_words("  ffmpeg  http://a/b \t x ").iter().map(|v| v.iter().collect()).collect();
    assert_eq!(w, vec!["ffmpeg", "http://a/b", "x"]);
    let p: Vec<String> = split_char("1.2..3", '.').iter().map(|v| v.iter().collect()).collect();
    assert_eq!(p, vec!["1", "2", "", "3"]);
}
