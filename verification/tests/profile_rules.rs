use stalkerhek_engine::filter::FilterStore;
use stalkerhek_engine::profile::{
    app_categories, bind_addr, create_profile, default_ports_fit_for, find_profile, lowest_profile_id, remove_profile, running_status,
    store_profile, ui_channels, watchdog_period_secs, CreateProfileRequest, ProfileConfig, ProfileStatus,
};
use stalkerhek_engine::proxy::CategoryItem;
use stalkerhek_engine::stalker::Channel;

fn s(x: &str) -> String {
    x.to_string()
}

fn request(id: Option<i32>) -> CreateProfileRequest {
    CreateProfileRequest {
        id,
        name: s("Home"),
        portal_url: s("http://p/c/"),
        mac: s("00:1a:79:aa:bb:cc"),
        username: None,
        password: None,
        hls_port: None,
        proxy_port: None,
        timezone: None,
        model: None,
        device_id_auth: None,
        hls_enabled: None,
        proxy_enabled: Some(false),
        proxy_rewrite: None,
        serial_number: None,
        device_id: None,
        device_id2: None,
        signature: None,
        watchdog_interval: Some(0),
    }
}

#[test]
fn defaults() {
    let c = ProfileConfig::default();
    assert_eq!((c.hls_port, c.proxy_port, c.timezone.as_str(), c.model.as_str()), (4600, 4800, "UTC", "MAG254"));
    assert_eq!(c.device_id, "f".repeat(64));
    assert!(c.device_id_auth && c.hls_enabled && c.proxy_enabled && c.proxy_rewrite);
    let st = ProfileStatus::default();
    assert_eq!((st.phase.as_str(), st.message.as_str(), st.running), ("idle", "Not started", false));
}

#[test]
fn create_assigns_ids_and_ports() {
    let mut ps: Vec<ProfileConfig> = Vec::new();
    let a = create_profile(&mut ps, &request(None)).unwrap();
    assert_eq!((a.id, a.hls_port, a.proxy_port), (1, 4600, 4601));
    assert_eq!(a.mac, "00:1A:79:AA:BB:CC");
    assert!(!a.proxy_enabled);
    assert_eq!(a.watchdog_interval, 0);
    let b = create_profile(&mut ps, &request(None)).unwrap();
    assert_eq!((b.id, b.hls_port, b.proxy_port), (2, 4602, 4603));
    let mut r = request(Some(1));
    r.name = s("Replaced");
    r.hls_port = Some(9000);
    let c = create_profile(&mut ps, &r).unwrap();
    assert_eq!((c.id, c.hls_port, c.proxy_port), (1, 9000, 4601));
    assert_eq!(ps.len(), 2);
    assert_eq!(ps[1].name, "Replaced");
    assert_eq!(find_profile(&ps, 1), Some(1));
    assert_eq!(lowest_profile_id(&ps), Some(1));
    let z = create_profile(&mut ps, &request(Some(0))).unwrap();
    assert_eq!((z.hls_port, z.proxy_port), (4600, 4601));
}

#[test]
fn store_and_remove() {
    let mut ps: Vec<ProfileConfig> = Vec::new();
    let mut a = ProfileConfig::default();
    a.id = 5;
    store_profile(&mut ps, a.clone());
    a.name = s("n");
    store_profile(&mut ps, a.clone());
    assert_eq!(ps.len(), 1);
    assert_eq!(ps[0].name, "n");
    remove_profile(&mut ps, 5);
    assert!(ps.is_empty());
    assert_eq!(lowest_profile_id(&ps), None);
}

#[test]
fn running_profile_status() {
    let c = ProfileConfig::default();
    let st = running_status(&c, 12);
    assert_eq!((st.phase.as_str(), st.message.as_str(), st.channels_count, st.hls_addr.as_str(), st.proxy_addr.as_str(), st.running), ("success", "Running", 12, ":4600", ":4800", true));
    assert_eq!(bind_addr(4600), "0.0.0.0:4600");
    assert_eq!(watchdog_period_secs(5), 300);
}

#[test]
fn what_the_app_lists() {
    let mut f = FilterStore::new();
    f.set_genre_disabled(1, s("2"), true);
    f.set_channel_disabled(1, s("c2"), false);
    let chs = vec![
        Channel { title: s("A"), cmd: s("c1"), logo: s("l"), genre_id: s("2"), genre: s("G"), cmd_id: s(""), cmd_ch_id: s("") },
        Channel { title: s("B"), cmd: s("c2"), logo: s(""), genre_id: s("2"), genre: s("G"), cmd_id: s(""), cmd_ch_id: s("") },
    ];
    let ui = ui_channels(&chs, &f, 1);
    assert!(!ui[0].enabled);
    assert!(ui[1].enabled);
    let cats = vec![
        CategoryItem { id: s("*"), id_is_text: true, title: s("All"), is_object: true },
        CategoryItem { id: s("3"), id_is_text: false, title: s("Num"), is_object: true },
        CategoryItem { id: s("4"), id_is_text: true, title: s("Four"), is_object: true },
    ];
    assert_eq!(app_categories(&cats, true), vec![(s(""), s("Num")), (s("4"), s("Four"))]);
    assert_eq!(app_categories(&cats, false), vec![(s("4"), s("Four"))]);
}

#[test]
fn default_ports_limits() {
    assert!(default_ports_fit_for(1));
    assert!(default_ports_fit_for(0));
    assert!(default_ports_fit_for(30000));
    assert!(!default_ports_fit_for(30500));
    assert!(default_ports_fit_for(65537));
    assert!(!default_ports_fit_for(-1));
}
