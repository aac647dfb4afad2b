use stalkerhek_engine::reply::{
    auth_reply, category_positions, channel_count, channels_from_reply, epg_answer, epg_items_all,
    epg_items_for_channel, genres_from_reply, handshake_token, link_cmd_from_reply, profile_from_reply, read_reply,
    EpgAnswer, JsonValue, ReplyError,
};
use stalkerhek_engine::stalker::{ProfileId, user_pass_result};

fn s(x: &str) -> String {
    x.to_string()
}

fn json(text: &str) -> JsonValue {
    read_reply(text).unwrap()
}

#[test]
fn replies_that_are_no_json() {
    assert!(matches!(read_reply("<html>"), Err(ReplyError::NotJson)));
    assert!(matches!(read_reply("{\"a\":1}"), Ok(JsonValue::Object(_))));
}

#[test]
fn handshake_tokens() {
    assert_eq!(handshake_token(&json("{\"js\":{\"token\":\"T1\"}}")), Ok(Some(s("T1"))));
    assert_eq!(handshake_token(&json("{\"js\":{\"token\":5}}")), Ok(None));
    assert_eq!(handshake_token(&json("{\"js\":{}}")), Ok(None));
    assert_eq!(handshake_token(&json("{\"js\":[1]}")), Err(ReplyError::NoJs));
    assert_eq!(handshake_token(&json("{\"x\":1}")), Err(ReplyError::NoJs));
}

#[test]
fn do_auth_answers() {
    assert_eq!(user_pass_result(&auth_reply("{\"js\":{\"token\":\"abc\"},\"text\":\"hi\"}")), Ok(s("hi")));
    assert_eq!(user_pass_result(&auth_reply("true")), Ok(s("authenticated")));
    assert_eq!(user_pass_result(&auth_reply("")), Ok(s("authenticated")));
    assert_eq!(user_pass_result(&auth_reply("{\"js\":{\"token\":\"\"}}")), Err(s("Invalid credentials")));
    assert_eq!(user_pass_result(&auth_reply("{\"js\":{\"id\":\"7\"}}")), Ok(s("authenticated")));
    assert_eq!(user_pass_result(&auth_reply("nonsense")), Err(s("Invalid credentials")));
}

#[test]
fn profile_answers() {
    let (id, fname) = profile_from_reply(&json("{\"js\":{\"fname\":\"Box\",\"id\":\"42\"}}")).unwrap();
    assert!(matches!(id, ProfileId::Text(ref t) if t == "42"));
    assert_eq!(fname, "Box");
    let (id, _) = profile_from_reply(&json("{\"js\":{\"fname\":\"Box\",\"id\":42}}")).unwrap();
    assert!(matches!(id, ProfileId::Number));
    let (id, _) = profile_from_reply(&json("{\"js\":{\"fname\":\"Box\",\"id\":null},\"text\":\"ok\"}")).unwrap();
    assert!(matches!(id, ProfileId::Other));
    assert!(matches!(profile_from_reply(&json("{\"js\":{\"fname\":\"Box\"}}")), Err(ReplyError::MissingField)));
    assert!(matches!(profile_from_reply(&json("{\"js\":{\"id\":1}}")), Err(ReplyError::MissingField)));
    assert!(matches!(
        profile_from_reply(&json("{\"js\":{\"fname\":\"Box\",\"id\":1},\"text\":5}")),
        Err(ReplyError::MissingField)
    ));
}

#[test]
fn genre_answers() {
    let g = genres_from_reply(&json("{\"js\":[{\"id\":\"1\",\"title\":\"News\"},{\"id\":\"2\",\"title\":\"Sport\"}]}"));
    assert_eq!(g, Ok(vec![(s("1"), s("News")), (s("2"), s("Sport"))]));
    assert_eq!(genres_from_reply(&json("{\"js\":[{\"id\":\"1\"}]}")), Err(ReplyError::MissingField));
    assert_eq!(genres_from_reply(&json("{\"js\":{}}")), Err(ReplyError::NoList));
}

#[test]
fn channel_answers() {
    let genres = vec![(s("10"), s("News"))];
    let text = "{\"js\":{\"data\":[{\"name\":\"BBC\",\"cmd\":\"ffmpeg http://a/1\",\"tv_genre_id\":\"10\",\"cmds\":[{\"id\":\"5\",\"ch_id\":\"6\"}]},{\"name\":\"#Sep\",\"cmd\":\"x\"}]}}";
    let chs = channels_from_reply(&json(text), &genres).unwrap();
    assert_eq!(chs.len(), 1);
    assert_eq!(chs[0].title, "BBC");
    assert_eq!(chs[0].genre, "News");
    assert_eq!(chs[0].cmd_id, "5");
    assert_eq!(chs[0].cmd_ch_id, "6");
    assert!(matches!(channels_from_reply(&json("{\"js\":null}"), &genres), Err(ReplyError::NoJs)));
    assert!(matches!(channels_from_reply(&json("{\"js\":[]}"), &genres), Err(ReplyError::NoJs)));
    assert!(matches!(channels_from_reply(&json("{\"js\":{}}"), &genres), Err(ReplyError::NoList)));
    assert!(matches!(
        channels_from_reply(&json("{\"js\":{\"data\":[{\"name\":\"A\"}]}}"), &genres),
        Err(ReplyError::MissingField)
    ));
}

#[test]
fn channel_members_of_the_wrong_kind() {
    let genres = vec![(s("10"), s("News"))];
    let read = |entry: &str| channels_from_reply(&json(&format!("{{\"js\":{{\"data\":[{}]}}}}", entry)), &genres);
    let ok = read("{\"name\":\"A\",\"cmd\":\"c\",\"logo\":null,\"tv_genre_id\":null,\"cmds\":null}").unwrap();
    assert_eq!(ok.len(), 1);
    assert_eq!(ok[0].logo, "");
    assert_eq!(ok[0].genre, "Other");
    assert_eq!(ok[0].cmd_id, "");
    let ok = read("{\"name\":\"A\",\"cmd\":\"c\",\"cmds\":[{\"id\":null}]}").unwrap();
    assert_eq!(ok[0].cmd_id, "");
    for bad in [
        "{\"name\":\"A\",\"cmd\":\"c\",\"logo\":7}",
        "{\"name\":\"A\",\"cmd\":\"c\",\"tv_genre_id\":10}",
        "{\"name\":\"A\",\"cmd\":\"c\",\"cmds\":\"x\"}",
        "{\"name\":\"A\",\"cmd\":\"c\",\"cmds\":[\"x\"]}",
        "{\"name\":\"A\",\"cmd\":\"c\",\"cmds\":[{\"id\":5}]}",
        "{\"name\":\"A\",\"cmd\":\"c\",\"cmds\":[{\"id\":\"5\"},{\"ch_id\":true}]}",
    ] {
        assert!(matches!(read(bad), Err(ReplyError::MissingField)), "{}", bad);
    }
}

#[test]
fn category_and_link_answers() {
    let c = category_positions(&json("{\"js\":[{\"id\":\"*\",\"title\":\"All\"},{\"id\":\"2\",\"title\":\"#sep\"},3]}"));
    assert_eq!(c, Ok(vec![0, 2]));
    assert_eq!(category_positions(&json("{\"js\":1}")), Err(ReplyError::NoList));
    assert_eq!(link_cmd_from_reply(&json("{\"js\":{\"cmd\":\"ffmpeg http://x\"}}")), Ok(s("ffmpeg http://x")));
    assert_eq!(link_cmd_from_reply(&json("{\"js\":{}}")), Err(ReplyError::MissingField));
}

#[test]
fn epg_answers() {
    let v = json("{\"js\":{\"data\":[{\"name\":\"N\",\"ch_id\":\"9\",\"start_timestamp\":100,\"stop_timestamp\":200}]}}");
    let items = epg_items_for_channel(Some(&v));
    assert_eq!(items.len(), 1);
    assert_eq!(items[0].name, Some(s("N")));
    assert_eq!(items[0].start_timestamp, Some(100));
    assert_eq!(items[0].time, None);
    assert_eq!(epg_items_for_channel(None).len(), 0);
    let all = json("{\"js\":{\"data\":{\"1\":[{\"name\":\"A\"}],\"2\":[{\"name\":\"B\"},{\"name\":\"C\"}],\"3\":5}}}");
    let items = epg_items_all(Some(&all));
    let names: Vec<Option<String>> = items.into_iter().map(|i| i.name).collect();
    assert_eq!(names, vec![Some(s("A")), Some(s("B")), Some(s("C"))]);
}

#[test]
fn channel_counts() {
    assert_eq!(channel_count(&json("{\"js\":{\"data\":[1,2,3]}}")), Some(3));
    assert_eq!(channel_count(&json("{\"js\":[1,2]}")), Some(2));
    assert_eq!(channel_count(&json("{\"js\":{\"data\":5}}")), Some(0));
    assert_eq!(channel_count(&json("{\"x\":1}")), None);
}

#[test]
fn epg_guide_gets_timezone() {
    assert_eq!(epg_answer("{\"js\":1}", "Europe/Berlin"), EpgAnswer::WithTimezone(s("{\"js\":1,\"timezone\":\"Europe/Berlin\"}")));
    assert_eq!(epg_answer("null", "UTC"), EpgAnswer::WithTimezone(s("{\"timezone\":\"UTC\"}")));
    assert_eq!(epg_answer("not json", "UTC"), EpgAnswer::AsReceived);
    assert_eq!(epg_answer("[1]", "UTC"), EpgAnswer::NotAnObject);
}
