use chat_overlay::config::default_config;
use chat_overlay::twitch::anonymous_login;
use chat_overlay::twitch::parse_color;
use chat_overlay::twitch::parse_privmsg;
use chat_overlay::twitch::TwitchCommand;
use chat_overlay::twitch::WireMessage;

fn msg(nick: Option<&str>, tags: Vec<(&str, Option<&str>)>) -> WireMessage {
    WireMessage {
        source_nickname: nick.map(|n| n.to_string()),
        tags: tags
            .into_iter()
            .map(|(k, v)| (k.to_string(), v.map(|s| s.to_string())))
            .collect(),
    }
}

fn expect_message(r: Option<TwitchCommand>) -> (String, String, String, (u8, u8, u8)) {
    match r {
        Some(TwitchCommand::Message { id, username, message, color }) => {
            (id, username, message, color)
        }
        _ => panic!("expected a Message event"),
    }
}

#[test]
fn color_hex_decodes() {
    assert_eq!(parse_color("#FF8000"), Some((255, 128, 0)));
    assert_eq!(parse_color("#000000"), Some((0, 0, 0)));
    assert_eq!(parse_color("#1e90ff"), Some((30, 144, 255)));
}

#[test]
fn color_empty_defaults_to_white() {
    assert_eq!(parse_color(""), Some((255, 255, 255)));
}

#[test]
fn color_malformed_is_rejected() {
    assert_eq!(parse_color("#ZZ"), None);
    assert_eq!(parse_color("#12345"), None);
    assert_eq!(parse_color("#1234567"), None);
    assert_eq!(parse_color("FF8000"), None);
    assert_eq!(parse_color("#GG0000"), None);
}

#[test]
fn display_name_overrides_nickname() {
    let m = msg(Some("bob123"), vec![("display-name", Some("Bob"))]);
    let (_, username, _, _) = expect_message(parse_privmsg(&m, "hi"));
    assert_eq!(username, "Bob");
}

#[test]
fn absent_display_name_falls_back_to_nickname() {
    let m = msg(Some("bob123"), vec![("id", Some("abc"))]);
    let (id, username, message, color) = expect_message(parse_privmsg(&m, "hi"));
    assert_eq!(username, "bob123");
    assert_eq!(id, "abc");
    assert_eq!(message, "hi");
    assert_eq!(color, (255, 255, 255));
}

#[test]
fn empty_display_name_does_not_override() {
    let m = msg(Some("bob123"), vec![("display-name", Some(""))]);
    let (_, username, _, _) = expect_message(parse_privmsg(&m, "hi"));
    assert_eq!(username, "bob123");
}

#[test]
fn missing_everything_gives_defaults() {
    let m = msg(None, vec![]);
    let (id, username, message, color) = expect_message(parse_privmsg(&m, "text body"));
    assert_eq!(id, "");
    assert_eq!(username, "");
    assert_eq!(message, "text body");
    assert_eq!(color, (255, 255, 255));
}

#[test]
fn color_tag_sets_line_color() {
    let m = msg(Some("ann"), vec![("color", Some("#FF8000"))]);
    let (_, _, _, color) = expect_message(parse_privmsg(&m, "hi"));
    assert_eq!(color, (255, 128, 0));
}

#[test]
fn empty_color_tag_keeps_white() {
    let m = msg(Some("ann"), vec![("color", Some(""))]);
    let (_, _, _, color) = expect_message(parse_privmsg(&m, "hi"));
    assert_eq!(color, (255, 255, 255));
}

#[test]
fn malformed_color_drops_message_only() {
    let m = msg(Some("ann"), vec![("color", Some("#ZZ"))]);
    assert!(parse_privmsg(&m, "hi").is_none());
}

#[test]
fn unknown_tags_and_valueless_tags_are_ignored() {
    let m = msg(
        Some("ann"),
        vec![("badges", Some("sub/1")), ("display-name", None), ("emotes", None)],
    );
    let (_, username, _, _) = expect_message(parse_privmsg(&m, "hi"));
    assert_eq!(username, "ann");
}

#[test]
fn later_tags_win() {
    let m = msg(
        Some("ann"),
        vec![("color", Some("#000000")), ("color", Some("#0000FF"))],
    );
    let (_, _, _, color) = expect_message(parse_privmsg(&m, "hi"));
    assert_eq!(color, (0, 0, 255));
}

#[test]
fn verbatim_body_is_kept() {
    let m = msg(Some("ann"), vec![]);
    let (_, _, message, _) = expect_message(parse_privmsg(&m, "  spaced  out  "));
    assert_eq!(message, "  spaced  out  ");
}

#[test]
fn anonymous_login_appends_decimal_suffix() {
    assert_eq!(anonymous_login(0), "justinfan0");
    assert_eq!(anonymous_login(12345), "justinfan12345");
    assert_eq!(anonymous_login(4294967295), "justinfan4294967295");
}

#[test]
fn default_config_values() {
    let c = default_config();
    assert_eq!(c.channel, "#cantdrown");
    assert_eq!(c.font, "Silver.ttf");
    assert_eq!(c.font_size, 36);
    assert_eq!(c.window_width, 320);
    assert_eq!(c.window_height, 720);
}
