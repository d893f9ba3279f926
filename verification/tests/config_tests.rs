use quasar::response_type::ResponseType;
use quasar::structs::config::Config;
use quasar::utils::{chars_of, parse_command, parse_u16, same_chars};

#[test]
fn config_default_border_width_is_five() {
    assert_eq!(Config::default().border_width, 5);
}

#[test]
fn config_index_reads_border_width_and_zero_otherwise() {
    let c = Config { border_width: 9 };
    assert_eq!(c.index("border_width"), 9);
    assert_eq!(c.index("gap"), 0);
    assert_eq!(c.index(""), 0);
}

#[test]
fn config_index_mut_writes_border_width() {
    let mut c = Config::default();
    *c.index_mut("border_width") = 12;
    assert_eq!(c.border_width, 12);
    assert_eq!(c.index("border_width"), 12);
}

#[test]
fn parse_command_sets_border_width() {
    let mut c = Config::default();
    parse_command("border_width 3".to_string(), &mut c);
    assert_eq!(c.border_width, 3);
    assert_eq!(c.index("border_width"), 3);
    parse_command("border_width +65535 ignored".to_string(), &mut c);
    assert_eq!(c.border_width, 65535);
}

#[test]
fn parse_u16_reads_decimal_like_from_str() {
    let p = |s: &str| parse_u16(&chars_of(s));
    assert_eq!(p("0"), Some(0));
    assert_eq!(p("42"), Some(42));
    assert_eq!(p("+7"), Some(7));
    assert_eq!(p("0065535"), Some(65535));
    assert_eq!(p("65536"), None);
    assert_eq!(p("99999999999999999999"), None);
    assert_eq!(p(""), None);
    assert_eq!(p("+"), None);
    assert_eq!(p("-1"), None);
    assert_eq!(p("1a"), None);
    assert_eq!(p(" 1"), None);
    for s in ["0", "42", "+7", "65535", "65536", "", "+", "-1", "1a", "99999999"] {
        assert_eq!(p(s), s.parse::<u16>().ok());
    }
}

#[test]
fn chars_and_comparison() {
    assert_eq!(chars_of("héllo"), vec!['h', 'é', 'l', 'l', 'o']);
    assert!(same_chars(&chars_of("ab"), &chars_of("ab")));
    assert!(!same_chars(&chars_of("ab"), &chars_of("abc")));
    assert!(!same_chars(&chars_of("ab"), &chars_of("ac")));
}

#[test]
fn response_type_from_event_codes() {
    assert_eq!(ResponseType::from(2u8), ResponseType::KeyPress);
    assert_eq!(ResponseType::from(17u8), ResponseType::DestroyNotify);
    assert_eq!(ResponseType::from(19u8), ResponseType::MapNotify);
    assert_eq!(ResponseType::from(0u8), ResponseType::Unknown);
    assert_eq!(ResponseType::from(3u8), ResponseType::Unknown);
    assert_eq!(ResponseType::from(2u8 | 0x80), ResponseType::Unknown);
}

#[test]
fn control_client_message_round_trips() {
    for v in [0u16, 1, 9, 10, 42, 100, 999, 65535] {
        let mut c = Config::default();
        parse_command(format!("{} {}", "border_width", v), &mut c);
        assert_eq!(c.border_width, v);
        assert_eq!(parse_u16(&chars_of(&v.to_string())), Some(v));
    }
}
