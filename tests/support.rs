use z2dmp::hexdump::hexdump;
use z2dmp::logger::{
    get_level, init, set_level_debug, set_level_none, set_level_trace, set_level_warn, LogLevel,
    Logger,
};
use z2dmp::result::Error;

#[test]
fn hexdump_two_rows() {
    let bytes: Vec<u8> = (0x40..0x54).collect();
    assert_eq!(
        hexdump(0x1000, &bytes),
        "0000000000001000: 40 41 42 43 44 45 46 47 48 49 4a 4b 4c 4d 4e 4f  @ABCDEFGHIJKLMN\n\
         0000000000001010: 50 51 52 53                                      PQRS"
    );
}

#[test]
fn hexdump_short_row_with_unprintables() {
    assert_eq!(
        hexdump(0, &vec![0x41, 0x0a, 0x7f]),
        "0000000000000000: 41 0a 7f                                         A.."
    );
}

#[test]
fn hexdump_empty() {
    assert_eq!(hexdump(5, &Vec::new()), "");
}

#[test]
fn hexdump_address_wraps() {
    let s = hexdump(u64::MAX, &vec![0u8; 17]);
    assert!(s.starts_with("ffffffffffffffff: 00"));
    assert!(s.contains("\n000000000000000f: 00"));
}

#[test]
fn init_parses_levels() {
    assert_eq!(init("none").unwrap().level, LogLevel::Off);
    assert_eq!(init("warn").unwrap().level, LogLevel::Warn);
    assert_eq!(init("info").unwrap().level, LogLevel::Info);
    assert_eq!(init("debug").unwrap().level, LogLevel::Debug);
    assert_eq!(init("trace").unwrap().level, LogLevel::Trace);
    match init("loud") {
        Err(Error::UnknownLogLevel(s)) => assert_eq!(s, "loud"),
        _ => panic!("expected an unknown level"),
    }
}

#[test]
fn set_and_get_level() {
    let mut l = Logger::with_level(LogLevel::Info);
    set_level_trace(&mut l);
    assert_eq!(get_level(&l), LogLevel::Trace);
    set_level_warn(&mut l);
    assert_eq!(get_level(&l), LogLevel::Warn);
    set_level_debug(&mut l);
    assert_eq!(get_level(&l), LogLevel::Debug);
    set_level_none(&mut l);
    assert_eq!(get_level(&l), LogLevel::Off);
}

#[test]
fn log_keeps_enabled_messages() {
    let mut l = Logger::with_level(LogLevel::Info);
    l.log(LogLevel::Warn, "w".to_string());
    l.log(LogLevel::Debug, "d".to_string());
    l.log(LogLevel::Info, "i".to_string());
    assert!(l.enabled(LogLevel::Info));
    assert!(!l.enabled(LogLevel::Trace));
    let m = l.take_messages();
    assert_eq!(m, vec![(LogLevel::Warn, "w".to_string()), (LogLevel::Info, "i".to_string())]);
    assert!(l.messages.is_empty());
}
