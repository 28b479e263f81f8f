use realm_agent::component::{
    parse_mount_entries, parse_port_entries, parse_u16_str, parse_visibility, Protocol, Visibility,
};
use realm_agent::text::{
    ascii_lowercase, eq_ignore_ascii_case, find_str_in, i64_to_decimal, join_strings, lines_of,
    parse_u64_str, split_char, split_once_char, str_contains, str_ends_with, str_lt,
    str_starts_with, trim_str, u64_to_decimal,
};

#[test]
fn decimal_rendering() {
    assert_eq!(u64_to_decimal(0), "0");
    assert_eq!(u64_to_decimal(1234567890), "1234567890");
    assert_eq!(u64_to_decimal(u64::MAX), "18446744073709551615");
    assert_eq!(i64_to_decimal(-42), "-42");
    assert_eq!(i64_to_decimal(i64::MIN), "-9223372036854775808");
    assert_eq!(i64_to_decimal(7), "7");
}

#[test]
fn decimal_parsing() {
    assert_eq!(parse_u64_str("0"), Some(0));
    assert_eq!(parse_u64_str("18446744073709551615"), Some(u64::MAX));
    assert_eq!(parse_u64_str("18446744073709551616"), None);
    assert_eq!(parse_u64_str(""), None);
    assert_eq!(parse_u64_str("+5"), Some(5));
    assert_eq!(parse_u64_str("1a"), None);
    assert_eq!(parse_u16_str("65535"), Some(65535));
    assert_eq!(parse_u16_str("65536"), None);
}

#[test]
fn decimal_round_trip() {
    for n in [0u64, 9, 10, 99, 100, 4096, u64::MAX] {
        assert_eq!(parse_u64_str(&u64_to_decimal(n)), Some(n));
    }
}

#[test]
fn string_helpers() {
    assert_eq!(trim_str("  a b \t\n"), "a b");
    assert_eq!(split_once_char("k=v=w", '='), Some(("k", "v=w")));
    assert_eq!(split_once_char("kv", '='), None);
    assert_eq!(split_char("a,,b", ','), vec!["a", "", "b"]);
    assert_eq!(split_char("", ','), vec![""]);
    assert!(str_starts_with("realm-agent", "realm"));
    assert!(!str_starts_with("re", "realm"));
    assert!(str_ends_with("pkg.realm", ".realm"));
    assert!(str_contains("hello world", "o w"));
    assert_eq!(find_str_in("abcabc", "ca"), Some(2));
    assert_eq!(find_str_in("abc", "x"), None);
    assert_eq!(lines_of("a\nb\r\nc"), vec!["a", "b", "c"]);
    assert_eq!(lines_of("a\n"), vec!["a"]);
    assert!(str_lt("abc", "abd"));
    assert!(str_lt("ab", "abc"));
    assert!(!str_lt("b", "abc"));
    assert_eq!(ascii_lowercase("HeLLo-Ü"), "hello-Ü");
    assert!(eq_ignore_ascii_case("UDP", "udp"));
    let parts = vec!["a".to_string(), "b".to_string(), "c".to_string()];
    assert_eq!(join_strings(&parts, ", "), "a, b, c");
    assert_eq!(join_strings(&Vec::new(), ", "), "");
}

#[test]
fn mounts_from_form() {
    let none: Vec<String> = Vec::new();
    assert!(matches!(parse_mount_entries(&none), Ok(None)));

    let entries = vec![
        "host=/srv/data, guest=/data, ro=YES".to_string(),
        "guest=/cfg,host=/etc/app".to_string(),
    ];
    let mounts = parse_mount_entries(&entries).unwrap().unwrap();
    assert_eq!(mounts.len(), 2);
    assert_eq!(mounts[0].host, "/srv/data");
    assert_eq!(mounts[0].guest, "/data");
    assert!(mounts[0].ro);
    assert_eq!(mounts[1].host, "/etc/app");
    assert_eq!(mounts[1].guest, "/cfg");
    assert!(!mounts[1].ro);
}

#[test]
fn mount_errors() {
    let bad_key = vec!["host=/a,guest=/b,mode=rw".to_string()];
    assert_eq!(
        parse_mount_entries(&bad_key).err().unwrap(),
        "invalid mount key 'mode' in 'host=/a,guest=/b,mode=rw'"
    );
    let missing = vec!["host=/a".to_string()];
    assert_eq!(
        parse_mount_entries(&missing).err().unwrap(),
        "mount entry 'host=/a' must include host= and guest="
    );
}

#[test]
fn ports_from_form() {
    let entries = vec!["8080".to_string(), "  ".to_string(), "53 / UDP".to_string()];
    let ports = parse_port_entries(&entries).unwrap().unwrap();
    assert_eq!(ports.len(), 2);
    assert_eq!(ports[0].port, 8080);
    assert_eq!(ports[0].protocol, Protocol::Tcp);
    assert!(ports[0].name.is_none());
    assert_eq!(ports[1].port, 53);
    assert_eq!(ports[1].protocol, Protocol::Udp);

    let blank = vec![" ".to_string()];
    assert!(matches!(parse_port_entries(&blank), Ok(None)));
    let bad = vec!["http".to_string()];
    assert_eq!(parse_port_entries(&bad).err().unwrap(), "invalid port number 'http'");
    let empty_port = vec!["/udp".to_string()];
    assert_eq!(parse_port_entries(&empty_port).err().unwrap(), "invalid port '/udp'");
    let too_big = vec!["70000".to_string()];
    assert_eq!(parse_port_entries(&too_big).err().unwrap(), "invalid port number '70000'");
}

#[test]
fn visibility_from_form() {
    assert_eq!(parse_visibility(None), Ok(None));
    assert_eq!(parse_visibility(Some("  ")), Ok(None));
    assert_eq!(parse_visibility(Some(" Public ")), Ok(Some(Visibility::Public)));
    assert_eq!(parse_visibility(Some("LOCAL")), Ok(Some(Visibility::Local)));
    assert_eq!(parse_visibility(Some("Private")), Err("invalid visibility 'private'".to_string()));
}
