use cargo_mtime::config::{parse_usize, CacheConfig, CacheType, Config, ConfigError};

fn s(x: &str) -> Option<String> {
    Some(x.to_string())
}

fn args(xs: &[&str]) -> Vec<String> {
    xs.iter().map(|x| x.to_string()).collect()
}

#[test]
fn arguments_give_root_and_db_path() {
    let c = Config::try_from_values(&args(&["prog", "/root", "/db"]), s("/env-root"), None, s("/env-db"), None, None)
        .unwrap();
    assert_eq!(c.root_dir, "/root");
    assert_eq!(c.max_open_files, 768);
    match c.cache_config {
        CacheConfig::Disk(d) => assert_eq!(d.db_path, "/db"),
        CacheConfig::Redis(_) => panic!("expected the disk cache"),
    }
}

#[test]
fn environment_gives_root_and_db_path() {
    let c = Config::try_from_values(&args(&["prog"]), s("/env-root"), s("disk"), s("/env-db"), None, s("12")).unwrap();
    assert_eq!(c.root_dir, "/env-root");
    assert_eq!(c.max_open_files, 12);
    match c.cache_config {
        CacheConfig::Disk(d) => assert_eq!(d.db_path, "/env-db"),
        CacheConfig::Redis(_) => panic!("expected the disk cache"),
    }
}

#[test]
fn redis_cache_and_default_url() {
    let c = Config::try_from_values(&args(&["prog", "/r"]), None, s("redis"), None, None, None).unwrap();
    match c.cache_config {
        CacheConfig::Redis(r) => assert_eq!(r.url, "redis://127.0.0.1/"),
        CacheConfig::Disk(_) => panic!("expected redis"),
    }
    let c = Config::try_from_values(&args(&["prog", "/r"]), None, s("redis"), None, s("redis://h:1/"), None).unwrap();
    match c.cache_config {
        CacheConfig::Redis(r) => assert_eq!(r.url, "redis://h:1/"),
        CacheConfig::Disk(_) => panic!("expected redis"),
    }
}

#[test]
fn unknown_cache_type_means_disk() {
    let c = Config::try_from_values(&args(&["prog", "/r", "/d"]), None, s("Redis"), None, None, None).unwrap();
    assert!(matches!(c.cache_config, CacheConfig::Disk(_)));
}

#[test]
fn missing_values_are_errors() {
    let e = Config::try_from_values(&args(&["prog"]), None, None, s("/d"), None, None).unwrap_err();
    assert_eq!(e, ConfigError::MissingRootDir);
    let e = Config::try_from_values(&args(&["prog", "/r"]), None, None, None, None, None).unwrap_err();
    assert_eq!(e, ConfigError::MissingDbPath);
    let e = Config::try_from_values(&args(&["prog", "/r", "/d"]), None, None, None, None, s("many")).unwrap_err();
    assert_eq!(e, ConfigError::InvalidMaxOpenFiles);
    let e = Config::try_from_values(&args(&["prog"]), None, None, None, None, s("x")).unwrap_err();
    assert_eq!(e, ConfigError::MissingRootDir);
}

#[test]
fn parse_usize_matches_std() {
    for x in ["0", "768", "+5", "007", "", "+", "-1", " 1", "1 ", "12a", "18446744073709551615",
        "18446744073709551616", "99999999999999999999999", "١٢", "+-1", "++1"] {
        assert_eq!(parse_usize(x), x.parse::<usize>().ok(), "{x:?}");
    }
    assert_eq!(parse_usize("768"), Some(768));
}

#[test]
fn from_values_on_complete_values() {
    let c = Config::from_values(&args(&["prog"]), s("/r"), s("redis"), None, None, s("+9"));
    assert_eq!(c.root_dir, "/r");
    assert_eq!(c.max_open_files, 9);
    assert!(matches!(c.cache_config, CacheConfig::Redis(_)));
    assert_eq!(Config::max_open_files_of(&None), Some(768));
    assert_eq!(Config::max_open_files_of(&s("x")), None);
    assert_eq!(Config::cache_type_of(&s("redis")), CacheType::Redis);
    assert_eq!(Config::cache_type_of(&s("disk")), CacheType::Disk);
    assert_eq!(Config::cache_type_of(&None), CacheType::Disk);
}
