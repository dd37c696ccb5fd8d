use aklog_server::{
    cname_from_target, hash_map_targets, index, search, Config, ConfigDeser, Error, LogItem,
    LogItemDeser, Search, Target,
};

fn source(file: &str, regex: &str, alias: &str) -> LogItemDeser {
    LogItemDeser { file: file.to_string(), regex: regex.to_string(), alias: alias.to_string() }
}

fn target(name: &str) -> Target {
    Target { target: name.to_string(), ref_id: "A".to_string(), _type: "timeserie".to_string() }
}

fn names(list: &[&str]) -> Vec<String> {
    list.iter().map(|s| s.to_string()).collect()
}

const CPU: &str = r"^(?P<ts>\S+) (?P<cpu>\S+) (?P<mem>\S+)$";

#[test]
fn index_greets() {
    assert_eq!(index(), "Hello there!");
}

#[test]
fn a_source_offers_its_named_groups() {
    let item = LogItem::try_from(source("cpu.log", CPU, "host1")).ok().unwrap();
    assert_eq!(item.file(), "cpu.log");
    assert_eq!(item.alias(), "host1");
    assert_eq!(item.regex().as_str(), CPU);
    assert_eq!(item.capture_names(), &names(&["cpu", "mem"]));
    assert_eq!(item.aliases(), &names(&["host1.cpu", "host1.mem"]));
}

#[test]
fn unnamed_groups_are_no_metrics() {
    let item =
        LogItem::try_from(source("a.log", r"(\d+) (?P<ts>\d+) (x)? (?P<load>\d+)", "a")).ok().unwrap();
    assert_eq!(item.capture_names(), &names(&["load"]));
    assert_eq!(item.aliases(), &names(&["a.load"]));
}

#[test]
fn the_timestamp_need_not_come_first() {
    let item = LogItem::try_from(source("a.log", r"(?P<up>\d+) (?P<ts>\d+) (?P<down>\d+)", "net"))
        .ok()
        .unwrap();
    assert_eq!(item.capture_names(), &names(&["up", "down"]));
    assert_eq!(item.aliases(), &names(&["net.up", "net.down"]));
}

#[test]
fn a_pattern_without_timestamp_is_invalid() {
    let pattern = r"(?P<time>\d+) (?P<cpu>\d+)";
    let made = LogItem::try_from(source("a.log", pattern, "a"));
    assert_eq!(made.err(), Some(Error::InvalidPattern(pattern.to_string())));
}

#[test]
fn a_pattern_without_metric_is_invalid() {
    let pattern = r"(?P<ts>\d+) (\d+)";
    let made = LogItem::try_from(source("a.log", pattern, "a"));
    assert_eq!(made.err(), Some(Error::InvalidPattern(pattern.to_string())));
    let bare = LogItem::try_from(source("a.log", "abc", "a"));
    assert_eq!(bare.err(), Some(Error::InvalidPattern("abc".to_string())));
}

#[test]
fn a_pattern_that_does_not_compile_is_invalid() {
    let pattern = r"(?P<ts>\d+) (?P<cpu>\d+";
    let made = LogItem::try_from(source("a.log", pattern, "a"));
    assert_eq!(made.err(), Some(Error::InvalidPattern(pattern.to_string())));
    let twice = r"(?P<ts>\d+) (?P<cpu>\d+) (?P<cpu>\d+)";
    let made = LogItem::try_from(source("a.log", twice, "a"));
    assert_eq!(made.err(), Some(Error::InvalidPattern(twice.to_string())));
}

#[test]
fn the_catalog_lists_all_metrics_in_order() {
    let config = Config::load(vec![
        source("cpu.log", CPU, "host1"),
        source("net.log", r"(?P<ts>\d+) (?P<up>\d+) (?P<down>\d+)", "net"),
        source("disk.log", r"(?P<free>\d+)@(?P<ts>\d+)", "disk"),
    ])
    .ok()
    .unwrap();
    assert_eq!(config.items().len(), 3);
    assert_eq!(config.items()[1].alias(), "net");
    assert_eq!(
        config.all_aliases(),
        &names(&["host1.cpu", "host1.mem", "net.up", "net.down", "disk.free"])
    );
}

#[test]
fn an_empty_catalog_offers_nothing() {
    let config = Config::load(vec![]).ok().unwrap();
    assert!(config.items().is_empty());
    assert!(config.all_aliases().is_empty());
    let found = search(&Search { target: String::new() }, &config);
    assert!(found.0.is_empty());
}

#[test]
fn the_first_invalid_source_is_reported() {
    let made = Config::load(vec![
        source("cpu.log", CPU, "host1"),
        source("b.log", "(", "b"),
        source("c.log", "no groups", "c"),
    ]);
    assert_eq!(made.err(), Some(Error::InvalidPattern("(".to_string())));
    let made = Config::try_from(ConfigDeser {
        item: vec![source("c.log", "no groups", "c"), source("b.log", "(", "b")],
    });
    assert_eq!(made.err(), Some(Error::InvalidPattern("no groups".to_string())));
}

#[test]
fn discovery_returns_every_metric_whatever_is_asked() {
    let config = Config::load(vec![
        source("cpu.log", CPU, "host1"),
        source("net.log", r"(?P<ts>\d+) (?P<up>\d+)", "net"),
    ])
    .ok()
    .unwrap();
    let all = names(&["host1.cpu", "host1.mem", "net.up"]);
    let first = search(&Search { target: String::new() }, &config);
    let second = search(&Search { target: "host1".to_string() }, &config);
    let third = search(&Search { target: "zzz".to_string() }, &config);
    assert_eq!(first.0, all);
    assert_eq!(second, first);
    assert_eq!(third, first);
}

#[test]
fn the_capture_name_is_the_second_part() {
    assert_eq!(cname_from_target(&"host1.cpu".to_string()), Ok("cpu".to_string()));
    assert_eq!(cname_from_target(&"a.b.c".to_string()), Ok("b".to_string()));
    assert_eq!(cname_from_target(&"a.".to_string()), Ok(String::new()));
    assert_eq!(cname_from_target(&".x".to_string()), Ok("x".to_string()));
    assert_eq!(cname_from_target(&"a..b".to_string()), Ok(String::new()));
    assert_eq!(cname_from_target(&"hôte.mémoire.x".to_string()), Ok("mémoire".to_string()));
}

#[test]
fn a_name_without_separator_is_malformed() {
    assert_eq!(
        cname_from_target(&"hostcpu".to_string()),
        Err(Error::MalformedTargetName("hostcpu".to_string()))
    );
    assert_eq!(cname_from_target(&String::new()), Err(Error::MalformedTargetName(String::new())));
}

#[test]
fn metrics_of_one_source_share_a_group() {
    let config = Config::load(vec![source("cpu.log", CPU, "host1")]).ok().unwrap();
    let groups =
        hash_map_targets(&config, &vec![target("host1.mem"), target("host1.cpu")]).ok().unwrap();
    assert_eq!(groups.len(), 1);
    assert_eq!(groups[0].source(), 0);
    assert_eq!(groups[0].item().file(), "cpu.log");
    assert_eq!(
        groups[0].cnames(),
        &vec![
            ("mem".to_string(), "host1.mem".to_string()),
            ("cpu".to_string(), "host1.cpu".to_string())
        ]
    );
}

#[test]
fn groups_follow_the_catalog() {
    let config = Config::load(vec![
        source("cpu.log", CPU, "host1"),
        source("idle.log", r"(?P<ts>\d+) (?P<idle>\d+)", "quiet"),
        source("net.log", r"(?P<ts>\d+) (?P<up>\d+) (?P<down>\d+)", "net"),
    ])
    .ok()
    .unwrap();
    let groups = hash_map_targets(
        &config,
        &vec![target("net.down"), target("host1.cpu"), target("net.up"), target("gone.x")],
    )
    .ok()
    .unwrap();
    assert_eq!(groups.len(), 2);
    assert_eq!(groups[0].source(), 0);
    assert_eq!(groups[0].cnames(), &vec![("cpu".to_string(), "host1.cpu".to_string())]);
    assert_eq!(groups[1].source(), 2);
    assert_eq!(groups[1].item().file(), "net.log");
    assert_eq!(
        groups[1].cnames(),
        &vec![
            ("down".to_string(), "net.down".to_string()),
            ("up".to_string(), "net.up".to_string())
        ]
    );
}

#[test]
fn a_name_asked_twice_is_answered_twice() {
    let config = Config::load(vec![source("cpu.log", CPU, "host1")]).ok().unwrap();
    let groups =
        hash_map_targets(&config, &vec![target("host1.cpu"), target("host1.cpu")]).ok().unwrap();
    assert_eq!(groups.len(), 1);
    assert_eq!(groups[0].cnames().len(), 2);
}

#[test]
fn unknown_names_are_in_no_group() {
    let config = Config::load(vec![source("cpu.log", CPU, "host1")]).ok().unwrap();
    let groups = hash_map_targets(
        &config,
        &vec![target("host1.unknown"), target("host2.cpu"), target("host1.cpu.x"), target(".")],
    )
    .ok()
    .unwrap();
    assert!(groups.is_empty());
    assert!(hash_map_targets(&config, &vec![]).ok().unwrap().is_empty());
}

#[test]
fn a_malformed_name_fails_the_grouping() {
    let config = Config::load(vec![source("cpu.log", CPU, "host1")]).ok().unwrap();
    let made = hash_map_targets(
        &config,
        &vec![target("host1.cpu"), target("nodot"), target("host1.mem"), target("other")],
    );
    assert_eq!(made.err(), Some(Error::MalformedTargetName("nodot".to_string())));
}

#[test]
fn an_alias_with_a_dot_keeps_its_group() {
    let config = Config::load(vec![source("cpu.log", CPU, "rack.host1")]).ok().unwrap();
    assert_eq!(config.all_aliases(), &names(&["rack.host1.cpu", "rack.host1.mem"]));
    let groups = hash_map_targets(&config, &vec![target("rack.host1.mem")]).ok().unwrap();
    assert_eq!(groups[0].cnames(), &vec![("mem".to_string(), "rack.host1.mem".to_string())]);
}
