use ndap::intel::{
    is_rule_file_extension, mitre_for_rule, parse_sigma_lite, scan_matches, source_outcome, Event, Ioc, IocStore, YaraMatch,
    YaraScanner,
};
use ndap::protocol::{IpAddress, Ipv4Address, Ipv6Address};

#[test]
fn ioc_csv_roundtrip() {
    let contents = "# comment\nip,8.8.8.8\ndomain,evil.example\nhash,deadbeef\n";
    let mut store = IocStore::new();
    let texts = IocStore::feed_ip_texts(contents);
    assert_eq!(texts, vec!["8.8.8.8".to_string()]);
    let ips = vec![Some(IpAddress::V4(Ipv4Address::new(8, 8, 8, 8)))];
    let n = store.load_feed("ndap_intel_test_iocs.csv", contents, &ips).unwrap();
    assert_eq!(n, 3);
    assert!(store.matches_ip(&IpAddress::V4(Ipv4Address::new(8, 8, 8, 8))));
    assert!(store.matches_domain("EVIL.example"));
    assert!(store.matches_hash("DEADBEEF"));
}

#[test]
fn sigma_lite_parse_and_match() {
    let src = "title: Suspicious C2 port\nmitre: T1071\nfield: dst_port\nvalue: 4444\n";
    let rules = parse_sigma_lite(src).unwrap();
    assert_eq!(rules.len(), 1);
    assert_eq!(rules[0].mitre.as_deref(), Some("T1071"));

    let mut event = Event::new();
    event.insert("dst_port".to_string(), "4444".to_string());
    assert!(rules[0].matches(&event));

    event.insert("dst_port".to_string(), "443".to_string());
    assert!(!rules[0].matches(&event));
}

#[test]
fn mitre_mapping_known_rules() {
    assert_eq!(mitre_for_rule("port_scan").unwrap().id, "T1046");
    assert!(mitre_for_rule("nonexistent_rule").is_none());
}

#[test]
fn yara_basic_match() {
    let rule = r#"
            rule contains_evil {
                strings:
                    $a = "evil-marker"
                condition:
                    $a
            }
        "#;
    let scanner = YaraScanner::compile(&[rule]).unwrap();
    let hits = scanner.scan(b"some payload with evil-marker inside");
    assert_eq!(hits.len(), 1);
    assert_eq!(hits[0].rule_name, "contains_evil");

    let no_hits = scanner.scan(b"totally benign payload");
    assert!(no_hits.is_empty());
}

#[test]
fn mitre_mapping_all_built_in_rules() {
    let t = mitre_for_rule("syn_flood").unwrap();
    assert_eq!((t.id.as_str(), t.name.as_str()), ("T1499", "Endpoint Denial of Service"));
    let t = mitre_for_rule("arp_spoof").unwrap();
    assert_eq!((t.id.as_str(), t.name.as_str()), ("T1557", "Adversary-in-the-Middle"));
    assert_eq!(mitre_for_rule("port_scan").unwrap().name, "Network Service Discovery");
}

#[test]
fn sigma_lite_multiple_blocks_and_conditions() {
    let src = "title: A\nfield: proto\nvalue: TCP\nfield: dst_port\nvalue: 22\n---\n\n---\ntitle: B\n";
    let rules = parse_sigma_lite(src).unwrap();
    assert_eq!(rules.len(), 2);
    assert_eq!(rules[0].title, "A");
    assert_eq!(rules[0].conditions.len(), 2);
    assert!(rules[0].mitre.is_none());
    assert_eq!(rules[1].title, "B");
    let mut event = Event::new();
    event.insert("proto".to_string(), "tcp".to_string());
    assert!(!rules[0].matches(&event));
    event.insert("dst_port".to_string(), "22".to_string());
    assert!(rules[0].matches(&event));
    // A rule without conditions never fires.
    assert!(!rules[1].matches(&event));
    assert_eq!(event.get("proto").unwrap(), "tcp");
    assert!(event.get("nope").is_none());
}

#[test]
fn sigma_lite_errors() {
    assert_eq!(
        parse_sigma_lite("title: x\nnonsense").unwrap_err(),
        "block 0: bad line `nonsense`, expected `key: value`"
    );
    assert_eq!(
        parse_sigma_lite("title: x\nvalue: 1").unwrap_err(),
        "block 0: `value:` with no preceding `field:`"
    );
    assert_eq!(
        parse_sigma_lite("title: x\n---\ncolor: red").unwrap_err(),
        "block 1: unknown key `color`"
    );
    assert_eq!(parse_sigma_lite("field: a\nvalue: b").unwrap_err(), "block 0: missing `title:`");
}

#[test]
fn ioc_feed_errors_keep_earlier_lines() {
    let mut store = IocStore::new();
    let contents = "domain,a.example\nbogus line\nhash,ff\n";
    assert!(IocStore::feed_ip_texts(contents).is_empty());
    assert_eq!(
        store.load_feed("f.csv", contents, &Vec::new()).unwrap_err(),
        "f.csv:2: expected `type,value`, got `bogus line`"
    );
    assert!(store.matches_domain("A.EXAMPLE"));
    assert!(!store.matches_hash("ff"));
    assert_eq!(store.len(), 1);

    let mut store = IocStore::new();
    assert_eq!(
        store.load_feed("g.csv", "url,http://x\n", &Vec::new()).unwrap_err(),
        "g.csv:1: unknown IOC type `url` (expected ip, domain, or hash)"
    );
    let contents = "\n# c\nip, not-an-ip \n";
    assert_eq!(IocStore::feed_ip_texts(contents), vec!["not-an-ip".to_string()]);
    assert_eq!(
        store.load_feed("g.csv", contents, &vec![None]).unwrap_err(),
        "g.csv:3: invalid IP `not-an-ip`"
    );
    assert!(store.is_empty());
}

#[test]
fn ioc_store_add_and_len() {
    let mut store = IocStore::new();
    store.add(Ioc::Domain("Evil.Example".to_string()));
    store.add(Ioc::Domain("evil.example".to_string()));
    store.add(Ioc::Ip(IpAddress::V6(Ipv6Address::new([0x20, 1, 0xd, 0xb8, 0, 0, 0, 0, 0, 0, 0, 0, 0, 0, 0, 1]))));
    assert_eq!(store.len(), 2);
    assert!(store.matches_ip(&IpAddress::V6(Ipv6Address::new([0x20, 1, 0xd, 0xb8, 0, 0, 0, 0, 0, 0, 0, 0, 0, 0, 0, 1]))));
    assert!(!store.matches_ip(&IpAddress::V4(Ipv4Address::new(1, 1, 1, 1))));
    assert!(!store.matches_hash("evil.example"));
}

#[test]
fn yara_compile_error_names_source() {
    match YaraScanner::compile(&["rule ok { condition: true }", "rule bad {"]) {
        Err(e) => assert!(e.starts_with("rule source #1: ")),
        Ok(_) => panic!("expected a compile error"),
    }
}

#[test]
fn yara_compile_without_sources() {
    let scanner = YaraScanner::compile(&[]).unwrap();
    assert!(scanner.scan(b"anything").is_empty());
}

#[test]
fn yara_matches_are_in_the_default_namespace() {
    let rule = r#"rule marker { strings: $a = "m4rk" condition: $a }"#;
    let scanner = YaraScanner::compile(&[rule]).unwrap();
    let hits = scanner.scan(b"xx m4rk xx");
    assert_eq!(hits.len(), 1);
    assert_eq!(hits[0].rule_name, "marker");
    assert_eq!(hits[0].namespace, "default");
    assert!(scanner.scan(b"nothing").is_empty());
}

#[test]
fn scan_outcomes_become_matches() {
    let m = YaraMatch { rule_name: "r".to_string(), namespace: "default".to_string() };
    let got = scan_matches(Some(vec![m]));
    assert_eq!(got.len(), 1);
    assert_eq!(got[0].rule_name, "r");
    assert!(scan_matches(None).is_empty());
}

#[test]
fn source_outcome_names_the_index() {
    assert_eq!(source_outcome(3, Ok(())), Ok(()));
    assert_eq!(source_outcome(2, Err("syntax error".to_string())), Err("rule source #2: syntax error".to_string()));
}

#[test]
fn rule_file_extensions() {
    assert!(is_rule_file_extension("yar"));
    assert!(is_rule_file_extension("yara"));
    assert!(!is_rule_file_extension("txt"));
    assert!(!is_rule_file_extension("YAR"));
}
