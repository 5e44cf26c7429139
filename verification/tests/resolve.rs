use dog::localize::Language;
use dog::resolve::{
    adapter_nameserver, has_active_adapter, next_lookup_step, parse_resolv_conf, reply_of_resolv_conf, resolvectl_dns,
    no_nameserver_in, resolvectl_nameserver, scutil_dns, scutil_nameserver, tool_reply, AdapterInfo, LookupStep, NameserverSource, Platform,
    Resolver, ResolverLookupError, ResolverType, SourceReply,
};

fn lines(text: &[&str]) -> Vec<String> {
    text.iter().map(|s| s.to_string()).collect()
}

fn strings(v: &[&str]) -> Vec<String> {
    v.iter().map(|s| s.to_string()).collect()
}

#[test]
fn resolv_conf_first_nameserver() {
    let l = lines(&["# comment", "nameserver 192.168.1.1", "nameserver 8.8.8.8"]);
    let (ns, sl) = parse_resolv_conf(&l).unwrap();
    assert_eq!(ns, "192.168.1.1");
    assert!(sl.is_empty());
}

#[test]
fn resolv_conf_search_list_before_nameserver() {
    let l = lines(&["search a.example  b.example\tc", "search x.example y", "nameserver ::1", "search late"]);
    let (ns, sl) = parse_resolv_conf(&l).unwrap();
    assert_eq!(ns, "::1");
    assert_eq!(sl, strings(&["x.example", "y"]));
}

#[test]
fn resolv_conf_skips_invalid_addresses() {
    let l = lines(&["nameserver dns.example", "nameserver  1.1.1.1", "nameserver FE80:0::1"]);
    let (ns, _) = parse_resolv_conf(&l).unwrap();
    assert_eq!(ns, "fe80::1");
}

#[test]
fn resolv_conf_without_nameserver() {
    let l = lines(&["search example.com", "options ndots:2"]);
    assert!(parse_resolv_conf(&l).is_none());
    assert!(parse_resolv_conf(&Vec::new()).is_none());
}

#[test]
fn resolv_conf_later_lines_change_nothing() {
    let a = lines(&["search one", "nameserver 9.9.9.9"]);
    let mut b = a.clone();
    b.push("search two".to_string());
    b.push("nameserver 1.1.1.1".to_string());
    let ra = parse_resolv_conf(&a).unwrap();
    let rb = parse_resolv_conf(&b).unwrap();
    assert_eq!(ra, rb);
}

#[test]
fn resolvectl_prefers_link_dns() {
    let out = "Global: 1.1.1.1\nLink 1 (lo):\nLink 2 (eth0): 192.168.0.1#dns.example 8.8.8.8\n";
    assert_eq!(resolvectl_nameserver(out).as_deref(), Some("192.168.0.1"));
}

#[test]
fn resolvectl_falls_back_to_global() {
    let out = "Global: fe80::1%eth0 9.9.9.9\r\nLink 1 (lo): 127.0.0.53\nLink 3 (wlan0):\n";
    assert_eq!(resolvectl_nameserver(out).as_deref(), Some("fe80::1"));
    assert_eq!(resolvectl_nameserver("nothing here"), None);
    assert_eq!(resolvectl_nameserver("Global: notanaddress"), None);
}

#[test]
fn resolvectl_last_global_line_counts() {
    let out = "Global: 1.1.1.1\nGlobal: bogus\n";
    assert_eq!(resolvectl_nameserver(out), None);
}

#[test]
fn resolvectl_command_output() {
    let out = b"Link 2 (eth0): 10.0.0.1\n".to_vec();
    assert_eq!(resolvectl_dns(true, &out).as_deref(), Some("10.0.0.1"));
    assert_eq!(resolvectl_dns(false, &out), None);
    let mut bad = b"Link 2 (eth0): 10.0.0.2 \xff\n".to_vec();
    assert_eq!(resolvectl_dns(true, &bad).as_deref(), Some("10.0.0.2"));
    bad[0] = 0xff;
    assert_eq!(resolvectl_dns(true, &bad), None);
}

#[test]
fn scutil_output() {
    let out = "DNS configuration\n\nresolver #1\n  search domain[0] : example.com\n  nameserver[0] : 192.168.1.254\n  nameserver[1] : 8.8.8.8\n";
    assert_eq!(scutil_nameserver(out).as_deref(), Some("192.168.1.254"));
    assert_eq!(scutil_nameserver("  nameserver[0] : bogus\n  nameserver[1] : 2001:DB8::1 \n").as_deref(), Some("2001:db8::1"));
    assert_eq!(scutil_nameserver("nameserver[0]: 1.1.1.1"), None);
    assert_eq!(scutil_dns(true, &out.as_bytes().to_vec()).as_deref(), Some("192.168.1.254"));
    assert_eq!(scutil_dns(false, &out.as_bytes().to_vec()), None);
}

fn adapter(up: bool, gw: bool, ips: &[&str], dns: &[&str]) -> AdapterInfo {
    AdapterInfo { up, has_gateway: gw, ip_addresses: strings(ips), dns_servers: strings(dns) }
}

#[test]
fn adapters_primary_ip_wins() {
    let a = vec![
        adapter(true, true, &["10.0.0.5"], &["10.0.0.1"]),
        adapter(true, true, &["192.168.1.5"], &["192.168.1.1", "8.8.8.8"]),
    ];
    assert!(has_active_adapter(&a));
    assert_eq!(adapter_nameserver(&a, &Some("192.168.1.5".to_string())).as_deref(), Some("192.168.1.1"));
    assert_eq!(adapter_nameserver(&a, &None).as_deref(), Some("10.0.0.1"));
}

#[test]
fn adapters_fallbacks() {
    let a = vec![
        adapter(false, true, &["10.0.0.5"], &["10.0.0.1"]),
        adapter(true, false, &["192.168.1.5"], &["192.168.1.1"]),
    ];
    assert!(!has_active_adapter(&a));
    assert_eq!(adapter_nameserver(&a, &Some("10.0.0.5".to_string())).as_deref(), Some("192.168.1.1"));
    let b = vec![adapter(true, true, &["10.0.0.5"], &[]), adapter(true, true, &["10.0.0.6"], &["9.9.9.9"])];
    assert_eq!(adapter_nameserver(&b, &Some("10.0.0.5".to_string())).as_deref(), Some("9.9.9.9"));
    let c = vec![adapter(false, false, &[], &["1.2.3.4"])];
    assert_eq!(adapter_nameserver(&c, &None), None);
}

fn done_nameserver(step: LookupStep) -> String {
    match step {
        LookupStep::Done(Ok(r)) => {
            assert!(r.search_list.is_empty());
            r.nameserver
        }
        other => panic!("unexpected step {:?}", other),
    }
}

#[test]
fn specific_resolver_is_used_as_given() {
    let step = ResolverType::Specific("9.9.9.9".to_string()).obtain(Platform::Unix);
    assert_eq!(done_nameserver(step), "9.9.9.9");
}

#[test]
fn unix_lookup_walks_the_sources() {
    let mut step = ResolverType::SystemDefault.obtain(Platform::Unix);
    let mut order = Vec::new();
    loop {
        match step {
            LookupStep::Query(source) => {
                order.push(source);
                let reply = if source == NameserverSource::SystemdStubResolvConf {
                    SourceReply::Found("127.0.0.53".to_string(), Vec::new())
                } else {
                    SourceReply::NotFound
                };
                step = next_lookup_step(source, reply);
            }
            done => {
                assert_eq!(done_nameserver(done), "127.0.0.53");
                break;
            }
        }
    }
    assert_eq!(
        order,
        vec![
            NameserverSource::ResolvConf,
            NameserverSource::Resolvectl,
            NameserverSource::SystemdResolvConf,
            NameserverSource::SystemdStubResolvConf
        ]
    );
}

#[test]
fn unix_lookup_falls_back() {
    let step = next_lookup_step(NameserverSource::Scutil, SourceReply::NotFound);
    assert_eq!(done_nameserver(step), "1.1.1.1");
    let step = next_lookup_step(NameserverSource::ResolvConf, SourceReply::Failed("denied".to_string()));
    assert!(matches!(step, LookupStep::Query(NameserverSource::Resolvectl)));
}

#[test]
fn windows_lookup() {
    let step = ResolverType::SystemDefault.obtain(Platform::Windows);
    assert!(matches!(step, LookupStep::Query(NameserverSource::Adapters)));
    let step = next_lookup_step(NameserverSource::Adapters, SourceReply::Failed("no adapters".to_string()));
    match step {
        LookupStep::Done(Err(ResolverLookupError::Windows(e))) => assert_eq!(e, "no adapters"),
        other => panic!("unexpected step {:?}", other),
    }
    let step = next_lookup_step(NameserverSource::Adapters, SourceReply::NotFound);
    assert_eq!(done_nameserver(step), "1.1.1.1");
}

#[test]
fn other_platforms_are_unsupported() {
    let step = ResolverType::SystemDefault.obtain(Platform::Other);
    assert!(matches!(step, LookupStep::Done(Err(ResolverLookupError::UnsupportedPlatform))));
}

#[test]
fn lookup_error_messages() {
    assert_eq!(ResolverLookupError::NoNameserver.message(Language::English), "No nameserver found");
    assert_eq!(
        ResolverLookupError::IO("permission denied".to_string()).message(Language::English),
        "Error reading network configuration: permission denied"
    );
    assert_eq!(
        ResolverLookupError::Windows("x".to_string()).message(Language::Chinese),
        "读取网络配置出错：x"
    );
    assert!(ResolverLookupError::UnsupportedPlatform
        .message(Language::English)
        .starts_with("dog cannot automatically detect"));
}

#[test]
fn resolver_nameserver_getter() {
    let r = Resolver { nameserver: "1.2.3.4".to_string(), search_list: Vec::new() };
    assert_eq!(r.nameserver(), "1.2.3.4");
    assert_eq!(ResolverType::Specific("a".to_string()), ResolverType::Specific("a".to_string()));
}

#[test]
fn system_resolver_keeps_the_search_list() {
    let l = lines(&["search example.com lan", "nameserver 192.168.1.1"]);
    let step = ResolverType::SystemDefault.obtain(Platform::Unix);
    let source = match step {
        LookupStep::Query(s) => s,
        other => panic!("unexpected step {:?}", other),
    };
    assert_eq!(source, NameserverSource::ResolvConf);
    match next_lookup_step(source, reply_of_resolv_conf(&l)) {
        LookupStep::Done(Ok(r)) => {
            assert_eq!(r.nameserver, "192.168.1.1");
            assert_eq!(r.search_list, strings(&["example.com", "lan"]));
        }
        other => panic!("unexpected step {:?}", other),
    }
}

#[test]
fn resolv_conf_reply_without_nameserver() {
    let l = lines(&["search example.com"]);
    assert!(matches!(reply_of_resolv_conf(&l), SourceReply::NotFound));
}

fn resolver(search: &[&str]) -> Resolver {
    Resolver { nameserver: "1.1.1.1".to_string(), search_list: strings(search) }
}

#[test]
fn name_list_of_a_multi_label_name() {
    let r = resolver(&["example.com"]);
    let name = strings(&["www", "example"]);
    let enc = vec![Some(strings(&["example", "com"]))];
    assert_eq!(r.name_list(&name, &enc), vec![name.clone()]);
}

#[test]
fn name_list_appends_search_domains() {
    let r = resolver(&["example.com", "bad..", "lan"]);
    let name = strings(&["host"]);
    let enc = vec![Some(strings(&["example", "com"])), None, Some(strings(&["lan"]))];
    assert_eq!(
        r.name_list(&name, &enc),
        vec![strings(&["host", "example", "com"]), strings(&["host", "lan"]), strings(&["host"])]
    );
}

#[test]
fn name_list_without_search_list() {
    let r = resolver(&[]);
    let name: Vec<String> = Vec::new();
    assert_eq!(r.name_list(&name, &Vec::new()), vec![Vec::<String>::new()]);
}

#[test]
fn tool_reply_carries_no_search_list() {
    match tool_reply(Some("9.9.9.9".to_string())) {
        SourceReply::Found(ns, sl) => {
            assert_eq!(ns, "9.9.9.9");
            assert!(sl.is_empty());
        }
        _ => panic!("expected a nameserver"),
    }
    assert!(matches!(tool_reply(None), SourceReply::NotFound));
}

#[test]
fn nameservers_found_are_canonical() {
    let lines = vec!["nameserver 2001:0db8:0000:0000:0000:0000:0000:0001".to_string()];
    match reply_of_resolv_conf(&lines) {
        SourceReply::Found(ns, _) => assert_eq!(ns, "2001:db8::1"),
        _ => panic!("expected a nameserver"),
    }
}

#[test]
fn no_nameserver_message_names_the_file() {
    assert_eq!(no_nameserver_in("/etc/resolv.conf"), "No nameserver in /etc/resolv.conf");
}

#[test]
fn first_usable_nameserver_line_with_last_search_before_it() {
    let l = lines(&[
        "search a.example b.example",
        "nameserver not-an-address",
        "search c.example",
        "nameserver 9.9.9.9",
        "search d.example",
        "nameserver 1.1.1.1",
    ]);
    assert_eq!(parse_resolv_conf(&l), Some(("9.9.9.9".to_string(), strings(&["c.example"]))));
    assert_eq!(parse_resolv_conf(&lines(&["search x", "nameserver nope"])), None);
}

#[test]
fn resolvectl_without_address_lines_names_none() {
    let out = "Global:\nLink 1 (lo): 127.0.0.1\nLink 2 (eth0): not-an-address\nFallback: 9.9.9.9\n";
    assert_eq!(resolvectl_nameserver(out), None);
    assert_eq!(resolvectl_dns(true, &out.as_bytes().to_vec()), None);
}

#[test]
fn scutil_first_line_naming_an_address_wins() {
    let out = "resolver #1\n  nameserver[0] : not-an-address\n  nameserver[1] :  192.0.2.53 \n  nameserver[2] : 8.8.8.8\n";
    assert_eq!(scutil_nameserver(out), Some("192.0.2.53".to_string()));
    assert_eq!(scutil_nameserver("resolver #1\n  search domain[0] : example.com\n"), None);
}
