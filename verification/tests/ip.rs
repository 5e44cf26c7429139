use dog::ip::ip_canonical;

fn canon(s: &str) -> Option<String> {
    ip_canonical(s)
}

#[test]
fn ipv4_addresses() {
    assert_eq!(canon("1.1.1.1").as_deref(), Some("1.1.1.1"));
    assert_eq!(canon("192.168.0.255").as_deref(), Some("192.168.0.255"));
    assert_eq!(canon("0.0.0.0").as_deref(), Some("0.0.0.0"));
}

#[test]
fn ipv4_rejections() {
    assert_eq!(canon("256.1.1.1"), None);
    assert_eq!(canon("01.1.1.1"), None);
    assert_eq!(canon("1.1.1"), None);
    assert_eq!(canon("1.1.1.1.1"), None);
    assert_eq!(canon("1.1.1.1 "), None);
    assert_eq!(canon("1..1.1"), None);
    assert_eq!(canon("1234.1.1.1"), None);
    assert_eq!(canon(""), None);
    assert_eq!(canon("example.com"), None);
}

#[test]
fn ipv6_addresses() {
    assert_eq!(canon("::1").as_deref(), Some("::1"));
    assert_eq!(canon("::").as_deref(), Some("::"));
    assert_eq!(canon("FE80:0:0:0:0:0:0:1").as_deref(), Some("fe80::1"));
    assert_eq!(canon("2001:db8:0:0:1:0:0:1").as_deref(), Some("2001:db8::1:0:0:1"));
    assert_eq!(canon("2001:0db8:0000:0000:0000:ff00:0042:8329").as_deref(), Some("2001:db8::ff00:42:8329"));
    assert_eq!(canon("1:2:3:4:5:6:7:8").as_deref(), Some("1:2:3:4:5:6:7:8"));
    assert_eq!(canon("1:0:2:3:4:5:6:7").as_deref(), Some("1:0:2:3:4:5:6:7"));
    assert_eq!(canon("1::").as_deref(), Some("1::"));
    assert_eq!(canon("1:2:3:4:5:6:7::").as_deref(), Some("1:2:3:4:5:6:7:0"));
}

#[test]
fn ipv6_with_embedded_ipv4() {
    assert_eq!(canon("::ffff:1.2.3.4").as_deref(), Some("::ffff:1.2.3.4"));
    assert_eq!(canon("::FFFF:0102:0304").as_deref(), Some("::ffff:1.2.3.4"));
    assert_eq!(canon("::1.2.3.4").as_deref(), Some("::102:304"));
    assert_eq!(canon("1:2:3:4:5:6:1.2.3.4").as_deref(), Some("1:2:3:4:5:6:102:304"));
}

#[test]
fn ipv6_rejections() {
    assert_eq!(canon("1:2:3:4:5:6:7:8:9"), None);
    assert_eq!(canon("1::2::3"), None);
    assert_eq!(canon(":1"), None);
    assert_eq!(canon("1:"), None);
    assert_eq!(canon("12345::"), None);
    assert_eq!(canon("1.2.3.4::"), None);
    assert_eq!(canon("1:2:3:4:5:6::1.2.3.4"), None);
    assert_eq!(canon("1:2:3:4:5:6:7:1.2.3.4"), None);
    assert_eq!(canon("fe80::1%eth0"), None);
    assert_eq!(canon("[::1]"), None);
}

#[test]
fn longest_zero_run_is_compressed_first_on_ties() {
    assert_eq!(canon("1:0:0:2:0:0:3:4").as_deref(), Some("1::2:0:0:3:4"));
    assert_eq!(canon("1:0:0:2:0:0:0:4").as_deref(), Some("1:0:0:2::4"));
}

#[test]
fn canonical_ipv4_text_reads_back() {
    for s in ["1.2.3.4", "255.255.255.255", "10.0.0.1"] {
        let c = canon(s).unwrap();
        assert_eq!(canon(&c).as_deref(), Some(c.as_str()));
    }
}

#[test]
fn canonical_ipv6_text_reads_back() {
    for s in ["::1", "FE80::0:1", "::ffff:10.0.0.1", "1:0:0:2:0:0:3:4", "1:2:3:4:5:6:7:8", "::"] {
        let c = canon(s).unwrap();
        assert_eq!(canon(&c).as_deref(), Some(c.as_str()));
    }
}
