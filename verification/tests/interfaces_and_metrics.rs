use buildermon::interfaces::{
    choose_primary_interface, choose_server_interface, interface_label, skip_interface,
    skip_server_interface, InterfaceSample,
};
use buildermon::metrics_doc::{
    metrics_json_text, network_report, parse_inet_address, DiskReport, MetricsReport,
    NetworkReport,
};

fn sample(name: &str, rx: u64, tx: u64) -> InterfaceSample {
    InterfaceSample { name: name.to_string(), received_total: rx, transmitted_total: tx }
}

#[test]
fn virtual_interfaces_are_left_out() {
    for name in ["lo", "docker0", "veth12ab", "br-5f3c"] {
        assert!(skip_server_interface(name));
        assert!(skip_interface(name));
    }
    assert!(!skip_server_interface("virbr0"));
    assert!(skip_interface("virbr0"));
    assert!(!skip_interface("eth0"));
    assert!(!skip_interface("lo0"));
    assert!(!skip_interface("l"));
}

#[test]
fn busiest_interface_is_primary() {
    let samples = vec![
        sample("lo", 900, 900),
        sample("eth0", 10, 20),
        sample("wlan0", 30, 5),
        sample("docker0", 1000, 1000),
    ];
    assert_eq!(choose_primary_interface(&samples), Some(2));
    assert_eq!(choose_server_interface(&samples), Some(2));
}

#[test]
fn first_of_tied_interfaces_wins() {
    let samples = vec![sample("eth0", 10, 10), sample("eth1", 15, 5)];
    assert_eq!(choose_primary_interface(&samples), Some(0));
}

#[test]
fn no_traffic_means_no_interface() {
    let samples = vec![sample("eth0", 0, 0), sample("lo", 5, 5)];
    assert_eq!(choose_primary_interface(&samples), None);
    assert_eq!(choose_server_interface(&samples), None);
    assert_eq!(choose_primary_interface(&Vec::new()), None);
}

#[test]
fn dashboard_total_saturates() {
    let samples = vec![sample("eth0", u64::MAX, 5), sample("eth1", u64::MAX - 1, 1)];
    assert_eq!(choose_primary_interface(&samples), Some(0));
}

#[test]
fn libvirt_bridge_counts_only_for_the_server() {
    let samples = vec![sample("virbr0", 100, 100), sample("eth0", 1, 1)];
    assert_eq!(choose_server_interface(&samples), Some(0));
    assert_eq!(choose_primary_interface(&samples), Some(1));
}

#[test]
fn server_drops_unnamed_busiest_interface() {
    let samples = vec![sample("eth0", 1, 1), sample("", 10, 10)];
    assert_eq!(choose_server_interface(&samples), None);
    assert_eq!(choose_primary_interface(&samples), Some(1));
    assert_eq!(interface_label(""), None);
    assert_eq!(interface_label("eth0"), Some("eth0".to_string()));
}

const IP_OUTPUT: &str = "2: eth0: <BROADCAST,MULTICAST,UP,LOWER_UP> mtu 1500 qdisc fq_codel state UP group default qlen 1000\n    inet 192.168.1.20/24 brd 192.168.1.255 scope global dynamic eth0\n       valid_lft 85722sec preferred_lft 85722sec\n    inet 10.0.0.2/8 scope global eth0\n";

#[test]
fn inet_address_is_first_listed() {
    assert_eq!(parse_inet_address(IP_OUTPUT), Some("192.168.1.20".to_string()));
}

#[test]
fn inet_address_missing() {
    assert_eq!(parse_inet_address(""), None);
    assert_eq!(parse_inet_address("2: eth0: <UP>\n    link/ether 00:11:22:33:44:55\n"), None);
    assert_eq!(parse_inet_address("inet \ninet 1.2.3.4\n"), Some("1.2.3.4".to_string()));
    assert_eq!(parse_inet_address("    inet noslash"), Some("noslash".to_string()));
}

#[test]
fn network_report_takes_counters_and_address() {
    let s = sample("eth0", 7, 9);
    let r = network_report(&s, Some(IP_OUTPUT.as_bytes()), Some((vec![1], vec![2])));
    assert_eq!(r.interface, "eth0");
    assert_eq!(r.ip, Some("192.168.1.20".to_string()));
    assert_eq!(r.rx_bytes, 7);
    assert_eq!(r.tx_bytes, 9);
    assert_eq!(r.history, Some((vec![1], vec![2])));
    let r = network_report(&s, None, None);
    assert_eq!(r.ip, None);
    let r = network_report(&s, Some(b"    inet 10.1.2.3/16 \xff\n"), None);
    assert_eq!(r.ip, Some("10.1.2.3".to_string()));
    assert_eq!(r.history, None);
}

fn strings(xs: &[&str]) -> Vec<String> {
    xs.iter().map(|x| x.to_string()).collect()
}

#[test]
fn metrics_document_full() {
    let report = MetricsReport {
        hostname: Some("builder".to_string()),
        network: Some(NetworkReport {
            interface: "eth0".to_string(),
            ip: Some("10.0.0.2".to_string()),
            history: Some((vec![1, 22], vec![])),
            rx_bytes: 1234,
            tx_bytes: 0,
        }),
        cpu_cores: strings(&["12.5", "3.0"]),
        cpu_total: "7.8".to_string(),
        load_avg: "0.42".to_string(),
        ram_used_gb: "3.1".to_string(),
        ram_total_gb: "15.6".to_string(),
        ram_percent: "19.9".to_string(),
        swap_used_gb: "0.0".to_string(),
        swap_total_gb: "2.0".to_string(),
        swap_percent: "0.0".to_string(),
        disks: vec![
            DiskReport {
                mount: "/".to_string(),
                fs: "/dev/sda1".to_string(),
                used_gb: "40.2".to_string(),
                total_gb: "100.0".to_string(),
                percent: "40".to_string(),
            },
            DiskReport {
                mount: "/boot".to_string(),
                fs: "/dev/sda2".to_string(),
                used_gb: "0.1".to_string(),
                total_gb: "0.5".to_string(),
                percent: "20".to_string(),
            },
        ],
    };
    assert_eq!(
        metrics_json_text(&report),
        "{\"hostname\":\"builder\",\"interface\":\"eth0\",\"ip\":\"10.0.0.2\",\"net_rx_history\":[1,22],\"net_tx_history\":[],\"net_rx_bytes\":1234,\"net_tx_bytes\":0,\"cpu_cores\":[12.5,3.0],\"cpu_total\":7.8,\"load_avg\":\"0.42\",\"ram_used_gb\":3.1,\"ram_total_gb\":15.6,\"ram_percent\":19.9,\"swap_used_gb\":0.0,\"swap_total_gb\":2.0,\"swap_percent\":0.0,\"disks\":[{\"mount\":\"/\",\"fs\":\"/dev/sda1\",\"used_gb\":40.2,\"total_gb\":100.0,\"percent\":40},{\"mount\":\"/boot\",\"fs\":\"/dev/sda2\",\"used_gb\":0.1,\"total_gb\":0.5,\"percent\":20}],\"status\":\"ok\"}"
    );
}

#[test]
fn metrics_document_minimal() {
    let report = MetricsReport {
        hostname: None,
        network: None,
        cpu_cores: Vec::new(),
        cpu_total: "0.0".to_string(),
        load_avg: "0.00".to_string(),
        ram_used_gb: "0.0".to_string(),
        ram_total_gb: "0.0".to_string(),
        ram_percent: "NaN".to_string(),
        swap_used_gb: "0.0".to_string(),
        swap_total_gb: "0.0".to_string(),
        swap_percent: "0.0".to_string(),
        disks: Vec::new(),
    };
    assert_eq!(
        metrics_json_text(&report),
        "{\"cpu_cores\":[],\"cpu_total\":0.0,\"load_avg\":\"0.00\",\"ram_used_gb\":0.0,\"ram_total_gb\":0.0,\"ram_percent\":NaN,\"swap_used_gb\":0.0,\"swap_total_gb\":0.0,\"swap_percent\":0.0,\"disks\":[],\"status\":\"ok\"}"
    );
}
