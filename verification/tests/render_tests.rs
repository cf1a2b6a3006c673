//! Tests of the dashboard text sections, log formatting and the index
//! redirect target.

use host_metrics::render::{
    build_filesystems_section, build_network_section, index, log, LogLevel,
};
use host_metrics::stats::{MountStats, NetworkInterfaceStats, NetworkStats, SocketStats};

fn text(bytes: &Vec<u8>) -> String {
    String::from_utf8(bytes.clone()).unwrap()
}

#[test]
fn network_section_is_absent_without_data() {
    let ns = NetworkStats {
        interfaces: None,
        sockets: None,
    };
    assert!(build_network_section(&ns).is_none());
}

#[test]
fn network_section_renders_socket_lines() {
    let ns = NetworkStats {
        interfaces: None,
        sockets: Some(SocketStats {
            tcp_in_use: 3,
            tcp_orphaned: 7,
            udp_in_use: 2,
            tcp6_in_use: 1,
            udp6_in_use: 5,
        }),
    };
    let section = build_network_section(&ns).unwrap();
    assert_eq!(text(&section.name), "Network");
    assert!(section.stats.is_empty());
    assert_eq!(section.subsections.len(), 1);
    let sockets = &section.subsections[0];
    assert_eq!(text(&sockets.name), "Sockets");
    assert_eq!(
        text(&sockets.stats[0]),
        "TCP: 3 in use total, 1 IPv6, 7 orphaned"
    );
    assert_eq!(text(&sockets.stats[1]), "UDP: 2 in use total, 5 IPv6");
}

#[test]
fn network_section_renders_interface_lines() {
    let ns = NetworkStats {
        interfaces: Some(vec![NetworkInterfaceStats {
            name: b"eth0".to_vec(),
            addresses: vec![b"10.0.0.1".to_vec(), b"10.0.0.2".to_vec()],
            sent_mb: 2,
            received_mb: 4,
            sent_packets: 10,
            received_packets: 20,
            send_errors: 0,
            receive_errors: 1,
        }]),
        sockets: None,
    };
    let section = build_network_section(&ns).unwrap();
    assert_eq!(section.subsections.len(), 1);
    let iface = &section.subsections[0];
    assert_eq!(text(&iface.name), "eth0");
    assert_eq!(text(&iface.stats[0]), "IP addresses: 10.0.0.1, 10.0.0.2");
    assert_eq!(text(&iface.stats[1]), "Sent: 10 packets, 2 MB, 0 errors");
    assert_eq!(text(&iface.stats[2]), "Received: 20 packets, 4 MB, 1 errors");
}

#[test]
fn filesystems_section_renders_usage_and_totals() {
    let mounts = vec![
        MountStats {
            fs_type: b"ext4".to_vec(),
            mounted_from: b"/dev/sda1".to_vec(),
            mounted_on: b"/".to_vec(),
            used_mb: 50,
            total_mb: 200,
        },
        MountStats {
            fs_type: b"vfat".to_vec(),
            mounted_from: b"/dev/sda2".to_vec(),
            mounted_on: b"/boot".to_vec(),
            used_mb: 1,
            total_mb: 3,
        },
    ];
    let section = build_filesystems_section(&mounts);
    assert_eq!(text(&section.name), "文件系统");
    assert_eq!(section.subsections.len(), 2);
    let root = &section.subsections[0];
    assert_eq!(text(&root.name), "/");
    assert_eq!(text(&root.stats[0]), "类型: ext4");
    assert_eq!(text(&root.stats[1]), "挂载点: /dev/sda1");
    assert_eq!(text(&root.stats[2]), "使用量: 50 / 200 MB (25.00%)");
    let boot = &section.subsections[1];
    assert_eq!(text(&boot.stats[2]), "使用量: 1 / 3 MB (33.33%)");
    assert_eq!(
        text(&section.stats[0]),
        "总使用量: 51 / 203 MB (25.12%)"
    );
}

#[test]
fn filesystems_section_with_no_mounts_shows_zero_totals() {
    let section = build_filesystems_section(&Vec::new());
    assert!(section.subsections.is_empty());
    assert_eq!(text(&section.stats[0]), "总使用量: 0 / 0 MB (0.00%)");
}

#[test]
fn unsupported_stats_log_at_debug_level() {
    let (level, line) = log("Error getting memory usage: ", "Not supported");
    assert_eq!(level, LogLevel::Debug);
    assert_eq!(line, "Error getting memory usage: Not supported");
}

#[test]
fn real_failures_log_at_error_level() {
    let (level, line) = log("Error getting memory usage: ", "permission denied");
    assert_eq!(level, LogLevel::Error);
    assert_eq!(line, "Error getting memory usage: permission denied");
}

#[test]
fn index_redirects_to_the_dark_dashboard() {
    assert_eq!(index(), "/dashboard?dark=true");
}
