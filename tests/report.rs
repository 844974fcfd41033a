use check_tl_sg108e::report::{render, can_render};
use check_tl_sg108e::tl_sg108e_stats::{LinkStatus, PortStatistic, TPLinkStats};

fn port(n: u8, enabled: bool, link: LinkStatus, counts: [u128; 4]) -> PortStatistic {
    PortStatistic {
        port_number: n,
        enabled,
        link_status: link,
        tx_good_packets: counts[0],
        tx_bad_packets: counts[1],
        rx_good_packets: counts[2],
        rx_bad_packets: counts[3],
    }
}

const THREE_PORT_REPORT: &str = "OK: ports connected: 2/3 | Port1Enabled=1 Port1LinkSpeed=12000000B Port1GoodTX=10c Port1BadTX=0c Port1GoodRX=20c Port1BadRX=1c Port2Enabled=0 Port2LinkSpeed=0B Port2GoodTX=0c Port2BadTX=0c Port2GoodRX=0c Port2BadRX=0c Port3Enabled=1 Port3LinkSpeed=0B Port3GoodTX=5c Port3BadTX=1c Port3GoodRX=2c Port3BadRX=0c TotalGoodTX=15c TotalBadTX=1c TotalGoodRX=22c TotalBadRX=1c PortsConnected=2 TotalPorts=3";

#[test]
fn render_three_ports() {
    let stats = TPLinkStats {
        port_statistics: vec![
            port(1, true, LinkStatus::OneHundredFull, [10, 0, 20, 1]),
            port(2, false, LinkStatus::Down, [0, 0, 0, 0]),
            port(3, true, LinkStatus::TenHalf, [5, 1, 2, 0]),
        ],
    };
    assert!(can_render(&stats));
    let line = render(&stats);
    assert!(line.starts_with("OK: ports connected: 2/3 |"));
    assert_eq!(line, THREE_PORT_REPORT);
}

#[test]
fn parse_then_render_three_ports() {
    let text = "var max_port_num = 3;\nstate:[1,0,1],\nlink_status:[5,0,2],\npkts:[10,0,20,1,0,0,0,0,5,1,2,0]\n";
    let stats = TPLinkStats::parse(text).unwrap();
    assert_eq!(render(&stats), THREE_PORT_REPORT);
}

#[test]
fn render_no_ports() {
    let stats = TPLinkStats { port_statistics: vec![] };
    assert_eq!(
        render(&stats),
        "OK: ports connected: 0/0 | TotalGoodTX=0c TotalBadTX=0c TotalGoodRX=0c TotalBadRX=0c PortsConnected=0 TotalPorts=0"
    );
}

#[test]
fn render_link_speeds_in_bytes() {
    let stats = TPLinkStats {
        port_statistics: vec![
            port(1, true, LinkStatus::OneThousandFull, [0, 0, 0, 0]),
            port(2, true, LinkStatus::OneHundredHalf, [0, 0, 0, 0]),
            port(3, true, LinkStatus::TenFull, [0, 0, 0, 0]),
            port(4, true, LinkStatus::Auto, [0, 0, 0, 0]),
        ],
    };
    let line = render(&stats);
    assert!(line.starts_with("OK: ports connected: 3/4 |"));
    assert!(line.contains(" Port1LinkSpeed=125000000B "));
    assert!(line.contains(" Port2LinkSpeed=6000000B "));
    assert!(line.contains(" Port3LinkSpeed=1000000B "));
    assert!(line.contains(" Port4LinkSpeed=0B "));
}

#[test]
fn render_field_order() {
    let stats = TPLinkStats {
        port_statistics: vec![
            port(1, false, LinkStatus::Empty, [1, 2, 3, 4]),
            port(2, true, LinkStatus::TenFull, [5, 6, 7, 8]),
        ],
    };
    let line = render(&stats);
    let names: Vec<&str> = line
        .split(" | ")
        .nth(1)
        .unwrap()
        .split(' ')
        .map(|f| f.split('=').next().unwrap())
        .collect();
    assert_eq!(
        names,
        vec![
            "Port1Enabled", "Port1LinkSpeed", "Port1GoodTX", "Port1BadTX", "Port1GoodRX",
            "Port1BadRX", "Port2Enabled", "Port2LinkSpeed", "Port2GoodTX", "Port2BadTX",
            "Port2GoodRX", "Port2BadRX", "TotalGoodTX", "TotalBadTX", "TotalGoodRX",
            "TotalBadRX", "PortsConnected", "TotalPorts",
        ]
    );
    assert!(line.ends_with(" TotalGoodTX=6c TotalBadTX=8c TotalGoodRX=10c TotalBadRX=12c PortsConnected=1 TotalPorts=2"));
    assert!(!line.ends_with('\n'));
}

#[test]
fn render_largest_counters() {
    let stats = TPLinkStats {
        port_statistics: vec![port(1, true, LinkStatus::TenFull, [u128::MAX, 0, 0, 0])],
    };
    let line = render(&stats);
    assert!(line.contains(&format!(" Port1GoodTX={}c ", u128::MAX)));
    assert!(line.contains(&format!(" TotalGoodTX={}c ", u128::MAX)));
}

#[test]
fn totals_that_overflow_are_detected() {
    let stats = TPLinkStats {
        port_statistics: vec![
            port(1, true, LinkStatus::TenFull, [0, 0, u128::MAX, 0]),
            port(2, true, LinkStatus::TenFull, [0, 0, 1, 0]),
        ],
    };
    assert!(!can_render(&stats));
}
