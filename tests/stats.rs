use check_tl_sg108e::tl_sg108e_stats::{LinkStatus, PageField, ParseError, PortStatistic, TPLinkStats};

fn page(count: &str, states: &str, links: &str, pkts: &str) -> String {
    format!(
        "<script>\nvar max_port_num = {};\nvar all_info = {{\nstate:[{}],\nlink_status:[{}],\npkts:[{}]\n}};\n</script>",
        count, states, links, pkts
    )
}

#[test]
fn decode_named_codes() {
    let expected = [
        LinkStatus::Down,
        LinkStatus::Auto,
        LinkStatus::TenHalf,
        LinkStatus::TenFull,
        LinkStatus::OneHundredHalf,
        LinkStatus::OneHundredFull,
        LinkStatus::OneThousandFull,
    ];
    for (code, status) in expected.iter().enumerate() {
        assert_eq!(LinkStatus::from(code as u8), *status);
    }
}

#[test]
fn decode_unknown_codes_are_empty() {
    for code in 7..=255u8 {
        assert_eq!(LinkStatus::from(code), LinkStatus::Empty);
    }
}

#[test]
fn connected_variants() {
    let up = [2u8, 3, 4, 5, 6];
    for code in 0..=255u8 {
        assert_eq!(LinkStatus::from(code).is_connected(), up.contains(&code));
    }
    assert!(!LinkStatus::Down.is_connected());
    assert!(!LinkStatus::Auto.is_connected());
    assert!(!LinkStatus::Empty.is_connected());
    assert!(LinkStatus::OneThousandFull.is_connected());
}

#[test]
fn nominal_speeds_and_labels() {
    assert_eq!(LinkStatus::Down.as_int(), 0);
    assert_eq!(LinkStatus::Auto.as_int(), 1);
    assert_eq!(LinkStatus::TenHalf.as_int(), 5);
    assert_eq!(LinkStatus::TenFull.as_int(), 10);
    assert_eq!(LinkStatus::OneHundredHalf.as_int(), 50);
    assert_eq!(LinkStatus::OneHundredFull.as_int(), 100);
    assert_eq!(LinkStatus::OneThousandFull.as_int(), 1000);
    assert_eq!(LinkStatus::Empty.as_int(), 0);
    assert_eq!(LinkStatus::Down.as_str(), "Link Down");
    assert_eq!(LinkStatus::OneHundredFull.as_str(), "100Full");
    assert_eq!(LinkStatus::Empty.as_str(), "");
}

#[test]
fn parse_three_ports() {
    let text = page("3", "1,0,1", "5,0,2", "10,0,20,1,0,0,0,0,5,1,2,0");
    let stats = TPLinkStats::parse(&text).unwrap();
    assert_eq!(
        stats.port_statistics,
        vec![
            PortStatistic {
                port_number: 1,
                enabled: true,
                link_status: LinkStatus::OneHundredFull,
                tx_good_packets: 10,
                tx_bad_packets: 0,
                rx_good_packets: 20,
                rx_bad_packets: 1,
            },
            PortStatistic {
                port_number: 2,
                enabled: false,
                link_status: LinkStatus::Down,
                tx_good_packets: 0,
                tx_bad_packets: 0,
                rx_good_packets: 0,
                rx_bad_packets: 0,
            },
            PortStatistic {
                port_number: 3,
                enabled: true,
                link_status: LinkStatus::TenHalf,
                tx_good_packets: 5,
                tx_bad_packets: 1,
                rx_good_packets: 2,
                rx_bad_packets: 0,
            },
        ]
    );
}

#[test]
fn parse_extra_entries_are_ignored() {
    let text = page("1", "0,1,1", "6,6,6", "1,2,3,4,5,6,7,8");
    let stats = TPLinkStats::parse(&text).unwrap();
    assert_eq!(stats.port_statistics.len(), 1);
    assert_eq!(stats.port_statistics[0].link_status, LinkStatus::OneThousandFull);
    assert!(!stats.port_statistics[0].enabled);
    assert_eq!(stats.port_statistics[0].rx_bad_packets, 4);
}

#[test]
fn parse_short_link_series() {
    let text = page("3", "1,0,1", "5,0", "10,0,20,1,0,0,0,0,5,1,2,0");
    assert_eq!(TPLinkStats::parse(&text), Err(ParseError::CountMismatch));
}

#[test]
fn parse_unreadable_link_codes_do_not_count() {
    let text = page("3", "1,0,1", "5,x,300,2", "10,0,20,1,0,0,0,0,5,1,2,0");
    assert_eq!(TPLinkStats::parse(&text), Err(ParseError::CountMismatch));
}

#[test]
fn parse_short_packet_series() {
    let text = page("3", "1,0,1", "5,0,2", "10,0,20,1,0,0,0,0,5,1,2");
    assert_eq!(TPLinkStats::parse(&text), Err(ParseError::CountMismatch));
}

#[test]
fn parse_short_state_series() {
    let text = page("3", "1,0", "5,0,2", "10,0,20,1,0,0,0,0,5,1,2,0");
    assert_eq!(TPLinkStats::parse(&text), Err(ParseError::MalformedNumber));
}

#[test]
fn parse_stray_state_tokens_are_skipped() {
    let text = page("2", " 1,1,x,0", "0,0", "0,0,0,0,0,0,0,0");
    let stats = TPLinkStats::parse(&text).unwrap();
    assert!(stats.port_statistics[0].enabled);
    assert!(!stats.port_statistics[1].enabled);
}

#[test]
fn parse_missing_port_count() {
    let text = "state:[1],\nlink_status:[1],\npkts:[0,0,0,0]";
    assert_eq!(
        TPLinkStats::parse(text),
        Err(ParseError::MissingField(PageField::PortCount))
    );
}

#[test]
fn parse_port_count_too_large() {
    let text = page("99999999999999999999999", "1", "1", "0,0,0,0");
    assert_eq!(TPLinkStats::parse(&text), Err(ParseError::MalformedNumber));
}

#[test]
fn parse_missing_series() {
    let no_states = "max_port_num = 1;\nlink_status:[1],\npkts:[0,0,0,0]";
    assert_eq!(
        TPLinkStats::parse(no_states),
        Err(ParseError::MissingField(PageField::States))
    );
    let no_links = "max_port_num = 1;\nstate:[1],\npkts:[0,0,0,0]";
    assert_eq!(
        TPLinkStats::parse(no_links),
        Err(ParseError::MissingField(PageField::LinkStatuses))
    );
    let no_packets = "max_port_num = 1;\nstate:[1],\nlink_status:[1],\n";
    assert_eq!(
        TPLinkStats::parse(no_packets),
        Err(ParseError::MissingField(PageField::Packets))
    );
}

#[test]
fn parse_field_broken_by_line_break() {
    let text = "max_port_num = 1;\nstate:[1\n],\nlink_status:[1],\npkts:[0,0,0,0]";
    assert_eq!(
        TPLinkStats::parse(text),
        Err(ParseError::MissingField(PageField::States))
    );
}

#[test]
fn parse_counters_beyond_64_bits() {
    let big = u128::MAX.to_string();
    let text = page("1", "1", "3", &format!("{},+7,18446744073709551616,0", big));
    let stats = TPLinkStats::parse(&text).unwrap();
    let p = stats.port_statistics[0];
    assert_eq!(p.tx_good_packets, u128::MAX);
    assert_eq!(p.tx_bad_packets, 7);
    assert_eq!(p.rx_good_packets, 18446744073709551616);
    assert_eq!(p.link_status, LinkStatus::TenFull);
}

#[test]
fn parse_zero_ports() {
    let text = page("0", "", "", "");
    let stats = TPLinkStats::parse(&text).unwrap();
    assert!(stats.port_statistics.is_empty());
}

#[test]
fn parse_largest_port_count() {
    let n = 255;
    let states = vec!["1"; n].join(",");
    let links = vec!["6"; n].join(",");
    let pkts = vec!["1"; 4 * n].join(",");
    let stats = TPLinkStats::parse(&page("255", &states, &links, &pkts)).unwrap();
    assert_eq!(stats.port_statistics.len(), 255);
    assert_eq!(stats.port_statistics[254].port_number, 255);
    let states = vec!["1"; n + 1].join(",");
    let links = vec!["6"; n + 1].join(",");
    let pkts = vec!["1"; 4 * (n + 1)].join(",");
    assert_eq!(
        TPLinkStats::parse(&page("256", &states, &links, &pkts)),
        Err(ParseError::MalformedNumber)
    );
}
