//! The one-line health report with performance data, rendered from a
//! statistics snapshot.
use vstd::prelude::*;

use crate::tl_sg108e_stats::{LinkStatus, PortStatistic, TPLinkStats};

verus! {

pub open spec fn digit_char(d: nat) -> char {
    if d == 0 {
        '0'
    } else if d == 1 {
        '1'
    } else if d == 2 {
        '2'
    } else if d == 3 {
        '3'
    } else if d == 4 {
        '4'
    } else if d == 5 {
        '5'
    } else if d == 6 {
        '6'
    } else if d == 7 {
        '7'
    } else if d == 8 {
        '8'
    } else {
        '9'
    }
}

/// Decimal notation of `n`, without leading zeros.
pub open spec fn decimal(n: nat) -> Seq<char>
    decreases n,
{
    if n < 10 {
        seq![digit_char(n)]
    } else {
        decimal(n / 10) + seq![digit_char(n % 10)]
    }
}

/// The four packet counters of a port.
#[derive(PartialEq, Eq, Structural, Debug, Clone, Copy)]
pub enum Counter {
    GoodTx,
    BadTx,
    GoodRx,
    BadRx,
}

pub open spec fn counter(p: PortStatistic, c: Counter) -> nat {
    match c {
        Counter::GoodTx => p.tx_good_packets as nat,
        Counter::BadTx => p.tx_bad_packets as nat,
        Counter::GoodRx => p.rx_good_packets as nat,
        Counter::BadRx => p.rx_bad_packets as nat,
    }
}

/// Sum of one counter over all ports.
pub open spec fn total(ps: Seq<PortStatistic>, c: Counter) -> nat
    decreases ps.len(),
{
    if ps.len() == 0 {
        0
    } else {
        total(ps.drop_last(), c) + counter(ps.last(), c)
    }
}

/// Number of ports whose link is up.
pub open spec fn connected_count(ps: Seq<PortStatistic>) -> nat
    decreases ps.len(),
{
    if ps.len() == 0 {
        0
    } else {
        connected_count(ps.drop_last()) + if ps.last().link_status.connected() {
            1nat
        } else {
            0nat
        }
    }
}

/// Every counter total fits in 128 bits.
pub open spec fn totals_fit(ps: Seq<PortStatistic>) -> bool {
    forall|c: Counter| total(ps, c) <= u128::MAX
}

/// Nominal link speed converted from megabits to bytes, in whole megabytes.
pub open spec fn speed_bytes(l: LinkStatus) -> nat {
    (l.speed() / 8) as nat * 1000000
}

/// One metric of a port: ` Port{n}{name}{value}{unit}`.
pub open spec fn metric(port: u8, name: Seq<char>, value: nat, unit: Seq<char>) -> Seq<char> {
    " Port"@ + decimal(port as nat) + name + decimal(value) + unit
}

/// The six metrics of one port, in their fixed order.
pub open spec fn port_fields(p: PortStatistic) -> Seq<char> {
    let n = p.port_number;
    metric(
        n,
        "Enabled="@,
        if p.enabled {
            1
        } else {
            0
        },
        ""@,
    ) + metric(n, "LinkSpeed="@, speed_bytes(p.link_status), "B"@) + metric(
        n,
        "GoodTX="@,
        p.tx_good_packets as nat,
        "c"@,
    ) + metric(n, "BadTX="@, p.tx_bad_packets as nat, "c"@) + metric(
        n,
        "GoodRX="@,
        p.rx_good_packets as nat,
        "c"@,
    ) + metric(n, "BadRX="@, p.rx_bad_packets as nat, "c"@)
}

/// The metrics of all ports, in order.
pub open spec fn ports_text(ps: Seq<PortStatistic>) -> Seq<char>
    decreases ps.len(),
{
    if ps.len() == 0 {
        Seq::empty()
    } else {
        ports_text(ps.drop_last()) + port_fields(ps.last())
    }
}

pub open spec fn header_text(connected: nat, ports: nat) -> Seq<char> {
    "OK: ports connected: "@ + decimal(connected) + "/"@ + decimal(ports) + " |"@
}

pub open spec fn summary_text(
    good_tx: nat,
    bad_tx: nat,
    good_rx: nat,
    bad_rx: nat,
    connected: nat,
    ports: nat,
) -> Seq<char> {
    " TotalGoodTX="@ + decimal(good_tx) + "c TotalBadTX="@ + decimal(bad_tx) + "c TotalGoodRX="@
        + decimal(good_rx) + "c TotalBadRX="@ + decimal(bad_rx) + "c PortsConnected="@ + decimal(
        connected,
    ) + " TotalPorts="@ + decimal(ports)
}

pub open spec fn header(ps: Seq<PortStatistic>) -> Seq<char> {
    header_text(connected_count(ps), ps.len())
}

pub open spec fn summary(ps: Seq<PortStatistic>) -> Seq<char> {
    summary_text(
        total(ps, Counter::GoodTx),
        total(ps, Counter::BadTx),
        total(ps, Counter::GoodRx),
        total(ps, Counter::BadRx),
        connected_count(ps),
        ps.len(),
    )
}

/// The full report line: header, per-port metrics, then the totals.
pub open spec fn report(ps: Seq<PortStatistic>) -> Seq<char> {
    header(ps) + ports_text(ps) + summary(ps)
}

fn digit_text(d: u128) -> (r: &'static str)
    requires
        d < 10,
    ensures
        r@ == seq![digit_char(d as nat)],
{
    proof {
        reveal_strlit("0");
        reveal_strlit("1");
        reveal_strlit("2");
        reveal_strlit("3");
        reveal_strlit("4");
        reveal_strlit("5");
        reveal_strlit("6");
        reveal_strlit("7");
        reveal_strlit("8");
        reveal_strlit("9");
    }
    match d {
        0 => "0",
        1 => "1",
        2 => "2",
        3 => "3",
        4 => "4",
        5 => "5",
        6 => "6",
        7 => "7",
        8 => "8",
        _ => "9",
    }
}

/// Appends the decimal notation of `n`.
pub fn push_decimal(out: &mut String, n: u128)
    ensures
        final(out)@ == old(out)@ + decimal(n as nat),
    decreases n,
{
    if n >= 10 {
        push_decimal(out, n / 10);
    }
    out.append(digit_text(n % 10));
    assert(out@ =~= old(out)@ + decimal(n as nat));
}


fn push_metric(out: &mut String, port: u8, name: &str, value: u128, unit: &str)
    ensures
        final(out)@ == old(out)@ + metric(port, name@, value as nat, unit@),
{
    out.append(" Port");
    push_decimal(out, port as u128);
    out.append(name);
    push_decimal(out, value);
    out.append(unit);
    assert(out@ =~= old(out)@ + metric(port, name@, value as nat, unit@));
}

fn push_port(out: &mut String, p: &PortStatistic)
    ensures
        final(out)@ == old(out)@ + port_fields(*p),
{
    let n = p.port_number;
    let enabled: u128 = if p.enabled {
        1
    } else {
        0
    };
    let speed = (p.link_status.as_int() / 8) as u128 * 1000000;
    let ghost s0 = out@;
    push_metric(out, n, "Enabled=", enabled, "");
    push_metric(out, n, "LinkSpeed=", speed, "B");
    push_metric(out, n, "GoodTX=", p.tx_good_packets, "c");
    push_metric(out, n, "BadTX=", p.tx_bad_packets, "c");
    push_metric(out, n, "GoodRX=", p.rx_good_packets, "c");
    push_metric(out, n, "BadRX=", p.rx_bad_packets, "c");
    assert(out@ =~= s0 + port_fields(*p));
}

proof fn lemma_total_prefix(ps: Seq<PortStatistic>, k: int, c: Counter)
    requires
        0 <= k <= ps.len(),
    ensures
        total(ps.take(k), c) <= total(ps, c),
    decreases ps.len() - k,
{
    if k < ps.len() {
        lemma_total_prefix(ps.drop_last(), k, c);
        assert(ps.drop_last().take(k) =~= ps.take(k));
    } else {
        assert(ps.take(k) =~= ps);
    }
}

/// Whether the counter totals fit in 128 bits, as `render` requires.
pub fn can_render(stats: &TPLinkStats) -> (r: bool)
    ensures
        r == totals_fit(stats@),
{
    let ps = &stats.port_statistics;
    let mut sums: [u128; 4] = [0, 0, 0, 0];
    let mut i: usize = 0;
    while i < ps.len()
        invariant
            i <= ps.len(),
            ps@ == stats@,
            sums[0] == total(ps@.take(i as int), Counter::GoodTx),
            sums[1] == total(ps@.take(i as int), Counter::BadTx),
            sums[2] == total(ps@.take(i as int), Counter::GoodRx),
            sums[3] == total(ps@.take(i as int), Counter::BadRx),
        decreases ps.len() - i,
    {
        let p = ps[i];
        assert(ps@.take(i + 1).drop_last() =~= ps@.take(i as int));
        let a = sums[0].checked_add(p.tx_good_packets);
        let b = sums[1].checked_add(p.tx_bad_packets);
        let c = sums[2].checked_add(p.rx_good_packets);
        let d = sums[3].checked_add(p.rx_bad_packets);
        match (a, b, c, d) {
            (Some(a), Some(b), Some(c), Some(d)) => {
                sums = [a, b, c, d];
            },
            _ => {
                proof {
                    let c = if a is None {
                        Counter::GoodTx
                    } else if b is None {
                        Counter::BadTx
                    } else if c is None {
                        Counter::GoodRx
                    } else {
                        Counter::BadRx
                    };
                    lemma_total_prefix(ps@, i + 1, c);
                }
                return false;
            },
        }
        i = i + 1;
    }
    assert(ps@.take(i as int) =~= ps@);
    assert forall|c: Counter| total(stats@, c) <= u128::MAX by {
        match c {
            Counter::GoodTx => {},
            Counter::BadTx => {},
            Counter::GoodRx => {},
            Counter::BadRx => {},
        }
    }
    true
}


fn count_connected(ps: &Vec<PortStatistic>) -> (r: usize)
    ensures
        r == connected_count(ps@),
{
    let mut connected: usize = 0;
    let mut i: usize = 0;
    while i < ps.len()
        invariant
            i <= ps.len(),
            connected == connected_count(ps@.take(i as int)),
            connected <= i,
        decreases ps.len() - i,
    {
        assert(ps@.take(i + 1).drop_last() =~= ps@.take(i as int));
        if ps[i].link_status.is_connected() {
            connected = connected + 1;
        }
        i = i + 1;
    }
    assert(ps@.take(i as int) =~= ps@);
    connected
}

fn push_header(out: &mut String, connected: usize, ports: usize)
    ensures
        final(out)@ == old(out)@ + header_text(connected as nat, ports as nat),
{
    out.append("OK: ports connected: ");
    push_decimal(out, connected as u128);
    out.append("/");
    push_decimal(out, ports as u128);
    out.append(" |");
    assert(out@ =~= old(out)@ + header_text(connected as nat, ports as nat));
}

fn push_summary(out: &mut String, totals: [u128; 4], connected: usize, ports: usize)
    ensures
        final(out)@ == old(out)@ + summary_text(
            totals[0] as nat,
            totals[1] as nat,
            totals[2] as nat,
            totals[3] as nat,
            connected as nat,
            ports as nat,
        ),
{
    out.append(" TotalGoodTX=");
    push_decimal(out, totals[0]);
    out.append("c TotalBadTX=");
    push_decimal(out, totals[1]);
    out.append("c TotalGoodRX=");
    push_decimal(out, totals[2]);
    out.append("c TotalBadRX=");
    push_decimal(out, totals[3]);
    out.append("c PortsConnected=");
    push_decimal(out, connected as u128);
    out.append(" TotalPorts=");
    push_decimal(out, ports as u128);
    assert(out@ =~= old(out)@ + summary_text(
        totals[0] as nat,
        totals[1] as nat,
        totals[2] as nat,
        totals[3] as nat,
        connected as nat,
        ports as nat,
    ));
}

/// Renders the report line: `OK: ports connected: {up}/{all} |`, then the
/// six metrics of each port in port order, then the four counter totals and
/// the two port counts. No line break is added.
pub fn render(stats: &TPLinkStats) -> (r: String)
    requires
        totals_fit(stats@),
    ensures
        r@ == report(stats@),
{
    let ps = &stats.port_statistics;
    let connected = count_connected(ps);
    let mut out = String::new();
    push_header(&mut out, connected, ps.len());
    assert(out@ =~= header(ps@) + ports_text(ps@.take(0)));
    let mut sums: [u128; 4] = [0, 0, 0, 0];
    let mut i: usize = 0;
    while i < ps.len()
        invariant
            i <= ps.len(),
            ps@ == stats@,
            totals_fit(ps@),
            out@ == header(ps@) + ports_text(ps@.take(i as int)),
            sums[0] == total(ps@.take(i as int), Counter::GoodTx),
            sums[1] == total(ps@.take(i as int), Counter::BadTx),
            sums[2] == total(ps@.take(i as int), Counter::GoodRx),
            sums[3] == total(ps@.take(i as int), Counter::BadRx),
        decreases ps.len() - i,
    {
        let p = ps[i];
        assert(ps@.take(i + 1).drop_last() =~= ps@.take(i as int));
        push_port(&mut out, &p);
        assert(out@ =~= header(ps@) + ports_text(ps@.take(i + 1)));
        proof {
            lemma_total_prefix(ps@, i + 1, Counter::GoodTx);
            lemma_total_prefix(ps@, i + 1, Counter::BadTx);
            lemma_total_prefix(ps@, i + 1, Counter::GoodRx);
            lemma_total_prefix(ps@, i + 1, Counter::BadRx);
            assert(total(ps@, Counter::GoodTx) <= u128::MAX);
            assert(total(ps@, Counter::BadTx) <= u128::MAX);
            assert(total(ps@, Counter::GoodRx) <= u128::MAX);
            assert(total(ps@, Counter::BadRx) <= u128::MAX);
        }
        sums = [
            sums[0] + p.tx_good_packets,
            sums[1] + p.tx_bad_packets,
            sums[2] + p.rx_good_packets,
            sums[3] + p.rx_bad_packets,
        ];
        i = i + 1;
    }
    assert(ps@.take(i as int) =~= ps@);
    let ghost body = out@;
    push_summary(&mut out, sums, connected, ps.len());
    assert(out@ =~= body + summary(ps@));
    out
}

} // verus!
