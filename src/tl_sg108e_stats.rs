//! The port statistics page of a TL-SG108E-style switch: its typed model and
//! the extraction of that model from the page's embedded script arrays.
use vstd::prelude::*;

use crate::text::{
    chars_of, find_list_field, is_digit, is_digit_char, is_space,
    is_space_char, list_field, occurs_at, occurs_at_exec, parse_unsigned, parse_unsigned_exec,
    run_end, run_end_exec, split_commas, split_commas_exec,
};

verus! {

/// All ports that the switch reported, in port order.
#[derive(PartialEq, Eq, Debug, Clone)]
pub struct TPLinkStats {
    pub port_statistics: Vec<PortStatistic>,
}

/// Counters and state of one port.
#[derive(PartialEq, Eq, Structural, Debug, Clone, Copy)]
pub struct PortStatistic {
    pub port_number: u8,
    pub enabled: bool,
    pub link_status: LinkStatus,
    pub tx_good_packets: u128,
    pub tx_bad_packets: u128,
    pub rx_good_packets: u128,
    pub rx_bad_packets: u128,
}

/// Negotiated state of one switch port, as the device encodes it.
#[derive(PartialEq, Eq, Structural, Debug, Clone, Copy)]
pub enum LinkStatus {
    Down,
    Auto,
    TenHalf,
    TenFull,
    OneHundredHalf,
    OneHundredFull,
    OneThousandFull,
    Empty,
}

/// A field of the page that could not be found.
#[derive(PartialEq, Eq, Structural, Debug, Clone, Copy)]
pub enum PageField {
    PortCount,
    States,
    LinkStatuses,
    Packets,
}

/// Why a statistics page could not be read.
#[derive(PartialEq, Eq, Structural, Debug, Clone, Copy)]
pub enum ParseError {
    /// A field is absent from the page.
    MissingField(PageField),
    /// A series holds fewer entries than the port count asks for.
    CountMismatch,
    /// A number could not be read, or the series do not fit together.
    MalformedNumber,
}

impl View for TPLinkStats {
    type V = Seq<PortStatistic>;

    open spec fn view(&self) -> Seq<PortStatistic> {
        self.port_statistics@
    }
}

/// The device's link code: `0..=6` name a state, anything larger is `Empty`.
pub open spec fn decode(code: u8) -> LinkStatus {
    if code == 0 {
        LinkStatus::Down
    } else if code == 1 {
        LinkStatus::Auto
    } else if code == 2 {
        LinkStatus::TenHalf
    } else if code == 3 {
        LinkStatus::TenFull
    } else if code == 4 {
        LinkStatus::OneHundredHalf
    } else if code == 5 {
        LinkStatus::OneHundredFull
    } else if code == 6 {
        LinkStatus::OneThousandFull
    } else {
        LinkStatus::Empty
    }
}

/// Decoding never fails: a code names one of the seven states exactly when it
/// is at most six, and every larger code is `Empty`.
pub proof fn lemma_decode_total(code: u8)
    ensures
        (decode(code) == LinkStatus::Empty) == (code >= 7),
{
}

/// A decoded port is connected exactly when its state is a half or full
/// duplex link at 10, 100 or 1000 megabits, that is for codes two to six.
pub proof fn lemma_decoded_connected(code: u8)
    ensures
        decode(code).connected() == (decode(code) is TenHalf || decode(code) is TenFull || decode(
            code,
        ) is OneHundredHalf || decode(code) is OneHundredFull || decode(code) is OneThousandFull),
        decode(code).connected() == (2 <= code <= 6),
{
}

impl LinkStatus {
    /// Whether a link is up at a real speed.
    pub open spec fn connected(self) -> bool {
        !(self is Down || self is Auto || self is Empty)
    }

    /// Nominal speed in megabits per second, as the device reports it.
    pub open spec fn speed(self) -> u16 {
        match self {
            LinkStatus::Down => 0,
            LinkStatus::Auto => 1,
            LinkStatus::TenHalf => 5,
            LinkStatus::TenFull => 10,
            LinkStatus::OneHundredHalf => 50,
            LinkStatus::OneHundredFull => 100,
            LinkStatus::OneThousandFull => 1000,
            LinkStatus::Empty => 0,
        }
    }

    pub open spec fn label(self) -> Seq<char> {
        match self {
            LinkStatus::Down => "Link Down"@,
            LinkStatus::Auto => "Auto"@,
            LinkStatus::TenHalf => "10Half"@,
            LinkStatus::TenFull => "10Full"@,
            LinkStatus::OneHundredHalf => "100Half"@,
            LinkStatus::OneHundredFull => "100Full"@,
            LinkStatus::OneThousandFull => "1000Full"@,
            LinkStatus::Empty => ""@,
        }
    }

    /// A label for display.
    pub fn as_str(&self) -> (r: &'static str)
        ensures
            r@ == self.label(),
    {
        match self {
            LinkStatus::Down => "Link Down",
            LinkStatus::Auto => "Auto",
            LinkStatus::TenHalf => "10Half",
            LinkStatus::TenFull => "10Full",
            LinkStatus::OneHundredHalf => "100Half",
            LinkStatus::OneHundredFull => "100Full",
            LinkStatus::OneThousandFull => "1000Full",
            LinkStatus::Empty => "",
        }
    }

    /// Nominal speed in megabits per second.
    pub fn as_int(&self) -> (r: u16)
        ensures
            r == self.speed(),
    {
        match self {
            LinkStatus::Down => 0,
            LinkStatus::Auto => 1,
            LinkStatus::TenHalf => 5,
            LinkStatus::TenFull => 10,
            LinkStatus::OneHundredHalf => 50,
            LinkStatus::OneHundredFull => 100,
            LinkStatus::OneThousandFull => 1000,
            LinkStatus::Empty => 0,
        }
    }

    pub fn is_connected(&self) -> (r: bool)
        ensures
            r == self.connected(),
    {
        !matches!(self, LinkStatus::Down | LinkStatus::Auto | LinkStatus::Empty)
    }
}

impl From<u8> for LinkStatus {
    fn from(val: u8) -> (r: LinkStatus)
        ensures
            r == decode(val),
    {
        match val {
            0 => LinkStatus::Down,
            1 => LinkStatus::Auto,
            2 => LinkStatus::TenHalf,
            3 => LinkStatus::TenFull,
            4 => LinkStatus::OneHundredHalf,
            5 => LinkStatus::OneHundredFull,
            6 => LinkStatus::OneThousandFull,
            _ => LinkStatus::Empty,
        }
    }
}

impl vstd::std_specs::convert::FromSpecImpl<u8> for LinkStatus {
    open spec fn obeys_from_spec() -> bool {
        true
    }

    open spec fn from_spec(v: u8) -> LinkStatus {
        decode(v)
    }
}


/// The port count stands at `i`: `max_port_num`, a whitespace character,
/// `=`, a whitespace character, then a digit.
pub open spec fn count_match_at(t: Seq<char>, i: int) -> bool {
    let e = i + "max_port_num"@.len();
    &&& occurs_at(t, i, "max_port_num"@)
    &&& e + 3 < t.len()
    &&& is_space(t[e])
    &&& t[e + 1] == '='
    &&& is_space(t[e + 2])
    &&& is_digit(t[e + 3])
}

pub open spec fn first_count_match(t: Seq<char>, i: int) -> Option<int>
    decreases t.len() - i,
{
    if i < 0 || i >= t.len() {
        None
    } else if count_match_at(t, i) {
        Some(i)
    } else {
        first_count_match(t, i + 1)
    }
}

/// The digits of the declared port count, at its first place in the page.
pub open spec fn port_count_field(t: Seq<char>) -> Option<Seq<char>> {
    match first_count_match(t, 0) {
        Some(i) => {
            let s = i + "max_port_num"@.len() + 3;
            Some(t.subrange(s, run_end(t, s, false)))
        },
        None => None,
    }
}

/// The tokens that are exactly `1` (enabled) or `0` (disabled), in order.
pub open spec fn state_flags(toks: Seq<Seq<char>>) -> Seq<bool>
    decreases toks.len(),
{
    if toks.len() == 0 {
        Seq::empty()
    } else {
        let prev = state_flags(toks.drop_last());
        if toks.last() == seq!['1'] {
            prev.push(true)
        } else if toks.last() == seq!['0'] {
            prev.push(false)
        } else {
            prev
        }
    }
}

/// The tokens that read as unsigned decimals up to `max`, in order.
pub open spec fn numbers(toks: Seq<Seq<char>>, max: nat) -> Seq<nat>
    decreases toks.len(),
{
    if toks.len() == 0 {
        Seq::empty()
    } else {
        let prev = numbers(toks.drop_last(), max);
        match parse_unsigned(toks.last(), max) {
            Some(v) => prev.push(v),
            None => prev,
        }
    }
}

proof fn lemma_numbers_bounded(toks: Seq<Seq<char>>, max: nat)
    ensures
        forall|j: int| 0 <= j < numbers(toks, max).len() ==> #[trigger] numbers(toks, max)[j] <= max,
    decreases toks.len(),
{
    if toks.len() > 0 {
        lemma_numbers_bounded(toks.drop_last(), max);
        let prev = numbers(toks.drop_last(), max);
        assert forall|j: int| 0 <= j < numbers(toks, max).len() implies #[trigger] numbers(
            toks,
            max,
        )[j] <= max by {
            if j < prev.len() {
                assert(numbers(toks, max)[j] == prev[j]);
            }
        }
    }
}

pub open spec fn states_of(t: Seq<char>) -> Option<Seq<bool>> {
    match list_field(t, "state:["@, "],"@) {
        Some(f) => Some(state_flags(split_commas(f))),
        None => None,
    }
}

pub open spec fn link_codes_of(t: Seq<char>) -> Option<Seq<nat>> {
    match list_field(t, "link_status:["@, "],"@) {
        Some(f) => Some(numbers(split_commas(f), u8::MAX as nat)),
        None => None,
    }
}

pub open spec fn packets_of(t: Seq<char>) -> Option<Seq<nat>> {
    match list_field(t, "pkts:["@, "]"@) {
        Some(f) => Some(numbers(split_commas(f), u128::MAX as nat)),
        None => None,
    }
}

/// The record of port `i + 1`, from the three aligned series.
pub open spec fn port_of(i: int, states: Seq<bool>, codes: Seq<nat>, packets: Seq<nat>) -> PortStatistic {
    PortStatistic {
        port_number: (i + 1) as u8,
        enabled: states[i],
        link_status: decode(codes[i] as u8),
        tx_good_packets: packets[4 * i] as u128,
        tx_bad_packets: packets[4 * i + 1] as u128,
        rx_good_packets: packets[4 * i + 2] as u128,
        rx_bad_packets: packets[4 * i + 3] as u128,
    }
}

/// What a statistics page holds: one record per declared port, or the first
/// reason, in reading order, why it cannot be read.
pub open spec fn parse_page(t: Seq<char>) -> Result<Seq<PortStatistic>, ParseError> {
    match port_count_field(t) {
        None => Err(ParseError::MissingField(PageField::PortCount)),
        Some(c) => match parse_unsigned(c, usize::MAX as nat) {
            None => Err(ParseError::MalformedNumber),
            Some(n) => match states_of(t) {
                None => Err(ParseError::MissingField(PageField::States)),
                Some(states) => match link_codes_of(t) {
                    None => Err(ParseError::MissingField(PageField::LinkStatuses)),
                    Some(codes) => if codes.len() < n {
                        Err(ParseError::CountMismatch)
                    } else {
                        match packets_of(t) {
                            None => Err(ParseError::MissingField(PageField::Packets)),
                            Some(packets) => if packets.len() < 4 * n {
                                Err(ParseError::CountMismatch)
                            } else if states.len() < n || n > u8::MAX {
                                Err(ParseError::MalformedNumber)
                            } else {
                                Ok(Seq::new(n, |i: int| port_of(i, states, codes, packets)))
                            },
                        }
                    },
                },
            },
        },
    }
}

/// When the link status series holds fewer entries than the declared port
/// count, the page is never read into a snapshot; once the state series is
/// there too, the error is a count mismatch.
pub proof fn lemma_short_link_series_fails(t: Seq<char>, n: nat)
    requires
        port_count_field(t) matches Some(c) && parse_unsigned(c, usize::MAX as nat) == Some(n),
        link_codes_of(t) matches Some(codes) && codes.len() < n,
    ensures
        parse_page(t) is Err,
        states_of(t) is Some ==> parse_page(t) == Err::<Seq<PortStatistic>, ParseError>(
            ParseError::CountMismatch,
        ),
{
}

/// A page that reads at all gives exactly the declared number of ports,
/// numbered from one in order.
pub proof fn lemma_snapshot_matches_count(t: Seq<char>)
    requires
        parse_page(t) is Ok,
    ensures
        port_count_field(t) matches Some(c) && parse_unsigned(c, usize::MAX as nat) matches Some(n)
            && parse_page(t)->Ok_0.len() == n,
        forall|i: int|
            0 <= i < parse_page(t)->Ok_0.len() ==> (#[trigger] parse_page(t)->Ok_0[i]).port_number
                == i + 1,
{
}

fn find_port_count(t: &Vec<char>) -> (r: Option<(usize, usize)>)
    ensures
        match port_count_field(t@) {
            Some(f) => r matches Some((a, b)) && a <= b <= t.len() && t@.subrange(a as int, b as int)
                == f,
            None => r is None,
        },
{
    let marker = chars_of("max_port_num");
    let mut i: usize = 0;
    while i < t.len()
        invariant
            marker@ == "max_port_num"@,
            first_count_match(t@, 0) == first_count_match(t@, i as int),
        decreases t.len() - i,
    {
        if occurs_at_exec(t, i, &marker) {
            let e = i + marker.len();
            if e < t.len() && t.len() - e > 3 && is_space_char(t[e]) && t[e + 1] == '='
                && is_space_char(t[e + 2]) && is_digit_char(t[e + 3]) {
                let b = run_end_exec(t, e + 3, false);
                return Some((e + 3, b));
            }
        }
        i = i + 1;
    }
    None
}

fn state_flags_exec(toks: &Vec<Vec<char>>) -> (r: Vec<bool>)
    ensures
        r@ == state_flags(toks.deep_view()),
{
    let one = chars_of("1");
    let zero = chars_of("0");
    proof {
        reveal_strlit("1");
        reveal_strlit("0");
    }
    let mut out: Vec<bool> = Vec::new();
    let mut k: usize = 0;
    while k < toks.len()
        invariant
            k <= toks.len(),
            one@ == seq!['1'],
            zero@ == seq!['0'],
            out@ == state_flags(toks.deep_view().take(k as int)),
        decreases toks.len() - k,
    {
        let ghost dv = toks.deep_view();
        assert(dv.take(k + 1).drop_last() =~= dv.take(k as int));
        assert(toks[k as int].deep_view() =~= toks[k as int]@);
        let tok = &toks[k];
        if tok.len() == 1 && occurs_at_exec(tok, 0, &one) {
            assert(tok@ =~= seq!['1']);
            out.push(true);
        } else if tok.len() == 1 && occurs_at_exec(tok, 0, &zero) {
            assert(tok@ =~= seq!['0']);
            out.push(false);
        } else {
            assert(tok@ != seq!['1']) by {
                if tok@ == seq!['1'] {
                    assert(tok@.subrange(0, 1) =~= one@);
                }
            }
            assert(tok@ != seq!['0']) by {
                if tok@ == seq!['0'] {
                    assert(tok@.subrange(0, 1) =~= zero@);
                }
            }
        }
        k = k + 1;
    }
    assert(toks.deep_view().take(k as int) =~= toks.deep_view());
    out
}

fn numbers_exec(toks: &Vec<Vec<char>>, max: u128) -> (r: Vec<u128>)
    ensures
        r@.map_values(|x: u128| x as nat) == numbers(toks.deep_view(), max as nat),
{
    let mut out: Vec<u128> = Vec::new();
    let mut k: usize = 0;
    while k < toks.len()
        invariant
            k <= toks.len(),
            out@.map_values(|x: u128| x as nat) == numbers(toks.deep_view().take(k as int), max as nat),
        decreases toks.len() - k,
    {
        let ghost dv = toks.deep_view();
        assert(dv.take(k + 1).drop_last() =~= dv.take(k as int));
        assert(toks[k as int].deep_view() =~= toks[k as int]@);
        let ghost before = out@;
        match parse_unsigned_exec(&toks[k], max) {
            Some(v) => {
                out.push(v);
                assert(out@.map_values(|x: u128| x as nat) =~= before.map_values(|x: u128| x as nat).push(
                    v as nat,
                ));
            },
            None => {},
        }
        k = k + 1;
    }
    assert(toks.deep_view().take(k as int) =~= toks.deep_view());
    out
}

impl TPLinkStats {
    /// Reads the statistics page: the declared port count is the authority,
    /// and each of the three series must cover it.
    pub fn parse(text: &str) -> (r: Result<TPLinkStats, ParseError>)
        ensures
            match r {
                Ok(stats) => parse_page(text@) == Ok::<Seq<PortStatistic>, ParseError>(stats@),
                Err(e) => parse_page(text@) == Err::<Seq<PortStatistic>, ParseError>(e),
            },
    {
        let t = chars_of(text);
        let (ca, cb) = match find_port_count(&t) {
            Some(range) => range,
            None => {
                return Err(ParseError::MissingField(PageField::PortCount));
            },
        };
        let count_digits = slice_of(&t, ca, cb);
        let n = match parse_unsigned_exec(&count_digits, usize::MAX as u128) {
            Some(n) => n as usize,
            None => {
                return Err(ParseError::MalformedNumber);
            },
        };
        let (sa, sb) = match find_list_field(&t, &chars_of("state:["), &chars_of("],")) {
            Some(range) => range,
            None => {
                return Err(ParseError::MissingField(PageField::States));
            },
        };
        let states = state_flags_exec(&split_commas_exec(&t, sa, sb));
        let (la, lb) = match find_list_field(&t, &chars_of("link_status:["), &chars_of("],")) {
            Some(range) => range,
            None => {
                return Err(ParseError::MissingField(PageField::LinkStatuses));
            },
        };
        let codes = numbers_exec(&split_commas_exec(&t, la, lb), u8::MAX as u128);
        if codes.len() < n {
            return Err(ParseError::CountMismatch);
        }
        let (pa, pb) = match find_list_field(&t, &chars_of("pkts:["), &chars_of("]")) {
            Some(range) => range,
            None => {
                return Err(ParseError::MissingField(PageField::Packets));
            },
        };
        let packets = numbers_exec(&split_commas_exec(&t, pa, pb), u128::MAX);
        if packets.len() / 4 < n {
            return Err(ParseError::CountMismatch);
        }
        if states.len() < n || n > u8::MAX as usize {
            return Err(ParseError::MalformedNumber);
        }
        let ghost codes_v = codes@.map_values(|x: u128| x as nat);
        proof {
            lemma_numbers_bounded(split_commas(t@.subrange(la as int, lb as int)), u8::MAX as nat);
            assert forall|j: int| 0 <= j < codes.len() implies codes@[j] <= u8::MAX by {
                assert(codes_v[j] == codes@[j] as nat);
            }
        }
        let ghost packets_v = packets@.map_values(|x: u128| x as nat);
        let mut port_statistics: Vec<PortStatistic> = Vec::new();
        let mut i: usize = 0;
        while i < n
            invariant
                i <= n <= u8::MAX,
                n <= states.len(),
                n <= codes.len(),
                4 * n <= packets.len(),
                codes_v == codes@.map_values(|x: u128| x as nat),
                packets_v == packets@.map_values(|x: u128| x as nat),
                forall|j: int| 0 <= j < codes.len() ==> codes@[j] <= u8::MAX,
                port_statistics@ =~= Seq::new(i as nat, |j: int| port_of(j, states@, codes_v, packets_v)),
            decreases n - i,
        {
            let p = PortStatistic {
                port_number: (i + 1) as u8,
                enabled: states[i],
                link_status: LinkStatus::from(codes[i] as u8),
                tx_good_packets: packets[4 * i],
                tx_bad_packets: packets[4 * i + 1],
                rx_good_packets: packets[4 * i + 2],
                rx_bad_packets: packets[4 * i + 3],
            };
            port_statistics.push(p);
            i = i + 1;
        }
        Ok(TPLinkStats { port_statistics })
    }
}

/// A copy of `t[a..b]`.
fn slice_of(t: &Vec<char>, a: usize, b: usize) -> (r: Vec<char>)
    requires
        a <= b <= t.len(),
    ensures
        r@ == t@.subrange(a as int, b as int),
{
    let mut r: Vec<char> = Vec::new();
    let mut i = a;
    while i < b
        invariant
            a <= i <= b <= t.len(),
            r@ == t@.subrange(a as int, i as int),
        decreases b - i,
    {
        r.push(t[i]);
        assert(t@.subrange(a as int, i + 1) =~= t@.subrange(a as int, i as int).push(t@[i as int]));
        i = i + 1;
    }
    r
}

} // verus!
