//! NetworkManager (`nmcli --terse`) output parsing: visible networks and the
//! active connection.
use vstd::prelude::*;
use crate::text::{
    ascii_lower, chars_eq, chars_of, has_prefix, is_hex, is_hex_digit, lemma_lex_le_total,
    lemma_lex_le_trans, lex_le, lex_le_chars, lines, parse_i32, parse_u32, slice_chars,
    spec_parse_i32, spec_parse_u32, split_lines, string_of, to_ascii_lower, trim, trim_chars,
    views,
};

verus! {

broadcast use vstd::string::group_string_axioms;

/// The name of the NetworkManager command line client.
pub const NMCLI: &'static str = "nmcli";

/// One visible access point.
#[derive(Debug, Clone)]
pub struct WifiNetwork {
    pub ssid: String,
    pub bssid: Option<String>,
    pub signal_pct: i32,
    pub frequency_mhz: Option<u32>,
    pub security: String,
    /// True when the SSID is stored as a known network (set by the
    /// settings daemon; always false for direct local scans).
    pub known: bool,
}

pub struct WifiNetworkView {
    pub ssid: Seq<char>,
    pub bssid: Option<Seq<char>>,
    pub signal_pct: i32,
    pub frequency_mhz: Option<u32>,
    pub security: Seq<char>,
    pub known: bool,
}

pub open spec fn opt_chars(o: Option<String>) -> Option<Seq<char>> {
    match o {
        Some(s) => Some(s@),
        None => None,
    }
}

impl View for WifiNetwork {
    type V = WifiNetworkView;

    open spec fn view(&self) -> WifiNetworkView {
        WifiNetworkView {
            ssid: self.ssid@,
            bssid: opt_chars(self.bssid),
            signal_pct: self.signal_pct,
            frequency_mhz: self.frequency_mhz,
            security: self.security@,
            known: self.known,
        }
    }
}

/// The active connection of a wireless interface.
#[derive(Debug, Clone)]
pub struct WifiStatus {
    pub interface: String,
    pub ssid: Option<String>,
    pub bssid: Option<String>,
    pub signal_pct: i32,
    pub frequency_mhz: Option<u32>,
    pub security: String,
    pub state: String,
    pub ipv4: Option<String>,
}

pub struct WifiStatusView {
    pub interface: Seq<char>,
    pub ssid: Option<Seq<char>>,
    pub bssid: Option<Seq<char>>,
    pub signal_pct: i32,
    pub frequency_mhz: Option<u32>,
    pub security: Seq<char>,
    pub state: Seq<char>,
    pub ipv4: Option<Seq<char>>,
}

impl View for WifiStatus {
    type V = WifiStatusView;

    open spec fn view(&self) -> WifiStatusView {
        WifiStatusView {
            interface: self.interface@,
            ssid: opt_chars(self.ssid),
            bssid: opt_chars(self.bssid),
            signal_pct: self.signal_pct,
            frequency_mhz: self.frequency_mhz,
            security: self.security@,
            state: self.state@,
            ipv4: opt_chars(self.ipv4),
        }
    }
}

/// The state of the terse splitter: the fields so far, the current field,
/// and whether the previous character was an escaping backslash.
pub struct TerseState {
    pub fields: Seq<Seq<char>>,
    pub current: Seq<char>,
    pub escaped: bool,
}

/// One character of a terse line: an escaped character is taken literally,
/// a backslash escapes the next one, a colon ends the field.
pub open spec fn terse_step(st: TerseState, c: char) -> TerseState {
    if st.escaped {
        TerseState { fields: st.fields, current: st.current.push(c), escaped: false }
    } else if c == '\\' {
        TerseState { fields: st.fields, current: st.current, escaped: true }
    } else if c == ':' {
        TerseState { fields: st.fields.push(st.current), current: Seq::empty(), escaped: false }
    } else {
        TerseState { fields: st.fields, current: st.current.push(c), escaped: false }
    }
}

pub open spec fn terse_start() -> TerseState {
    TerseState { fields: Seq::empty(), current: Seq::empty(), escaped: false }
}

/// The unescaped fields of one `nmcli -t` line; an empty line has none.
pub open spec fn spec_split_terse(line: Seq<char>) -> Seq<Seq<char>> {
    let st = line.fold_left(terse_start(), |st: TerseState, c: char| terse_step(st, c));
    if st.current.len() > 0 || st.fields.len() > 0 {
        st.fields.push(st.current)
    } else {
        st.fields
    }
}

fn split_terse_chars(line: &[char]) -> (r: Vec<Vec<char>>)
    ensures
        views(r@) == spec_split_terse(line@),
{
    let mut fields: Vec<Vec<char>> = Vec::new();
    let mut current: Vec<char> = Vec::new();
    let mut escaped = false;
    let mut i: usize = 0;
    while i < line.len()
        invariant
            i <= line.len(),
            ({
                let st = line@.take(i as int).fold_left(
                    terse_start(),
                    |st: TerseState, c: char| terse_step(st, c),
                );
                st.fields == views(fields@) && st.current == current@ && st.escaped == escaped
            }),
        decreases line.len() - i,
    {
        let c = line[i];
        assert(line@.take(i + 1).drop_last() == line@.take(i as int));
        assert(line@.take(i + 1).last() == c);
        if escaped {
            current.push(c);
            escaped = false;
        } else if c == '\\' {
            escaped = true;
        } else if c == ':' {
            let done = current;
            current = Vec::new();
            let ghost before = fields@;
            fields.push(done);
            assert(views(fields@) == views(before).push(done@));
        } else {
            current.push(c);
        }
        i += 1;
    }
    assert(line@.take(line.len() as int) == line@);
    if current.len() > 0 || fields.len() > 0 {
        let ghost before = fields@;
        let cv = current;
        fields.push(cv);
        assert(views(fields@) == views(before).push(cv@));
    }
    fields
}

fn strings_of(v: Vec<Vec<char>>) -> (r: Vec<String>)
    ensures
        r@.len() == v@.len(),
        forall|k: int| 0 <= k < r.len() ==> (#[trigger] r@[k])@ == v@[k]@,
{
    let mut r: Vec<String> = Vec::new();
    let mut i: usize = 0;
    while i < v.len()
        invariant
            i <= v.len(),
            r@.len() == i,
            forall|k: int| 0 <= k < i ==> (#[trigger] r@[k])@ == v@[k]@,
        decreases v.len() - i,
    {
        r.push(string_of(&v[i]));
        i += 1;
    }
    r
}

/// Splits one `nmcli -t` terse line into unescaped fields.
///
/// nmcli escapes literal colons as `\:` and backslashes as `\\`, so splitting
/// skips escaped characters and unescapes them.
pub fn split_terse(line: &str) -> (r: Vec<String>)
    ensures
        r@.len() == spec_split_terse(line@).len(),
        forall|k: int| 0 <= k < r.len() ==> (#[trigger] r@[k])@ == spec_split_terse(line@)[k],
{
    let v = split_terse_chars(&chars_of(line));
    let r = strings_of(v);
    proof {
        assert forall|k: int| 0 <= k < r.len() implies (#[trigger] r@[k])@ == spec_split_terse(
            line@,
        )[k] by {
            assert(views(v@)[k] == v@[k]@);
        }
    }
    r
}

/// The channel of a 2.4 GHz or 5 GHz frequency.
pub open spec fn spec_freq_to_channel(f: int) -> Option<u8> {
    if 2412 <= f <= 2472 {
        Some(((f - 2412) / 5 + 1) as u8)
    } else if f == 2484 {
        Some(14)
    } else if 5160 <= f <= 5885 {
        Some(((f - 5000) / 5) as u8)
    } else {
        None
    }
}

/// Maps a 2.4 GHz or 5 GHz frequency to its WiFi channel number.
pub fn freq_to_channel(freq_mhz: u32) -> (r: Option<u8>)
    ensures
        r == spec_freq_to_channel(freq_mhz as int),
{
    if 2412 <= freq_mhz && freq_mhz <= 2472 {
        Some(((freq_mhz - 2412) / 5 + 1) as u8)
    } else if freq_mhz == 2484 {
        Some(14)
    } else if 5160 <= freq_mhz && freq_mhz <= 5885 {
        Some(((freq_mhz - 5000) / 5) as u8)
    } else {
        None
    }
}

impl WifiNetwork {
    /// The channel of the network's frequency.
    pub fn channel(&self) -> (r: Option<u8>)
        ensures
            r == match self.frequency_mhz {
                Some(f) => spec_freq_to_channel(f as int),
                None => None,
            },
    {
        match self.frequency_mhz {
            Some(f) => freq_to_channel(f),
            None => None,
        }
    }
}

/// Six colon-separated groups of two hex digits.
pub open spec fn bssid_layout(s: Seq<char>) -> bool {
    &&& s.len() == 17
    &&& forall|k: int|
        0 <= k < 17 ==> (if k % 3 == 2 {
            #[trigger] s[k] == ':'
        } else {
            is_hex(s[k])
        })
}

/// A BSSID in lower case, when the text is one.
pub open spec fn spec_normalize_bssid(raw: Seq<char>) -> Option<Seq<char>> {
    if bssid_layout(raw) {
        Some(raw.map_values(|c: char| ascii_lower(c)))
    } else {
        None
    }
}

fn normalize_bssid_chars(raw: &[char]) -> (r: Option<Vec<char>>)
    ensures
        match r {
            Some(b) => spec_normalize_bssid(raw@) == Some(b@),
            None => spec_normalize_bssid(raw@).is_none(),
        },
{
    if raw.len() != 17 {
        return None;
    }
    let mut out: Vec<char> = Vec::new();
    let mut k: usize = 0;
    while k < 17
        invariant
            raw.len() == 17,
            k <= 17,
            forall|j: int|
                0 <= j < k ==> (if j % 3 == 2 {
                    #[trigger] raw@[j] == ':'
                } else {
                    is_hex(raw@[j])
                }),
            out@ == raw@.map_values(|c: char| ascii_lower(c)).take(k as int),
        decreases 17 - k,
    {
        let c = raw[k];
        if k % 3 == 2 {
            if c != ':' {
                return None;
            }
        } else {
            if !is_hex_digit(c) {
                return None;
            }
        }
        out.push(to_ascii_lower(c));
        assert(raw@.map_values(|c: char| ascii_lower(c)).take(k + 1) == raw@.map_values(
            |c: char| ascii_lower(c),
        ).take(k as int).push(ascii_lower(c)));
        k += 1;
    }
    assert(out@ == raw@.map_values(|c: char| ascii_lower(c)));
    Some(out)
}

/// Normalizes a BSSID to lower case; `None` when the text is not one.
pub fn normalize_bssid(raw: &str) -> (r: Option<String>)
    ensures
        opt_chars(r) == spec_normalize_bssid(raw@),
{
    match normalize_bssid_chars(&chars_of(raw)) {
        Some(b) => Some(string_of(&b)),
        None => None,
    }
}


/// A percentage clamped to `0..=100`.
pub open spec fn clamp_pct(v: int) -> int {
    if v < 0 {
        0
    } else if v > 100 {
        100
    } else {
        v
    }
}

/// The network described by one `SSID:BSSID:SIGNAL:FREQ:SECURITY` terse
/// line: at least five fields and a numeric signal are needed; the signal is
/// clamped to 0..=100, an unreadable frequency or BSSID is left out and an
/// empty security field reads `OPEN`.
pub open spec fn spec_parse_network_line(line: Seq<char>) -> Option<WifiNetworkView> {
    let f = spec_split_terse(line);
    if f.len() < 5 {
        None
    } else {
        match spec_parse_i32(trim(f[2])) {
            None => None,
            Some(signal) => Some(
                WifiNetworkView {
                    ssid: trim(f[0]),
                    bssid: spec_normalize_bssid(trim(f[1])),
                    signal_pct: clamp_pct(signal as int) as i32,
                    frequency_mhz: spec_parse_u32(trim(f[3])),
                    security: if trim(f[4]).len() == 0 {
                        "OPEN"@
                    } else {
                        trim(f[4])
                    },
                    known: false,
                },
            ),
        }
    }
}

fn parse_network_line_chars(line: &[char]) -> (r: Option<WifiNetwork>)
    ensures
        match r {
            Some(n) => spec_parse_network_line(line@) == Some(n@),
            None => spec_parse_network_line(line@).is_none(),
        },
{
    let f = split_terse_chars(line);
    if f.len() < 5 {
        return None;
    }
    assert(views(f@)[0] == f@[0]@ && views(f@)[1] == f@[1]@ && views(f@)[2] == f@[2]@
        && views(f@)[3] == f@[3]@ && views(f@)[4] == f@[4]@);
    let signal = match parse_i32(&trim_chars(&f[2])) {
        Some(s) => s,
        None => return None,
    };
    let ssid = trim_chars(&f[0]);
    let bssid = match normalize_bssid_chars(&trim_chars(&f[1])) {
        Some(b) => Some(string_of(&b)),
        None => None,
    };
    let frequency_mhz = parse_u32(&trim_chars(&f[3]));
    let sec = trim_chars(&f[4]);
    let security = if sec.len() == 0 {
        string_of(&chars_of("OPEN"))
    } else {
        string_of(&sec)
    };
    let signal_pct = if signal < 0 {
        0
    } else if signal > 100 {
        100
    } else {
        signal
    };
    Some(
        WifiNetwork {
            ssid: string_of(&ssid),
            bssid,
            signal_pct,
            frequency_mhz,
            security,
            known: false,
        },
    )
}

/// Parses one `nmcli -t -f SSID,BSSID,SIGNAL,FREQ,SECURITY dev wifi list` line.
pub fn parse_network_line(line: &str) -> (r: Option<WifiNetwork>)
    ensures
        match r {
            Some(n) => spec_parse_network_line(line@) == Some(n@),
            None => spec_parse_network_line(line@).is_none(),
        },
{
    parse_network_line_chars(&chars_of(line))
}

pub open spec fn network_views(v: Seq<WifiNetwork>) -> Seq<WifiNetworkView> {
    v.map_values(|n: WifiNetwork| n@)
}

/// Index of the network with this SSID and BSSID at or after `i`, or the
/// length.
pub open spec fn network_index(
    t: Seq<WifiNetworkView>,
    ssid: Seq<char>,
    bssid: Option<Seq<char>>,
    i: int,
) -> int
    decreases t.len() - i,
{
    if 0 <= i < t.len() && !(t[i].ssid == ssid && t[i].bssid == bssid) {
        network_index(t, ssid, bssid, i + 1)
    } else {
        i
    }
}

pub proof fn lemma_network_index(
    t: Seq<WifiNetworkView>,
    ssid: Seq<char>,
    bssid: Option<Seq<char>>,
    i: int,
)
    requires
        0 <= i <= t.len(),
    ensures
        i <= network_index(t, ssid, bssid, i) <= t.len(),
        network_index(t, ssid, bssid, i) < t.len() ==> t[network_index(t, ssid, bssid, i)].ssid
            == ssid && t[network_index(t, ssid, bssid, i)].bssid == bssid,
        forall|k: int|
            i <= k < network_index(t, ssid, bssid, i) ==> !((#[trigger] t[k]).ssid == ssid
                && t[k].bssid == bssid),
    decreases t.len() - i,
{
    if i < t.len() && !(t[i].ssid == ssid && t[i].bssid == bssid) {
        lemma_network_index(t, ssid, bssid, i + 1);
    }
}

/// The table after one more network: a network with a new SSID and BSSID is
/// appended; one with a known pair replaces the entry when its signal is
/// stronger.
pub open spec fn merge_network(t: Seq<WifiNetworkView>, n: WifiNetworkView) -> Seq<
    WifiNetworkView,
> {
    let k = network_index(t, n.ssid, n.bssid, 0);
    if k < t.len() {
        if n.signal_pct > t[k].signal_pct {
            t.update(k, n)
        } else {
            t
        }
    } else {
        t.push(n)
    }
}

/// One entry per SSID and BSSID among the parsed lines.
pub open spec fn network_table(ls: Seq<Seq<char>>) -> Seq<WifiNetworkView>
    decreases ls.len(),
{
    if ls.len() == 0 {
        Seq::empty()
    } else {
        let t = network_table(ls.drop_last());
        match spec_parse_network_line(ls.last()) {
            Some(n) => merge_network(t, n),
            None => t,
        }
    }
}

/// `a` comes before `b`: stronger signal first, then by SSID.
pub open spec fn network_before(a: WifiNetworkView, b: WifiNetworkView) -> bool {
    a.signal_pct > b.signal_pct || (a.signal_pct == b.signal_pct && lex_le(a.ssid, b.ssid))
}

pub open spec fn sorted_networks(s: Seq<WifiNetworkView>) -> bool {
    forall|i: int, j: int| 0 <= i < j < s.len() ==> network_before(s[i], s[j])
}

/// No SSID and BSSID pair occurs twice.
pub open spec fn distinct_networks(s: Seq<WifiNetworkView>) -> bool {
    forall|i: int, j: int|
        0 <= i < j < s.len() ==> !(s[i].ssid == s[j].ssid && s[i].bssid == s[j].bssid)
}

proof fn lemma_network_before_trans(a: WifiNetworkView, b: WifiNetworkView, c: WifiNetworkView)
    requires
        network_before(a, b),
        network_before(b, c),
    ensures
        network_before(a, c),
{
    if a.signal_pct == b.signal_pct && b.signal_pct == c.signal_pct {
        lemma_lex_le_trans(a.ssid, b.ssid, c.ssid);
    }
}

proof fn lemma_network_before_total(a: WifiNetworkView, b: WifiNetworkView)
    ensures
        network_before(a, b) || network_before(b, a),
{
    lemma_lex_le_total(a.ssid, b.ssid);
}

proof fn lemma_merge_network_distinct(t: Seq<WifiNetworkView>, n: WifiNetworkView)
    requires
        distinct_networks(t),
    ensures
        distinct_networks(merge_network(t, n)),
{
    lemma_network_index(t, n.ssid, n.bssid, 0);
}

/// The network table holds at most one entry per SSID and BSSID.
pub proof fn lemma_network_table_distinct(ls: Seq<Seq<char>>)
    ensures
        distinct_networks(network_table(ls)),
    decreases ls.len(),
{
    if ls.len() > 0 {
        lemma_network_table_distinct(ls.drop_last());
        match spec_parse_network_line(ls.last()) {
            Some(n) => lemma_merge_network_distinct(network_table(ls.drop_last()), n),
            None => {},
        }
    }
}

fn same_network_key(a: &WifiNetwork, b: &WifiNetwork) -> (r: bool)
    ensures
        r == (a@.ssid == b@.ssid && a@.bssid == b@.bssid),
{
    if a.ssid != b.ssid {
        return false;
    }
    match (&a.bssid, &b.bssid) {
        (Some(x), Some(y)) => *x == *y,
        (None, None) => true,
        _ => false,
    }
}

fn merge_network_into(table: &mut Vec<WifiNetwork>, n: WifiNetwork)
    ensures
        network_views(final(table)@) == merge_network(network_views(old(table)@), n@),
{
    let ghost t = network_views(table@);
    let mut k: usize = 0;
    while k < table.len() && !same_network_key(&table[k], &n)
        invariant
            k <= table.len(),
            t == network_views(table@),
            network_index(t, n@.ssid, n@.bssid, k as int) == network_index(
                t,
                n@.ssid,
                n@.bssid,
                0,
            ),
        decreases table.len() - k,
    {
        k += 1;
    }
    if k < table.len() {
        if n.signal_pct > table[k].signal_pct {
            let _ = table.remove(k);
            let ghost nv = n@;
            table.insert(k, n);
            assert(network_views(table@) == t.update(k as int, nv));
        }
    } else {
        let ghost nv = n@;
        table.push(n);
        assert(network_views(table@) == t.push(nv));
    }
}

fn network_before_exec(a: &WifiNetwork, b: &WifiNetwork) -> (r: bool)
    ensures
        r == network_before(a@, b@),
{
    a.signal_pct > b.signal_pct || (a.signal_pct == b.signal_pct && lex_le_chars(
        &chars_of(a.ssid.as_str()),
        &chars_of(b.ssid.as_str()),
    ))
}

fn sort_networks(v: Vec<WifiNetwork>) -> (r: Vec<WifiNetwork>)
    requires
        distinct_networks(network_views(v@)),
    ensures
        sorted_networks(network_views(r@)),
        distinct_networks(network_views(r@)),
        network_views(r@).to_multiset() == network_views(v@).to_multiset(),
{
    broadcast use vstd::seq_lib::group_to_multiset_ensures, vstd::multiset::group_multiset_axioms;

    let mut src = v;
    let mut r: Vec<WifiNetwork> = Vec::new();
    assert(network_views(r@).to_multiset() =~= vstd::multiset::Multiset::empty());
    while src.len() > 0
        invariant
            sorted_networks(network_views(r@)),
            distinct_networks(network_views(r@)),
            distinct_networks(network_views(src@)),
            forall|a: int, b: int|
                0 <= a < r.len() && 0 <= b < src.len() ==> !((#[trigger] r@[a])@.ssid == (
                #[trigger] src@[b])@.ssid && r@[a]@.bssid == src@[b]@.bssid),
            network_views(r@).to_multiset().add(network_views(src@).to_multiset())
                == network_views(v@).to_multiset(),
        decreases src.len(),
    {
        let ghost before_src = src@;
        let x = src.pop().unwrap();
        assert(network_views(before_src) == network_views(src@).push(x@));
        let mut p: usize = 0;
        while p < r.len() && network_before_exec(&r[p], &x)
            invariant
                p <= r.len(),
                sorted_networks(network_views(r@)),
                forall|k: int| 0 <= k < p ==> network_before((#[trigger] r@[k])@, x@),
            decreases r.len() - p,
        {
            p += 1;
        }
        let ghost old_r = network_views(r@);
        let ghost old_r_exec = r@;
        let ghost xv = x@;
        r.insert(p, x);
        assert(network_views(r@) == old_r.insert(p as int, xv));
        proof {
            broadcast use vstd::multiset::group_multiset_axioms;

            vstd::seq_lib::to_multiset_insert(old_r, p as int, xv);
            vstd::seq_lib::to_multiset_build(network_views(src@), xv);
            assert(network_views(r@).to_multiset().add(network_views(src@).to_multiset())
                =~= old_r.to_multiset().add(network_views(before_src).to_multiset()));
        }
        assert forall|i: int, j: int|
            0 <= i < j < network_views(r@).len() implies network_before(
            network_views(r@)[i],
            network_views(r@)[j],
        ) by {
            if j == p {
                assert(network_views(r@)[i] == old_r[i]);
            } else if i == p {
                assert(network_views(r@)[j] == old_r[j - 1]);
                lemma_network_before_total(old_r[p as int], xv);
                if j - 1 > p {
                    lemma_network_before_trans(xv, old_r[p as int], old_r[j - 1]);
                }
            } else if i < p && j > p {
                assert(network_views(r@)[i] == old_r[i]);
                assert(network_views(r@)[j] == old_r[j - 1]);
            } else if i > p {
                assert(network_views(r@)[i] == old_r[i - 1]);
                assert(network_views(r@)[j] == old_r[j - 1]);
            } else {
                assert(network_views(r@)[i] == old_r[i]);
                assert(network_views(r@)[j] == old_r[j]);
            }
        }
        assert forall|a: int, b: int|
            0 <= a < b < network_views(src@).len() implies !(network_views(src@)[a].ssid
            == network_views(src@)[b].ssid && network_views(src@)[a].bssid == network_views(
            src@,
        )[b].bssid) by {
            assert(network_views(src@)[a] == network_views(before_src)[a]);
            assert(network_views(src@)[b] == network_views(before_src)[b]);
        }
        assert forall|a: int, b: int|
            0 <= a < b < network_views(r@).len() implies !(network_views(r@)[a].ssid
            == network_views(r@)[b].ssid && network_views(r@)[a].bssid == network_views(
            r@,
        )[b].bssid) by {
            if a == p {
                assert(network_views(r@)[b] == old_r[b - 1]);
                assert(network_views(before_src)[before_src.len() - 1] == xv);
            } else if b == p {
                assert(network_views(r@)[a] == old_r[a]);
                assert(network_views(before_src)[before_src.len() - 1] == xv);
            } else if a < p && b > p {
                assert(network_views(r@)[a] == old_r[a]);
                assert(network_views(r@)[b] == old_r[b - 1]);
            } else if a > p {
                assert(network_views(r@)[a] == old_r[a - 1]);
                assert(network_views(r@)[b] == old_r[b - 1]);
            } else {
                assert(network_views(r@)[a] == old_r[a]);
                assert(network_views(r@)[b] == old_r[b]);
            }
        }
        assert forall|a: int, b: int|
            0 <= a < r.len() && 0 <= b < src.len() implies !((#[trigger] r@[a])@.ssid == (
            #[trigger] src@[b])@.ssid && r@[a]@.bssid == src@[b]@.bssid) by {
            assert(src@[b] == before_src[b]);
            if a == p {
                assert(before_src[before_src.len() - 1] == r@[a]);
                assert(network_views(before_src)[b] == before_src[b]@);
                assert(network_views(before_src)[before_src.len() - 1] == xv);
            } else if a < p {
                assert(r@[a] == old_r_exec[a]);
            } else {
                assert(r@[a] == old_r_exec[a - 1]);
            }
        }
    }
    assert(network_views(src@).to_multiset() =~= vstd::multiset::Multiset::empty());
    r
}

/// The lines after the header line.
pub open spec fn after_header(ls: Seq<Seq<char>>) -> Seq<Seq<char>> {
    if ls.len() == 0 {
        ls
    } else {
        ls.skip(1)
    }
}

/// The networks of a full `dev wifi list` output (its first line is the
/// header): one per SSID and BSSID, the one with the strongest signal,
/// sorted by signal (strongest first) and then by SSID.
pub fn parse_network_list(text: &str) -> (r: Vec<WifiNetwork>)
    ensures
        network_views(r@).to_multiset() == network_table(after_header(lines(text@))).to_multiset(),
        sorted_networks(network_views(r@)),
        distinct_networks(network_views(r@)),
{
    let ls = split_lines(&chars_of(text));
    let ghost all = after_header(lines(text@));
    let mut table: Vec<WifiNetwork> = Vec::new();
    let mut i: usize = 1;
    if ls.len() == 0 {
        assert(network_views(table@) =~= Seq::<WifiNetworkView>::empty());
        return table;
    }
    while i < ls.len()
        invariant
            views(ls@) == lines(text@),
            all == lines(text@).skip(1),
            ls.len() > 0,
            1 <= i <= ls.len(),
            network_views(table@) == network_table(all.take(i - 1)),
        decreases ls.len() - i,
    {
        assert(ls@[i as int]@ == all[i - 1]);
        assert(all.take(i as int).drop_last() == all.take(i - 1));
        assert(all.take(i as int).last() == all[i - 1]);
        match parse_network_line_chars(&ls[i]) {
            Some(n) => merge_network_into(&mut table, n),
            None => {},
        }
        i += 1;
    }
    assert(all.take(ls.len() - 1) == all);
    proof {
        lemma_network_table_distinct(all);
    }
    sort_networks(table)
}


/// The read-only WiFi client.
#[derive(Debug, Clone, Copy)]
pub struct Wifi;

impl Wifi {
    pub fn new() -> Self {
        Wifi
    }
}

impl Default for Wifi {
    fn default() -> Self {
        Wifi
    }
}

/// The status an active row of `ACTIVE,SSID,BSSID,SIGNAL,FREQ,SECURITY`
/// describes; missing fields read as empty, an unreadable signal as 0.
pub open spec fn row_status(iface: Seq<char>, f: Seq<Seq<char>>) -> WifiStatusView {
    WifiStatusView {
        interface: iface,
        ssid: Some(
            if f.len() > 1 {
                f[1]
            } else {
                Seq::empty()
            },
        ),
        bssid: if f.len() > 2 {
            spec_normalize_bssid(trim(f[2]))
        } else {
            None
        },
        signal_pct: if f.len() > 3 {
            match spec_parse_i32(trim(f[3])) {
                Some(s) => s,
                None => 0,
            }
        } else {
            0
        },
        frequency_mhz: if f.len() > 4 {
            spec_parse_u32(trim(f[4]))
        } else {
            None
        },
        security: if f.len() > 5 {
            f[5]
        } else {
            Seq::empty()
        },
        state: Seq::empty(),
        ipv4: None,
    }
}

/// The first row from position `i` whose `ACTIVE` field is `yes`.
pub open spec fn active_row_from(ls: Seq<Seq<char>>, i: int) -> Option<Seq<Seq<char>>>
    decreases ls.len() - i,
{
    if i < 0 || i >= ls.len() {
        None
    } else {
        let f = spec_split_terse(ls[i]);
        if f.len() > 0 && f[0] == "yes"@ {
            Some(f)
        } else {
            active_row_from(ls, i + 1)
        }
    }
}

/// The connection that a `device wifi list ifname <iface>` listing shows as
/// active (its header line skipped), without state and address yet.
pub open spec fn spec_active_status(iface: Seq<char>, text: Seq<char>) -> Option<WifiStatusView> {
    match active_row_from(lines(text), 1) {
        Some(f) => Some(row_status(iface, f)),
        None => None,
    }
}

fn field_or_empty(f: &Vec<Vec<char>>, k: usize) -> (r: Vec<char>)
    ensures
        r@ == (if k < f@.len() {
            f@[k as int]@
        } else {
            Seq::empty()
        }),
{
    if k < f.len() {
        slice_chars(&f[k], 0, f[k].len())
    } else {
        Vec::new()
    }
}

/// Reads the active connection of `iface` from a terse
/// `ACTIVE,SSID,BSSID,SIGNAL,FREQ,SECURITY` listing; `None` when no row is
/// active.
pub fn active_status(iface: &str, list_text: &str) -> (r: Option<WifiStatus>)
    ensures
        match r {
            Some(st) => spec_active_status(iface@, list_text@) == Some(st@),
            None => spec_active_status(iface@, list_text@).is_none(),
        },
{
    let ls = split_lines(&chars_of(list_text));
    let ghost all = lines(list_text@);
    let yes = chars_of("yes");
    let mut i: usize = 1;
    while i < ls.len()
        invariant
            views(ls@) == all,
            all == lines(list_text@),
            1 <= i,
            yes@ == "yes"@,
            active_row_from(all, i as int) == active_row_from(all, 1),
        decreases ls.len() - i,
    {
        assert(ls@[i as int]@ == all[i as int]);
        let f = split_terse_chars(&ls[i]);
        let ghost fv = views(f@);
        if f.len() > 0 && chars_eq(&f[0], &yes) {
            assert(fv[0] == f@[0]@);
            assert(active_row_from(all, i as int) == Some(fv));
            let ssid = field_or_empty(&f, 1);
            let bssid = if f.len() > 2 {
                assert(fv[2] == f@[2]@);
                match normalize_bssid_chars(&trim_chars(&f[2])) {
                    Some(b) => Some(string_of(&b)),
                    None => None,
                }
            } else {
                None
            };
            let signal_pct = if f.len() > 3 {
                assert(fv[3] == f@[3]@);
                match parse_i32(&trim_chars(&f[3])) {
                    Some(s) => s,
                    None => 0,
                }
            } else {
                0
            };
            let frequency_mhz = if f.len() > 4 {
                assert(fv[4] == f@[4]@);
                parse_u32(&trim_chars(&f[4]))
            } else {
                None
            };
            let security = field_or_empty(&f, 5);
            if f.len() > 1 {
                assert(fv[1] == f@[1]@);
            }
            if f.len() > 5 {
                assert(fv[5] == f@[5]@);
            }
            let st = WifiStatus {
                    interface: string_of(&chars_of(iface)),
                    ssid: Some(string_of(&ssid)),
                    bssid,
                    signal_pct,
                    frequency_mhz,
                    security: string_of(&security),
                    state: String::new(),
                    ipv4: None,
                };
            assert(st@ == row_status(iface@, fv));
            return Some(st);
        }
        i += 1;
    }
    None
}

/// The state `device status` (with the `DEVICE,STATE` fields) reports for
/// `iface`: the second field of the first row whose first field is the
/// interface; `unknown` without output, row or field.
pub open spec fn spec_device_state(iface: Seq<char>, output: Option<Seq<char>>) -> Seq<char> {
    match output {
        None => "unknown"@,
        Some(text) => match state_row_from(lines(text), iface, 0) {
            Some(f) => if f.len() > 1 {
                f[1]
            } else {
                "unknown"@
            },
            None => "unknown"@,
        },
    }
}

/// The first row from position `i` whose first field is `iface`.
pub open spec fn state_row_from(ls: Seq<Seq<char>>, iface: Seq<char>, i: int) -> Option<
    Seq<Seq<char>>,
>
    decreases ls.len() - i,
{
    if i < 0 || i >= ls.len() {
        None
    } else {
        let f = spec_split_terse(ls[i]);
        if f.len() > 0 && f[0] == iface {
            Some(f)
        } else {
            state_row_from(ls, iface, i + 1)
        }
    }
}

/// Reads the device state of `iface` from `nmcli --terse -f DEVICE,STATE
/// device status` output, if the command gave any.
pub fn device_state(iface: &str, output: Option<&str>) -> (r: String)
    ensures
        r@ == spec_device_state(
            iface@,
            match output {
                Some(t) => Some(t@),
                None => None,
            },
        ),
{
    let unknown = string_of(&chars_of("unknown"));
    let text = match output {
        Some(t) => t,
        None => return unknown,
    };
    let ls = split_lines(&chars_of(text));
    let ghost all = lines(text@);
    let name = chars_of(iface);
    let mut i: usize = 0;
    while i < ls.len()
        invariant
            views(ls@) == all,
            all == lines(text@),
            output == Some(text),
            unknown@ == "unknown"@,
            name@ == iface@,
            state_row_from(all, iface@, i as int) == state_row_from(all, iface@, 0),
        decreases ls.len() - i,
    {
        assert(ls@[i as int]@ == all[i as int]);
        let f = split_terse_chars(&ls[i]);
        let ghost fv = views(f@);
        if f.len() > 0 && chars_eq(&f[0], &name) {
            assert(fv[0] == f@[0]@);
            assert(state_row_from(all, iface@, i as int) == Some(fv));
            if f.len() > 1 {
                assert(fv[1] == f@[1]@);
                return string_of(&f[1]);
            }
            return unknown;
        }
        i += 1;
    }
    unknown
}


/// A parsed network has a signal within 0..=100, a non-empty security and is
/// never marked known.
pub proof fn lemma_parsed_network_laws(line: Seq<char>)
    ensures
        spec_parse_network_line(line) matches Some(n) ==> 0 <= n.signal_pct <= 100
            && n.security.len() > 0 && !n.known,
{
    if let Some(n) = spec_parse_network_line(line) {
        let f = spec_split_terse(line);
        if trim(f[4]).len() == 0 {
            assert(n.security == "OPEN"@);
            reveal_strlit("OPEN");
        }
    }
}

/// The channel numbers of the 2.4 GHz band (1 to 13 at 2407 + 5n MHz, 14 at
/// 2484 MHz) and of the 5 GHz band (32 to 177 at 5000 + 5n MHz) map back to
/// their number.
pub proof fn lemma_channel_round_trip(c: int)
    ensures
        1 <= c <= 13 ==> spec_freq_to_channel(2407 + 5 * c) == Some(c as u8),
        32 <= c <= 177 ==> spec_freq_to_channel(5000 + 5 * c) == Some(c as u8),
        spec_freq_to_channel(2484) == Some(14u8),
{
}

/// In the table of a listing, each parsed line's SSID and BSSID has an entry
/// whose signal is at least that line's.
pub proof fn lemma_network_table_keeps_strongest(ls: Seq<Seq<char>>, i: int)
    requires
        0 <= i < ls.len(),
        spec_parse_network_line(ls[i]) is Some,
    ensures
        ({
            let n = spec_parse_network_line(ls[i]).unwrap();
            let t = network_table(ls);
            exists|k: int|
                0 <= k < t.len() && (#[trigger] t[k]).ssid == n.ssid && t[k].bssid == n.bssid
                    && t[k].signal_pct >= n.signal_pct
        }),
    decreases ls.len(),
{
    let n = spec_parse_network_line(ls[i]).unwrap();
    let prev = network_table(ls.drop_last());
    let t = network_table(ls);
    if i == ls.len() - 1 {
        lemma_network_index(prev, n.ssid, n.bssid, 0);
        let k = network_index(prev, n.ssid, n.bssid, 0);
        if k < prev.len() {
            assert(t[k].ssid == n.ssid);
        } else {
            assert(t[prev.len() as int] == n);
        }
    } else {
        assert(ls.drop_last()[i] == ls[i]);
        lemma_network_table_keeps_strongest(ls.drop_last(), i);
        let k0 = choose|k: int|
            0 <= k < prev.len() && (#[trigger] prev[k]).ssid == n.ssid && prev[k].bssid == n.bssid
                && prev[k].signal_pct >= n.signal_pct;
        match spec_parse_network_line(ls.last()) {
            Some(m) => {
                lemma_network_index(prev, m.ssid, m.bssid, 0);
                assert(t[k0].ssid == n.ssid && t[k0].bssid == n.bssid && t[k0].signal_pct
                    >= n.signal_pct);
            },
            None => {
                assert(t[k0] == prev[k0]);
            },
        }
    }
}

/// Every network of a listing's table came from one of its lines, so direct
/// scans never mark a network known and every signal is within 0..=100.
pub proof fn lemma_network_table_entries(ls: Seq<Seq<char>>)
    ensures
        forall|k: int|
            0 <= k < network_table(ls).len() ==> !(#[trigger] network_table(ls)[k]).known && 0
                <= network_table(ls)[k].signal_pct <= 100,
    decreases ls.len(),
{
    if ls.len() > 0 {
        lemma_network_table_entries(ls.drop_last());
        lemma_parsed_network_laws(ls.last());
        if let Some(m) = spec_parse_network_line(ls.last()) {
            lemma_network_index(network_table(ls.drop_last()), m.ssid, m.bssid, 0);
        }
    }
}


/// How nmcli writes one character of a field: colons and backslashes get a
/// backslash in front.
pub open spec fn escape_char(c: char) -> Seq<char> {
    if c == ':' || c == '\\' {
        seq!['\\', c]
    } else {
        seq![c]
    }
}

/// How nmcli writes a field.
pub open spec fn escape_field(f: Seq<char>) -> Seq<char>
    decreases f.len(),
{
    if f.len() == 0 {
        Seq::empty()
    } else {
        escape_field(f.drop_last()) + escape_char(f.last())
    }
}

/// How nmcli writes a row: the escaped fields joined by colons.
pub open spec fn terse_row(fs: Seq<Seq<char>>) -> Seq<char>
    decreases fs.len(),
{
    if fs.len() == 0 {
        Seq::empty()
    } else if fs.len() == 1 {
        escape_field(fs[0])
    } else {
        terse_row(fs.drop_last()) + seq![':'] + escape_field(fs.last())
    }
}

pub open spec fn terse_fold(s: Seq<char>, st: TerseState) -> TerseState {
    s.fold_left(st, |st: TerseState, c: char| terse_step(st, c))
}

proof fn lemma_terse_fold_concat(a: Seq<char>, b: Seq<char>, st: TerseState)
    ensures
        terse_fold(a + b, st) == terse_fold(b, terse_fold(a, st)),
{
    let ab = a + b;
    let f = |st: TerseState, c: char| terse_step(st, c);
    ab.lemma_fold_left_split(st, f, a.len() as int);
    assert(ab.subrange(0, a.len() as int) == a);
    assert(ab.subrange(a.len() as int, ab.len() as int) == b);
}

proof fn lemma_terse_fold_field(f: Seq<char>, st: TerseState)
    requires
        !st.escaped,
    ensures
        terse_fold(escape_field(f), st) == (TerseState {
            fields: st.fields,
            current: st.current + f,
            escaped: false,
        }),
    decreases f.len(),
{
    if f.len() == 0 {
        assert(st.current + f == st.current);
    } else {
        lemma_terse_fold_field(f.drop_last(), st);
        let mid = terse_fold(escape_field(f.drop_last()), st);
        lemma_terse_fold_concat(escape_field(f.drop_last()), escape_char(f.last()), st);
        let c = f.last();
        let e = escape_char(c);
        reveal_with_fuel(Seq::fold_left, 3);
        if c == ':' || c == '\\' {
            assert(e.drop_last() == seq!['\\']);
            assert(e.drop_last().drop_last() == Seq::<char>::empty());
        } else {
            assert(e.drop_last() == Seq::<char>::empty());
        }
        assert(mid.current + seq![c] == st.current + f) by {
            assert(f == f.drop_last().push(c));
        }
    }
}

proof fn lemma_terse_fold_row(fs: Seq<Seq<char>>)
    requires
        fs.len() > 0,
    ensures
        terse_fold(terse_row(fs), terse_start()) == (TerseState {
            fields: fs.drop_last(),
            current: fs.last(),
            escaped: false,
        }),
    decreases fs.len(),
{
    if fs.len() == 1 {
        lemma_terse_fold_field(fs[0], terse_start());
        assert(Seq::<char>::empty() + fs[0] == fs[0]);
        assert(fs.drop_last() == Seq::<Seq<char>>::empty());
    } else {
        lemma_terse_fold_row(fs.drop_last());
        let prefix = terse_row(fs.drop_last()) + seq![':'];
        lemma_terse_fold_concat(terse_row(fs.drop_last()), seq![':'], terse_start());
        lemma_terse_fold_concat(prefix, escape_field(fs.last()), terse_start());
        let st = terse_fold(terse_row(fs.drop_last()), terse_start());
        reveal_with_fuel(Seq::fold_left, 2);
        assert(seq![':'].drop_last() == Seq::<char>::empty());
        let after = terse_fold(seq![':'], st);
        assert(after == TerseState {
            fields: fs.drop_last().drop_last().push(fs.drop_last().last()),
            current: Seq::empty(),
            escaped: false,
        });
        assert(fs.drop_last().drop_last().push(fs.drop_last().last()) == fs.drop_last());
        lemma_terse_fold_field(fs.last(), after);
        assert(Seq::<char>::empty() + fs.last() == fs.last());
    }
}

/// Splitting undoes how nmcli writes a row: the fields of a row written with
/// escaped colons and backslashes come back unchanged (a row of a single
/// empty field reads as no fields at all).
pub proof fn lemma_split_terse_round_trip(fs: Seq<Seq<char>>)
    requires
        fs.len() > 0,
        !(fs.len() == 1 && fs[0].len() == 0),
    ensures
        spec_split_terse(terse_row(fs)) == fs,
{
    lemma_terse_fold_row(fs);
    assert(fs.drop_last().push(fs.last()) == fs);
}

} // verus!
