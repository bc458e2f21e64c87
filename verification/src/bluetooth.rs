//! BlueZ (`bluetoothctl`) output parsing: devices, adapters and the events of
//! a discovery session.
use vstd::prelude::*;
use crate::types::{NetworkError, NetworkErrorView};
use crate::text::{
    back_ws, skip_ws, ascii_upper, chars_eq, chars_of, contains_char, find_char, first_token, first_token_of,
    has_prefix, is_hex, is_hex_digit, lemma_find_char, lines, parse_i32, position_of, skip_chars,
    slice_chars, spec_parse_i32, split_lines, starts_with, string_of, strip_lit, strip_or_keep,
    to_ascii_upper, trim, trim_chars, views,
};

verus! {

broadcast use vstd::string::group_string_axioms;

/// The name of the BlueZ command line client.
pub const BLUETOOTHCTL: &'static str = "bluetoothctl";

/// A Bluetooth controller as `bluetoothctl show` reports it.
#[derive(Debug, Clone)]
pub struct Adapter {
    pub name: String,
    pub address: String,
    pub alias: String,
    pub powered: bool,
    pub discovering: bool,
    pub pairable: bool,
}

pub struct AdapterView {
    pub name: Seq<char>,
    pub address: Seq<char>,
    pub alias: Seq<char>,
    pub powered: bool,
    pub discovering: bool,
    pub pairable: bool,
}

impl View for Adapter {
    type V = AdapterView;

    open spec fn view(&self) -> AdapterView {
        AdapterView {
            name: self.name@,
            address: self.address@,
            alias: self.alias@,
            powered: self.powered,
            discovering: self.discovering,
            pairable: self.pairable,
        }
    }
}

/// A remote Bluetooth device.
#[derive(Debug, Clone)]
pub struct Device {
    pub address: String,
    pub name: Option<String>,
    pub paired: bool,
    pub trusted: bool,
    pub connected: bool,
    pub rssi_pct: Option<i32>,
}

pub struct DeviceView {
    pub address: Seq<char>,
    pub name: Option<Seq<char>>,
    pub paired: bool,
    pub trusted: bool,
    pub connected: bool,
    pub rssi_pct: Option<i32>,
}

pub open spec fn opt_view(o: Option<String>) -> Option<Seq<char>> {
    match o {
        Some(s) => Some(s@),
        None => None,
    }
}

impl View for Device {
    type V = DeviceView;

    open spec fn view(&self) -> DeviceView {
        DeviceView {
            address: self.address@,
            name: opt_view(self.name),
            paired: self.paired,
            trusted: self.trusted,
            connected: self.connected,
            rssi_pct: self.rssi_pct,
        }
    }
}

/// A device with no address, no name, nothing set.
pub open spec fn empty_device() -> DeviceView {
    DeviceView {
        address: Seq::empty(),
        name: None,
        paired: false,
        trusted: false,
        connected: false,
        rssi_pct: None,
    }
}

impl Default for Device {
    fn default() -> (d: Self)
        ensures
            d@ == empty_device(),
    {
        Device {
            address: String::new(),
            name: None,
            paired: false,
            trusted: false,
            connected: false,
            rssi_pct: None,
        }
    }
}

/// Which known devices `devices` lists.
#[derive(Debug, Clone, Copy, PartialEq, Eq, Structural)]
pub enum DeviceFilter {
    All,
    Paired,
    Connected,
}

/// Signal percentage of an RSSI value: -50 dBm and above is 100 percent,
/// -100 dBm and below is 0 percent, linear in between.
pub open spec fn rssi_percent(rssi: int) -> int {
    let v = (rssi + 100) * 2;
    if v < 0 {
        0
    } else if v > 100 {
        100
    } else {
        v
    }
}

/// Converts an RSSI value in dBm to a rough signal percentage.
pub fn rssi_to_pct(rssi: i32) -> (pct: i32)
    ensures
        pct == rssi_percent(rssi as int),
        0 <= pct <= 100,
{
    let v: i64 = (rssi as i64 + 100) * 2;
    if v < 0 {
        0
    } else if v > 100 {
        100
    } else {
        v as i32
    }
}

/// Six groups of two hex digits, separated by `sep`.
pub open spec fn mac_layout(s: Seq<char>, sep: char) -> bool {
    &&& s.len() == 17
    &&& forall|k: int|
        0 <= k < 17 ==> (if k % 3 == 2 {
            #[trigger] s[k] == sep
        } else {
            is_hex(s[k])
        })
}

/// The separator of an address: `':'` when the text has one, else `'-'`
/// when it has one.
pub open spec fn address_sep(t: Seq<char>) -> Option<char> {
    if t.contains(':') {
        Some(':')
    } else if t.contains('-') {
        Some('-')
    } else {
        None
    }
}

/// The canonical form: separators become `':'`, hex digits upper case.
pub open spec fn canonical_address(t: Seq<char>, sep: char) -> Seq<char> {
    t.map_values(|c: char| if c == sep { ':' } else { ascii_upper(c) })
}

/// A trimmed `AA:BB:CC:DD:EE:FF` or `AA-BB-CC-DD-EE-FF` address (any case),
/// in upper case with colons.
pub open spec fn spec_normalize_address(raw: Seq<char>) -> Option<Seq<char>> {
    let t = trim(raw);
    match address_sep(t) {
        Some(sep) => if mac_layout(t, sep) {
            Some(canonical_address(t, sep))
        } else {
            None
        },
        None => None,
    }
}

fn normalize_address_chars(raw: &[char]) -> (r: Option<Vec<char>>)
    ensures
        match r {
            Some(a) => spec_normalize_address(raw@) == Some(a@),
            None => spec_normalize_address(raw@).is_none(),
        },
{
    let t = trim_chars(raw);
    let sep: char = if contains_char(&t, ':') {
        ':'
    } else if contains_char(&t, '-') {
        '-'
    } else {
        return None;
    };
    if t.len() != 17 {
        return None;
    }
    let mut out: Vec<char> = Vec::new();
    let mut k: usize = 0;
    while k < 17
        invariant
            t@ == trim(raw@),
            address_sep(t@) == Some(sep),
            t.len() == 17,
            k <= 17,
            forall|j: int|
                0 <= j < k ==> (if j % 3 == 2 {
                    #[trigger] t@[j] == sep
                } else {
                    is_hex(t@[j])
                }),
            out@ == canonical_address(t@, sep).take(k as int),
        decreases 17 - k,
    {
        let c = t[k];
        if k % 3 == 2 {
            if c != sep {
                return None;
            }
            out.push(':');
        } else {
            if !is_hex_digit(c) {
                return None;
            }
            let u = to_ascii_upper(c);
            proof {
                if c == sep {
                    assert(sep == ':' || sep == '-');
                    assert(false);
                }
            }
            out.push(u);
        }
        assert(canonical_address(t@, sep).take(k + 1) == canonical_address(t@, sep).take(
            k as int,
        ).push(canonical_address(t@, sep)[k as int]));
        k += 1;
    }
    assert(mac_layout(t@, sep));
    assert(out@ == canonical_address(t@, sep));
    Some(out)
}

/// Normalizes a Bluetooth address to upper case with colons.
pub fn normalize_address(raw: &str) -> (r: Option<String>)
    ensures
        opt_view(r) == spec_normalize_address(raw@),
{
    let v = chars_of(raw);
    match normalize_address_chars(&v) {
        Some(a) => Some(string_of(&a)),
        None => None,
    }
}


/// An event line without its `[NEW] `, `[CHG] ` or `[DEL] ` tag.
pub open spec fn event_body(t: Seq<char>) -> Seq<char> {
    if has_prefix(t, "[NEW] "@) {
        t.skip("[NEW] "@.len() as int)
    } else if has_prefix(t, "[CHG] "@) {
        t.skip("[CHG] "@.len() as int)
    } else if has_prefix(t, "[DEL] "@) {
        t.skip("[DEL] "@.len() as int)
    } else {
        t
    }
}

/// What one `bluetoothctl` device line says: after an optional event tag and
/// an optional `Device ` word comes an address and, after a space, either
/// `RSSI: <dBm>` (the device with that signal), `Connected: ...` (nothing) or
/// a name. A line with an address and nothing after it gives the device
/// with that address alone.
pub open spec fn spec_parse_device_event(line: Seq<char>) -> Option<DeviceView> {
    let rest = strip_lit(event_body(trim(line)), "Device "@);
    let sp = find_char(rest, ' ', 0);
    match spec_normalize_address(rest.subrange(0, sp)) {
        None => None,
        Some(address) => if sp < rest.len() {
            let property = trim(rest.skip(sp + 1));
            if has_prefix(property, "RSSI:"@) {
                match spec_parse_i32(trim(property.skip("RSSI:"@.len() as int))) {
                    Some(dbm) => Some(
                        DeviceView {
                            address,
                            name: None,
                            paired: false,
                            trusted: false,
                            connected: false,
                            rssi_pct: Some(rssi_percent(dbm as int) as i32),
                        },
                    ),
                    None => None,
                }
            } else if has_prefix(property, "Connected:"@) {
                None
            } else {
                Some(
                    DeviceView {
                        address,
                        name: Some(property),
                        paired: false,
                        trusted: false,
                        connected: false,
                        rssi_pct: None,
                    },
                )
            }
        } else {
            Some(
                DeviceView {
                    address,
                    name: None,
                    paired: false,
                    trusted: false,
                    connected: false,
                    rssi_pct: None,
                },
            )
        },
    }
}

fn event_body_of(t: &[char]) -> (r: Vec<char>)
    ensures
        r@ == event_body(t@),
{
    let new_tag = chars_of("[NEW] ");
    let chg_tag = chars_of("[CHG] ");
    let del_tag = chars_of("[DEL] ");
    if starts_with(t, &new_tag) {
        skip_chars(t, new_tag.len())
    } else if starts_with(t, &chg_tag) {
        skip_chars(t, chg_tag.len())
    } else if starts_with(t, &del_tag) {
        skip_chars(t, del_tag.len())
    } else {
        slice_chars(t, 0, t.len())
    }
}

fn parse_device_event_chars(line: &[char]) -> (r: Option<Device>)
    ensures
        match r {
            Some(d) => spec_parse_device_event(line@) == Some(d@),
            None => spec_parse_device_event(line@).is_none(),
        },
{
    let t = trim_chars(line);
    let body = event_body_of(&t);
    let rest = strip_or_keep(&body, &chars_of("Device "));
    let sp = position_of(&rest, ' ');
    proof {
        lemma_find_char(rest@, ' ', 0);
    }
    let first = slice_chars(&rest, 0, sp);
    let address = match normalize_address_chars(&first) {
        Some(a) => a,
        None => return None,
    };
    if sp < rest.len() {
        let property = trim_chars(&skip_chars(&rest, sp + 1));
        let rssi_tag = chars_of("RSSI:");
        if starts_with(&property, &rssi_tag) {
            let value = trim_chars(&skip_chars(&property, rssi_tag.len()));
            match parse_i32(&value) {
                Some(dbm) => Some(
                    Device {
                        address: string_of(&address),
                        name: None,
                        paired: false,
                        trusted: false,
                        connected: false,
                        rssi_pct: Some(rssi_to_pct(dbm)),
                    },
                ),
                None => None,
            }
        } else if starts_with(&property, &chars_of("Connected:")) {
            None
        } else {
            Some(
                Device {
                    address: string_of(&address),
                    name: Some(string_of(&property)),
                    paired: false,
                    trusted: false,
                    connected: false,
                    rssi_pct: None,
                },
            )
        }
    } else {
        Some(
            Device {
                address: string_of(&address),
                name: None,
                paired: false,
                trusted: false,
                connected: false,
                rssi_pct: None,
            },
        )
    }
}

/// Parses one `bluetoothctl` device event line.
pub fn parse_device_event(line: &str) -> (r: Option<Device>)
    ensures
        match r {
            Some(d) => spec_parse_device_event(line@) == Some(d@),
            None => spec_parse_device_event(line@).is_none(),
        },
{
    parse_device_event_chars(&chars_of(line))
}

/// `value.trim() == "yes"`.
pub open spec fn is_yes(value: Seq<char>) -> bool {
    trim(value) == "yes"@
}

fn is_yes_chars(value: &[char]) -> (b: bool)
    ensures
        b == is_yes(value@),
{
    chars_eq(&trim_chars(value), &chars_of("yes"))
}

/// How one line of `bluetoothctl info` changes the device read so far.
pub open spec fn info_step(d: DeviceView, raw: Seq<char>) -> DeviceView {
    let line = trim(raw);
    if d.address.len() == 0 && has_prefix(line, "Device "@) {
        match spec_normalize_address(first_token(line.skip("Device "@.len() as int))) {
            Some(a) => DeviceView { address: a, ..d },
            None => d,
        }
    } else if has_prefix(line, "Name:"@) {
        if d.name.is_none() {
            DeviceView { name: Some(trim(line.skip("Name:"@.len() as int))), ..d }
        } else {
            d
        }
    } else if has_prefix(line, "Alias:"@) {
        if d.name.is_none() {
            DeviceView { name: Some(trim(line.skip("Alias:"@.len() as int))), ..d }
        } else {
            d
        }
    } else if has_prefix(line, "Paired:"@) {
        DeviceView { paired: is_yes(line.skip("Paired:"@.len() as int)), ..d }
    } else if has_prefix(line, "Trusted:"@) {
        DeviceView { trusted: is_yes(line.skip("Trusted:"@.len() as int)), ..d }
    } else if has_prefix(line, "Connected:"@) {
        DeviceView { connected: is_yes(line.skip("Connected:"@.len() as int)), ..d }
    } else if has_prefix(line, "RSSI:"@) {
        match spec_parse_i32(trim(line.skip("RSSI:"@.len() as int))) {
            Some(dbm) => DeviceView { rssi_pct: Some(rssi_percent(dbm as int) as i32), ..d },
            None => d,
        }
    } else {
        d
    }
}

/// The device that `bluetoothctl info` output describes, line by line.
pub open spec fn spec_parse_info_output(text: Seq<char>) -> DeviceView {
    lines(text).fold_left(empty_device(), |d: DeviceView, l: Seq<char>| info_step(d, l))
}

/// Whether the last line of `ls` that starts with `tag` (after trimming)
/// says `yes` after it; false without such a line.
pub open spec fn last_flag(ls: Seq<Seq<char>>, tag: Seq<char>) -> bool
    decreases ls.len(),
{
    if ls.len() == 0 {
        false
    } else if has_prefix(trim(ls.last()), tag) {
        trim(trim(ls.last()).skip(tag.len() as int)) == "yes"@
    } else {
        last_flag(ls.drop_last(), tag)
    }
}

proof fn lemma_info_fold_flags(ls: Seq<Seq<char>>)
    ensures
        ({
            let d = ls.fold_left(empty_device(), |d: DeviceView, l: Seq<char>| info_step(d, l));
            &&& d.paired == last_flag(ls, "Paired:"@)
            &&& d.trusted == last_flag(ls, "Trusted:"@)
            &&& d.connected == last_flag(ls, "Connected:"@)
        }),
    decreases ls.len(),
{
    reveal_strlit("Device ");
    reveal_strlit("Name:");
    reveal_strlit("Alias:");
    reveal_strlit("Paired:");
    reveal_strlit("Trusted:");
    reveal_strlit("Connected:");
    reveal_strlit("RSSI:");
    if ls.len() > 0 {
        lemma_info_fold_flags(ls.drop_last());
        let line = trim(ls.last());
        let tags = seq!["Device "@, "Name:"@, "Alias:"@, "Paired:"@, "Trusted:"@, "Connected:"@];
        assert(tags[0] == "Device "@ && tags[1] == "Name:"@ && tags[2] == "Alias:"@);
        assert(tags[3] == "Paired:"@ && tags[4] == "Trusted:"@ && tags[5] == "Connected:"@);
        assert forall|i: int| 0 <= i < 6 && has_prefix(line, #[trigger] tags[i]) implies line[0]
            == tags[i][0] by {
            assert(line.subrange(0, tags[i].len() as int)[0] == line[0]);
        }
        assert("Device "@[0] == 'D' && "Name:"@[0] == 'N' && "Alias:"@[0] == 'A');
        assert("Paired:"@[0] == 'P' && "Trusted:"@[0] == 'T' && "Connected:"@[0] == 'C');
    }
}

/// The flags of `bluetoothctl info` output come from the last `Paired:`,
/// `Trusted:` and `Connected:` lines: each is set exactly when its last
/// line says `yes`, and unset without such a line.
pub proof fn lemma_info_flags(text: Seq<char>)
    ensures
        spec_parse_info_output(text).paired == last_flag(lines(text), "Paired:"@),
        spec_parse_info_output(text).trusted == last_flag(lines(text), "Trusted:"@),
        spec_parse_info_output(text).connected == last_flag(lines(text), "Connected:"@),
{
    lemma_info_fold_flags(lines(text));
}

/// Parses `bluetoothctl -- info <address>` output into a [`Device`].
pub fn parse_info_output(text: &str) -> (d: Device)
    ensures
        d@ == spec_parse_info_output(text@),
{
    let ls = split_lines(&chars_of(text));
    let ghost all = lines(text@);
    let mut device = Device::default();
    let device_tag = chars_of("Device ");
    let name_tag = chars_of("Name:");
    let alias_tag = chars_of("Alias:");
    let paired_tag = chars_of("Paired:");
    let trusted_tag = chars_of("Trusted:");
    let connected_tag = chars_of("Connected:");
    let rssi_tag = chars_of("RSSI:");
    let mut i: usize = 0;
    while i < ls.len()
        invariant
            views(ls@) == all,
            i <= ls.len(),
            device_tag@ == "Device "@,
            name_tag@ == "Name:"@,
            alias_tag@ == "Alias:"@,
            paired_tag@ == "Paired:"@,
            trusted_tag@ == "Trusted:"@,
            connected_tag@ == "Connected:"@,
            rssi_tag@ == "RSSI:"@,
            device@ == all.take(i as int).fold_left(
                empty_device(),
                |d: DeviceView, l: Seq<char>| info_step(d, l),
            ),
        decreases ls.len() - i,
    {
        let ghost before = device@;
        let line = trim_chars(&ls[i]);
        assert(ls@[i as int]@ == all[i as int]);
        if device.address.as_str().is_empty() && starts_with(&line, &device_tag) {
            let token = first_token_of(&skip_chars(&line, device_tag.len()));
            match normalize_address_chars(&token) {
                Some(a) => {
                    device.address = string_of(&a);
                },
                None => {},
            }
        } else if starts_with(&line, &name_tag) {
            if device.name.is_none() {
                device.name = Some(string_of(&trim_chars(&skip_chars(&line, name_tag.len()))));
            }
        } else if starts_with(&line, &alias_tag) {
            if device.name.is_none() {
                device.name = Some(string_of(&trim_chars(&skip_chars(&line, alias_tag.len()))));
            }
        } else if starts_with(&line, &paired_tag) {
            device.paired = is_yes_chars(&skip_chars(&line, paired_tag.len()));
        } else if starts_with(&line, &trusted_tag) {
            device.trusted = is_yes_chars(&skip_chars(&line, trusted_tag.len()));
        } else if starts_with(&line, &connected_tag) {
            device.connected = is_yes_chars(&skip_chars(&line, connected_tag.len()));
        } else if starts_with(&line, &rssi_tag) {
            match parse_i32(&trim_chars(&skip_chars(&line, rssi_tag.len()))) {
                Some(dbm) => {
                    device.rssi_pct = Some(rssi_to_pct(dbm));
                },
                None => {},
            }
        }
        assert(all.take(i + 1).drop_last() == all.take(i as int));
        assert(device@ == info_step(before, all[i as int]));
        i += 1;
    }
    assert(all.take(ls.len() as int) == all);
    device
}


/// How one line of `bluetoothctl show` changes the adapter read so far.
pub open spec fn show_step(a: AdapterView, raw: Seq<char>) -> AdapterView {
    let line = trim(raw);
    if a.address.len() == 0 && has_prefix(line, "Controller "@) {
        match spec_normalize_address(first_token(line.skip("Controller "@.len() as int))) {
            Some(addr) => AdapterView { address: addr, ..a },
            None => a,
        }
    } else if has_prefix(line, "Alias:"@) {
        AdapterView { alias: trim(line.skip("Alias:"@.len() as int)), ..a }
    } else if has_prefix(line, "Powered:"@) {
        AdapterView { powered: is_yes(line.skip("Powered:"@.len() as int)), ..a }
    } else if has_prefix(line, "Discovering:"@) {
        AdapterView { discovering: is_yes(line.skip("Discovering:"@.len() as int)), ..a }
    } else if has_prefix(line, "Pairable:"@) {
        AdapterView { pairable: is_yes(line.skip("Pairable:"@.len() as int)), ..a }
    } else {
        a
    }
}

/// An adapter called `name` about which nothing is known yet.
pub open spec fn blank_adapter(name: Seq<char>) -> AdapterView {
    AdapterView {
        name,
        address: Seq::empty(),
        alias: Seq::empty(),
        powered: false,
        discovering: false,
        pairable: false,
    }
}

/// The adapter that `bluetoothctl show` output describes, line by line.
pub open spec fn spec_parse_show_output(text: Seq<char>, name: Seq<char>) -> AdapterView {
    lines(text).fold_left(blank_adapter(name), |a: AdapterView, l: Seq<char>| show_step(a, l))
}

/// Parses `bluetoothctl show` output into an [`Adapter`] called `name`.
pub fn parse_show_output(text: &str, name: &str) -> (a: Adapter)
    ensures
        a@ == spec_parse_show_output(text@, name@),
{
    let ls = split_lines(&chars_of(text));
    let ghost all = lines(text@);
    let mut adapter = Adapter {
        name: string_of(&chars_of(name)),
        address: String::new(),
        alias: String::new(),
        powered: false,
        discovering: false,
        pairable: false,
    };
    let controller_tag = chars_of("Controller ");
    let alias_tag = chars_of("Alias:");
    let powered_tag = chars_of("Powered:");
    let discovering_tag = chars_of("Discovering:");
    let pairable_tag = chars_of("Pairable:");
    let mut i: usize = 0;
    while i < ls.len()
        invariant
            views(ls@) == all,
            i <= ls.len(),
            controller_tag@ == "Controller "@,
            alias_tag@ == "Alias:"@,
            powered_tag@ == "Powered:"@,
            discovering_tag@ == "Discovering:"@,
            pairable_tag@ == "Pairable:"@,
            adapter@ == all.take(i as int).fold_left(
                blank_adapter(name@),
                |a: AdapterView, l: Seq<char>| show_step(a, l),
            ),
        decreases ls.len() - i,
    {
        let ghost before = adapter@;
        let line = trim_chars(&ls[i]);
        assert(ls@[i as int]@ == all[i as int]);
        if adapter.address.as_str().is_empty() && starts_with(&line, &controller_tag) {
            let token = first_token_of(&skip_chars(&line, controller_tag.len()));
            match normalize_address_chars(&token) {
                Some(a) => {
                    adapter.address = string_of(&a);
                },
                None => {},
            }
        } else if starts_with(&line, &alias_tag) {
            adapter.alias = string_of(&trim_chars(&skip_chars(&line, alias_tag.len())));
        } else if starts_with(&line, &powered_tag) {
            adapter.powered = is_yes_chars(&skip_chars(&line, powered_tag.len()));
        } else if starts_with(&line, &discovering_tag) {
            adapter.discovering = is_yes_chars(&skip_chars(&line, discovering_tag.len()));
        } else if starts_with(&line, &pairable_tag) {
            adapter.pairable = is_yes_chars(&skip_chars(&line, pairable_tag.len()));
        }
        assert(all.take(i + 1).drop_last() == all.take(i as int));
        assert(adapter@ == show_step(before, all[i as int]));
        i += 1;
    }
    assert(all.take(ls.len() as int) == all);
    adapter
}

/// The devices named by the lines of a `bluetoothctl devices` listing: every
/// line that parses to a device with an address, in order.
pub open spec fn listed_devices(ls: Seq<Seq<char>>) -> Seq<DeviceView>
    decreases ls.len(),
{
    if ls.len() == 0 {
        Seq::empty()
    } else {
        let rest = listed_devices(ls.drop_last());
        match spec_parse_device_event(ls.last()) {
            Some(d) => if d.address.len() > 0 {
                rest.push(d)
            } else {
                rest
            },
            None => rest,
        }
    }
}

pub open spec fn device_views(v: Seq<Device>) -> Seq<DeviceView> {
    v.map_values(|d: Device| d@)
}

/// Collects the devices of a `bluetoothctl devices` listing.
pub fn collect_devices(text: &str) -> (r: Vec<Device>)
    ensures
        device_views(r@) == listed_devices(lines(text@)),
        forall|k: int| 0 <= k < r.len() ==> (#[trigger] r@[k])@.address.len() > 0,
{
    let ls = split_lines(&chars_of(text));
    let ghost all = lines(text@);
    let mut r: Vec<Device> = Vec::new();
    let mut i: usize = 0;
    while i < ls.len()
        invariant
            views(ls@) == all,
            i <= ls.len(),
            device_views(r@) == listed_devices(all.take(i as int)),
            forall|k: int| 0 <= k < r.len() ==> (#[trigger] r@[k])@.address.len() > 0,
        decreases ls.len() - i,
    {
        assert(ls@[i as int]@ == all[i as int]);
        assert(all.take(i + 1).drop_last() == all.take(i as int));
        assert(all.take(i + 1).last() == all[i as int]);
        let ghost old_r = r@;
        match parse_device_event_chars(&ls[i]) {
            Some(d) => {
                if !d.address.as_str().is_empty() {
                    r.push(d);
                    assert(device_views(r@) == device_views(old_r).push(d@));
                }
            },
            None => {},
        }
        i += 1;
    }
    assert(all.take(ls.len() as int) == all);
    r
}


/// Index of the device with address `addr` in `t` at or after `i`, or the
/// length.
pub open spec fn device_index(t: Seq<DeviceView>, addr: Seq<char>, i: int) -> int
    decreases t.len() - i,
{
    if 0 <= i < t.len() && t[i].address != addr {
        device_index(t, addr, i + 1)
    } else {
        i
    }
}

pub proof fn lemma_device_index(t: Seq<DeviceView>, addr: Seq<char>, i: int)
    requires
        0 <= i <= t.len(),
    ensures
        i <= device_index(t, addr, i) <= t.len(),
        device_index(t, addr, i) < t.len() ==> t[device_index(t, addr, i)].address == addr,
        forall|k: int| i <= k < device_index(t, addr, i) ==> (#[trigger] t[k]).address != addr,
    decreases t.len() - i,
{
    if i < t.len() && t[i].address != addr {
        lemma_device_index(t, addr, i + 1);
    }
}

/// A device as a discovery event updates it: a name or signal that the event
/// carries replaces the one known so far.
pub open spec fn apply_event(d: DeviceView, e: DeviceView) -> DeviceView {
    DeviceView {
        name: if e.name.is_some() {
            e.name
        } else {
            d.name
        },
        rssi_pct: if e.rssi_pct.is_some() {
            e.rssi_pct
        } else {
            d.rssi_pct
        },
        ..d
    }
}

/// The table of devices after one more event: the entry with the event's
/// address is updated, or a new entry for that address is appended.
pub open spec fn merge_event(t: Seq<DeviceView>, e: DeviceView) -> Seq<DeviceView> {
    let k = device_index(t, e.address, 0);
    if k < t.len() {
        t.update(k, apply_event(t[k], e))
    } else {
        t.push(apply_event(DeviceView { address: e.address, ..empty_device() }, e))
    }
}

/// One entry per address seen in the events of a discovery session.
pub open spec fn discovery_table(ls: Seq<Seq<char>>) -> Seq<DeviceView>
    decreases ls.len(),
{
    if ls.len() == 0 {
        Seq::empty()
    } else {
        let t = discovery_table(ls.drop_last());
        match spec_parse_device_event(ls.last()) {
            Some(e) => merge_event(t, e),
            None => t,
        }
    }
}

/// The key devices are ordered by: the signal percentage, -1 without one.
pub open spec fn signal_key(d: DeviceView) -> int {
    match d.rssi_pct {
        Some(p) => p as int,
        None => -1,
    }
}

/// Strongest signal first.
pub open spec fn sorted_by_signal(s: Seq<DeviceView>) -> bool {
    forall|i: int, j: int| 0 <= i < j < s.len() ==> signal_key(s[i]) >= signal_key(s[j])
}

/// No address occurs twice.
pub open spec fn distinct_addresses(s: Seq<DeviceView>) -> bool {
    forall|i: int, j: int| 0 <= i < j < s.len() ==> s[i].address != s[j].address
}

fn device_key(d: &Device) -> (k: i32)
    ensures
        k == signal_key(d@),
{
    match d.rssi_pct {
        Some(p) => p,
        None => -1,
    }
}

fn merge_event_into(table: &mut Vec<Device>, e: Device)
    ensures
        device_views(final(table)@) == merge_event(device_views(old(table)@), e@),
{
    let ghost t = device_views(table@);
    let mut k: usize = 0;
    while k < table.len() && table[k].address != e.address
        invariant
            k <= table.len(),
            t == device_views(table@),
            device_index(t, e@.address, k as int) == device_index(t, e@.address, 0),
        decreases table.len() - k,
    {
        k += 1;
    }
    if k < table.len() {
        let mut d = table.remove(k);
        if e.name.is_some() {
            d.name = e.name;
        }
        if e.rssi_pct.is_some() {
            d.rssi_pct = e.rssi_pct;
        }
        table.insert(k, d);
        assert(device_views(table@) == t.update(k as int, apply_event(t[k as int], e@)));
    } else {
        let mut d = Device::default();
        d.address = e.address;
        if e.name.is_some() {
            d.name = e.name;
        }
        if e.rssi_pct.is_some() {
            d.rssi_pct = e.rssi_pct;
        }
        table.push(d);
        assert(device_views(table@) == t.push(
            apply_event(DeviceView { address: e@.address, ..empty_device() }, e@),
        ));
    }
}

proof fn lemma_merge_event_distinct(t: Seq<DeviceView>, e: DeviceView)
    requires
        distinct_addresses(t),
    ensures
        distinct_addresses(merge_event(t, e)),
        merge_event(t, e).len() >= t.len(),
{
    lemma_device_index(t, e.address, 0);
}

/// The discovery table holds at most one entry per address.
pub proof fn lemma_discovery_table_distinct(ls: Seq<Seq<char>>)
    ensures
        distinct_addresses(discovery_table(ls)),
    decreases ls.len(),
{
    if ls.len() > 0 {
        lemma_discovery_table_distinct(ls.drop_last());
        match spec_parse_device_event(ls.last()) {
            Some(e) => lemma_merge_event_distinct(discovery_table(ls.drop_last()), e),
            None => {},
        }
    }
}

/// The name that the last line naming address `a` with a name gives.
pub open spec fn last_name(ls: Seq<Seq<char>>, a: Seq<char>) -> Option<Seq<char>>
    decreases ls.len(),
{
    if ls.len() == 0 {
        None
    } else {
        match spec_parse_device_event(ls.last()) {
            Some(e) => if e.address == a && e.name.is_some() {
                e.name
            } else {
                last_name(ls.drop_last(), a)
            },
            None => last_name(ls.drop_last(), a),
        }
    }
}

/// The signal that the last line about address `a` with a signal gives.
pub open spec fn last_rssi(ls: Seq<Seq<char>>, a: Seq<char>) -> Option<i32>
    decreases ls.len(),
{
    if ls.len() == 0 {
        None
    } else {
        match spec_parse_device_event(ls.last()) {
            Some(e) => if e.address == a && e.rssi_pct.is_some() {
                e.rssi_pct
            } else {
                last_rssi(ls.drop_last(), a)
            },
            None => last_rssi(ls.drop_last(), a),
        }
    }
}

/// Each device of a discovery session carries the name and the signal of
/// the last lines about its address that carry one (a later name or
/// signal replaces an earlier one); an address absent from the table was
/// never given a name or signal.
#[verifier::spinoff_prover]
#[verifier::rlimit(30)]
pub proof fn lemma_discovery_latest_values(ls: Seq<Seq<char>>)
    ensures
        forall|k: int|
            0 <= k < discovery_table(ls).len() ==> (#[trigger] discovery_table(ls)[k]).name
                == last_name(ls, discovery_table(ls)[k].address) && discovery_table(ls)[k].rssi_pct
                == last_rssi(ls, discovery_table(ls)[k].address),
        forall|a: Seq<char>|
            (forall|k: int|
                0 <= k < discovery_table(ls).len() ==> (#[trigger] discovery_table(ls)[k]).address
                    != a) ==> #[trigger] last_name(ls, a) is None && last_rssi(ls, a) is None,
    decreases ls.len(),
{
    if ls.len() > 0 {
        let prev = ls.drop_last();
        lemma_discovery_latest_values(prev);
        lemma_discovery_table_distinct(prev);
        let t = discovery_table(prev);
        let nt = discovery_table(ls);
        match spec_parse_device_event(ls.last()) {
            None => {
                assert(nt == t);
                assert forall|a: Seq<char>| #[trigger] last_name(ls, a) == last_name(prev, a)
                    && last_rssi(ls, a) == last_rssi(prev, a) by {}
            },
            Some(e) => {
                lemma_device_index(t, e.address, 0);
                let k0 = device_index(t, e.address, 0);
                assert forall|a: Seq<char>| a != e.address implies #[trigger] last_name(ls, a)
                    == last_name(prev, a) && last_rssi(ls, a) == last_rssi(prev, a) by {}
                if k0 < t.len() {
                    assert(nt == t.update(k0, apply_event(t[k0], e)));
                    assert forall|k: int| 0 <= k < nt.len() implies (#[trigger] nt[k]).name
                        == last_name(ls, nt[k].address) && nt[k].rssi_pct == last_rssi(
                        ls,
                        nt[k].address,
                    ) by {
                        if k != k0 {
                            assert(nt[k] == t[k]);
                            if k > k0 {
                                assert(t[k0].address != t[k].address);
                            }
                        }
                    }
                    assert forall|a: Seq<char>|
                        (forall|k: int| 0 <= k < nt.len() ==> (#[trigger] nt[k]).address != a)
                            implies #[trigger] last_name(ls, a) is None && last_rssi(ls, a) is None by {
                        assert(nt[k0].address == e.address);
                        assert forall|k: int| 0 <= k < t.len() implies (#[trigger] t[k]).address
                            != a by {
                            if k != k0 {
                                assert(nt[k] == t[k]);
                            }
                        }
                    }
                } else {
                    let nd = apply_event(DeviceView { address: e.address, ..empty_device() }, e);
                    assert(nt == t.push(nd));
                    assert forall|k: int| 0 <= k < nt.len() implies (#[trigger] nt[k]).name
                        == last_name(ls, nt[k].address) && nt[k].rssi_pct == last_rssi(
                        ls,
                        nt[k].address,
                    ) by {
                        if k < t.len() {
                            assert(nt[k] == t[k]);
                        } else {
                            assert(forall|j: int| 0 <= j < t.len() ==> (#[trigger] t[j]).address
                                != e.address);
                            assert(last_name(prev, e.address) is None);
                        }
                    }
                    assert forall|a: Seq<char>|
                        (forall|k: int| 0 <= k < nt.len() ==> (#[trigger] nt[k]).address != a)
                            implies #[trigger] last_name(ls, a) is None && last_rssi(ls, a) is None by {
                        assert(nt[t.len() as int].address == e.address);
                        assert forall|k: int| 0 <= k < t.len() implies (#[trigger] t[k]).address
                            != a by {
                            assert(nt[k] == t[k]);
                        }
                    }
                }
            },
        }
    }
}

/// Sorts devices strongest signal first.
fn sort_by_signal(v: Vec<Device>) -> (r: Vec<Device>)
    requires
        distinct_addresses(device_views(v@)),
    ensures
        sorted_by_signal(device_views(r@)),
        distinct_addresses(device_views(r@)),
        device_views(r@).to_multiset() == device_views(v@).to_multiset(),
{
    broadcast use vstd::seq_lib::group_to_multiset_ensures;

    let mut src = v;
    let mut r: Vec<Device> = Vec::new();
    while src.len() > 0
        invariant
            sorted_by_signal(device_views(r@)),
            distinct_addresses(device_views(r@)),
            distinct_addresses(device_views(src@)),
            forall|a: int, b: int|
                0 <= a < r.len() && 0 <= b < src.len() ==> (#[trigger] r@[a])@.address != (
                #[trigger] src@[b])@.address,
            device_views(r@).to_multiset().add(device_views(src@).to_multiset())
                == device_views(v@).to_multiset(),
        decreases src.len(),
    {
        let ghost before_src = src@;
        let x = src.pop().unwrap();
        assert(device_views(before_src) == device_views(src@).push(x@));
        let key = device_key(&x);
        let mut p: usize = 0;
        while p < r.len() && device_key(&r[p]) >= key
            invariant
                p <= r.len(),
                key == signal_key(x@),
                sorted_by_signal(device_views(r@)),
                forall|k: int| 0 <= k < p ==> signal_key((#[trigger] r@[k])@) >= key,
            decreases r.len() - p,
        {
            p += 1;
        }
        let ghost old_r = device_views(r@);
        let ghost old_r_exec = r@;
        let ghost xv = x@;
        r.insert(p, x);
        assert(device_views(r@) == old_r.insert(p as int, xv));
        proof {
            broadcast use vstd::multiset::group_multiset_axioms;

            vstd::seq_lib::to_multiset_insert(old_r, p as int, xv);
            vstd::seq_lib::to_multiset_build(device_views(src@), xv);
            assert(device_views(r@).to_multiset() == old_r.to_multiset().insert(xv));
            assert(device_views(before_src).to_multiset() == device_views(
                src@,
            ).to_multiset().insert(xv));
            assert(device_views(r@).to_multiset().add(device_views(src@).to_multiset())
                =~= old_r.to_multiset().add(device_views(before_src).to_multiset()));
        }
        assert forall|i: int, j: int|
            0 <= i < j < device_views(r@).len() implies signal_key(device_views(r@)[i])
            >= signal_key(device_views(r@)[j]) by {
            if p < r.len() - 1 && j > p {
                assert(signal_key(old_r[p as int]) < key);
            }
        }
        assert forall|a: int, b: int|
            0 <= a < b < device_views(src@).len() implies device_views(src@)[a].address
            != device_views(src@)[b].address by {
            assert(device_views(src@)[a] == device_views(before_src)[a]);
            assert(device_views(src@)[b] == device_views(before_src)[b]);
        }
        assert forall|a: int, b: int|
            0 <= a < b < device_views(r@).len() implies device_views(r@)[a].address
            != device_views(r@)[b].address by {
            if a == p {
                assert(device_views(r@)[b] == old_r[b - 1]);
                assert(device_views(before_src)[before_src.len() - 1] == xv);
            } else if b == p {
                assert(device_views(r@)[a] == old_r[a]);
                assert(device_views(before_src)[before_src.len() - 1] == xv);
            }
        }
        assert forall|a: int, b: int|
            0 <= a < r.len() && 0 <= b < src.len() implies (#[trigger] r@[a])@.address != (
            #[trigger] src@[b])@.address by {
            assert(src@[b] == before_src[b]);
            if a == p {
                assert(before_src[before_src.len() - 1] == r@[a]);
                assert(device_views(before_src)[b] == before_src[b]@);
                assert(device_views(before_src)[before_src.len() - 1] == xv);
                assert(device_views(before_src)[b].address != device_views(before_src)[
                    before_src.len() - 1
                ].address);
            } else if a < p {
                assert(r@[a] == old_r_exec[a]);
            } else {
                assert(r@[a] == old_r_exec[a - 1]);
            }
        }
    }
    r
}

/// The devices seen during a discovery session, one per address, strongest
/// signal first.
pub fn discovered_devices(text: &str) -> (r: Vec<Device>)
    ensures
        device_views(r@).to_multiset() == discovery_table(lines(text@)).to_multiset(),
        sorted_by_signal(device_views(r@)),
        distinct_addresses(device_views(r@)),
{
    let ls = split_lines(&chars_of(text));
    let ghost all = lines(text@);
    let mut table: Vec<Device> = Vec::new();
    let mut i: usize = 0;
    while i < ls.len()
        invariant
            views(ls@) == all,
            i <= ls.len(),
            device_views(table@) == discovery_table(all.take(i as int)),
        decreases ls.len() - i,
    {
        assert(ls@[i as int]@ == all[i as int]);
        assert(all.take(i + 1).drop_last() == all.take(i as int));
        assert(all.take(i + 1).last() == all[i as int]);
        match parse_device_event_chars(&ls[i]) {
            Some(e) => merge_event_into(&mut table, e),
            None => {},
        }
        i += 1;
    }
    assert(all.take(ls.len() as int) == all);
    proof {
        lemma_discovery_table_distinct(all);
    }
    sort_by_signal(table)
}


/// The name of the default controller among the entries of
/// `/sys/class/bluetooth`: the first that starts with `hci` and holds no
/// `:` (those are connections), `hci` when there is none.
pub open spec fn spec_controller_name(names: Seq<Seq<char>>) -> Seq<char>
    decreases names.len(),
{
    if names.len() == 0 {
        "hci"@
    } else if has_prefix(names[0], "hci"@) && !names[0].contains(':') {
        names[0]
    } else {
        spec_controller_name(names.drop_first())
    }
}

pub open spec fn name_views(v: Seq<String>) -> Seq<Seq<char>> {
    v.map_values(|s: String| s@)
}

/// Picks the default controller's name from the entries of
/// `/sys/class/bluetooth`.
pub fn controller_name(names: &Vec<String>) -> (r: String)
    ensures
        r@ == spec_controller_name(name_views(names@)),
{
    let ghost all = name_views(names@);
    let hci = chars_of("hci");
    let mut i: usize = 0;
    assert(all.skip(0) == all);
    while i < names.len()
        invariant
            i <= names.len(),
            all == name_views(names@),
            hci@ == "hci"@,
            spec_controller_name(all.skip(i as int)) == spec_controller_name(all),
        decreases names.len() - i,
    {
        let n = chars_of(names[i].as_str());
        assert(all.skip(i as int)[0] == n@);
        if starts_with(&n, &hci) && !contains_char(&n, ':') {
            return string_of(&n);
        }
        assert(all.skip(i as int).drop_first() == all.skip(i + 1));
        i += 1;
    }
    string_of(&hci)
}

/// The BlueZ client for the default controller.
#[derive(Debug, Clone, Copy)]
pub struct Bluetooth;

impl Bluetooth {
    pub fn new() -> Self {
        Bluetooth
    }
}

impl Default for Bluetooth {
    fn default() -> Self {
        Bluetooth
    }
}

impl DeviceFilter {
    /// The `bluetoothctl` command that lists the devices of this filter.
    pub fn command(&self) -> (s: &'static str)
        ensures
            s@ == (match self {
                DeviceFilter::All => "devices"@,
                DeviceFilter::Paired => "devices Paired"@,
                DeviceFilter::Connected => "devices Connected"@,
            }),
    {
        match self {
            DeviceFilter::All => "devices",
            DeviceFilter::Paired => "devices Paired",
            DeviceFilter::Connected => "devices Connected",
        }
    }
}

/// A session command about one device: the verb, a space, the address.
pub fn device_command(verb: &str, address: &str) -> (s: String)
    ensures
        s@ == verb@ + " "@ + address@,
{
    let mut v = chars_of(verb);
    v.append(&mut chars_of(" "));
    v.append(&mut chars_of(address));
    string_of(&v)
}

/// The session command that powers the controller on or off.
pub fn power_command(powered: bool) -> (s: String)
    ensures
        s@ == (if powered {
            "power on"@
        } else {
            "power off"@
        }),
{
    if powered {
        string_of(&chars_of("power on"))
    } else {
        string_of(&chars_of("power off"))
    }
}

/// The result of a power change: the controller must report the requested
/// state, else the change was denied.
pub fn power_outcome(requested: bool, reported: bool) -> (r: Result<(), NetworkError>)
    ensures
        r is Ok <==> requested == reported,
        r matches Err(e) ==> e@ is PermissionDenied,
{
    if requested != reported {
        Err(NetworkError::PermissionDenied)
    } else {
        Ok(())
    }
}

/// What `device_info` answers for the `info` output about `address`: the
/// parsed device, or a `ParseError` naming the address when the output
/// names no device.
pub open spec fn spec_device_info(address: Seq<char>, text: Seq<char>) -> Result<
    DeviceView,
    NetworkErrorView,
> {
    let d = spec_parse_info_output(text);
    if d.address.len() == 0 {
        Err(NetworkErrorView::ParseError("no such device "@ + address))
    } else {
        Ok(d)
    }
}

/// Reads the answer of `bluetoothctl -- info <address>`.
pub fn device_info_from_output(address: &str, text: &str) -> (r: Result<Device, NetworkError>)
    ensures
        match r {
            Ok(d) => spec_device_info(address@, text@) == Ok::<DeviceView, NetworkErrorView>(d@),
            Err(e) => spec_device_info(address@, text@) == Err::<DeviceView, NetworkErrorView>(
                e@,
            ),
        },
{
    let device = parse_info_output(text);
    if device.address.as_str().is_empty() {
        let mut v = chars_of("no such device ");
        v.append(&mut chars_of(address));
        return Err(NetworkError::ParseError(string_of(&v)));
    }
    Ok(device)
}


/// Every device a line gives has an address.
pub proof fn lemma_device_event_has_address(line: Seq<char>)
    ensures
        spec_parse_device_event(line) matches Some(d) ==> d.address.len() > 0,
{
}

/// Whether a device line names address `a`.
pub open spec fn line_names(line: Seq<char>, a: Seq<char>) -> bool {
    match spec_parse_device_event(line) {
        Some(e) => e.address == a,
        None => false,
    }
}

/// Every entry of a discovery session has an address that one of its
/// lines named.
pub proof fn lemma_discovery_table_addresses(ls: Seq<Seq<char>>)
    ensures
        forall|k: int|
            0 <= k < discovery_table(ls).len() ==> (#[trigger] discovery_table(ls)[k]).address.len()
                > 0 && exists|i: int|
                0 <= i < ls.len() && #[trigger] line_names(ls[i], discovery_table(ls)[k].address),
    decreases ls.len(),
{
    if ls.len() > 0 {
        let prev = ls.drop_last();
        lemma_discovery_table_addresses(prev);
        let t = discovery_table(prev);
        let last = ls.len() - 1;
        assert(ls[last] == ls.last());
        match spec_parse_device_event(ls.last()) {
            Some(e) => {
                lemma_device_event_has_address(ls.last());
                lemma_device_index(t, e.address, 0);
            },
            None => {},
        }
        assert forall|k: int| 0 <= k < discovery_table(ls).len() implies (#[trigger] discovery_table(
            ls,
        )[k]).address.len() > 0 && exists|i: int|
            0 <= i < ls.len() && #[trigger] line_names(ls[i], discovery_table(ls)[k].address) by {
            if k < t.len() && discovery_table(ls)[k].address == t[k].address {
                let i = choose|i: int|
                    0 <= i < prev.len() && #[trigger] line_names(prev[i], t[k].address);
                assert(prev[i] == ls[i]);
                assert(line_names(ls[i], discovery_table(ls)[k].address));
            } else {
                assert(line_names(ls[last], discovery_table(ls)[k].address));
            }
        }
    }
}

/// Signal percentages stay within 0..=100, -50 dBm and above is full
/// strength, -100 dBm and below is none, and a stronger RSSI never gives a
/// smaller percentage.
pub proof fn lemma_rssi_percent_laws(a: int, b: int)
    ensures
        0 <= rssi_percent(a) <= 100,
        a >= -50 ==> rssi_percent(a) == 100,
        a <= -100 ==> rssi_percent(a) == 0,
        a <= b ==> rssi_percent(a) <= rssi_percent(b),
{
}

/// A normalized address is already normal: normalizing it again gives it
/// back.
pub proof fn lemma_normalize_address_idempotent(raw: Seq<char>)
    ensures
        spec_normalize_address(raw) matches Some(a) ==> spec_normalize_address(a) == Some(a),
{
    if let Some(a) = spec_normalize_address(raw) {
        let t = trim(raw);
        let sep = address_sep(t).unwrap();
        assert(a.len() == 17);
        assert forall|k: int| 0 <= k < 17 implies (if k % 3 == 2 {
            #[trigger] a[k] == ':'
        } else {
            is_hex(a[k]) && a[k] != ':' && a[k] != '-'
        }) by {
            if k % 3 != 2 {
                assert(is_hex(t[k]));
                assert(t[k] != sep);
            }
        }
        crate::text::lemma_skip_ws_bounds(a, 0);
        crate::text::lemma_back_ws_bounds(a, 17);
        assert(!crate::text::is_ws(a[0]));
        assert(!crate::text::is_ws(a[16]));
        assert(skip_ws(a, 0) == 0);
        assert(back_ws(a, 17) == 17);
        assert(trim(a) == a.subrange(0, 17));
        assert(trim(a) == a);
        assert(a[2] == ':');
        assert(a.contains(':'));
        assert(mac_layout(a, ':'));
        assert(canonical_address(a, ':') == a);
    }
}

/// Every device a listing yields has an address.
pub proof fn lemma_listed_devices_have_addresses(ls: Seq<Seq<char>>)
    ensures
        forall|k: int|
            0 <= k < listed_devices(ls).len() ==> (#[trigger] listed_devices(ls)[k]).address.len()
                > 0,
    decreases ls.len(),
{
    if ls.len() > 0 {
        lemma_listed_devices_have_addresses(ls.drop_last());
    }
}

/// Once `info` output has named the device's address, later lines do not
/// change it.
pub proof fn lemma_info_address_kept(d: DeviceView, line: Seq<char>)
    requires
        d.address.len() > 0,
    ensures
        info_step(d, line).address == d.address,
{
}

} // verus!
