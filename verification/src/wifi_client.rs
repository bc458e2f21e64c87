//! The operations of the WiFi client, written as steps: each call is handed
//! what the earlier steps of the operation gave back and answers the next
//! thing to do, or the operation's result. The caller asks the settings
//! daemon, runs `nmcli` and lists the interfaces.
use vstd::prelude::*;
use crate::localnet::{interface_ipv4, interface_views, spec_interface_ipv4, string_views, Interface};
use crate::text::lines;
use crate::types::NetworkError;
use crate::util::{rfkill_blocked, spec_rfkill_blocked, RfkillEntry};
use crate::wifi::{
    active_status, after_header, device_state, distinct_networks, network_table, network_views,
    parse_network_list, sorted_networks, spec_active_status, spec_device_state, Wifi, WifiNetwork,
    WifiStatus, WifiStatusView,
};

verus! {

broadcast use vstd::string::group_string_axioms;

/// What a WiFi operation needs next, or its result.
#[derive(Debug)]
pub enum WifiStep<T> {
    /// Ask the settings daemon and hand back its answer.
    AskDaemon,
    /// The daemon could not answer: read directly instead
    /// (`Wifi::scan_direct` or `Wifi::status_direct`).
    ReadDirect,
    /// Run `nmcli` with these arguments and hand back its output.
    Nmcli(Vec<String>),
    /// List the local interfaces (`LocalNetwork::interfaces`) and hand back
    /// the answer.
    ListInterfaces,
    /// The operation is over.
    Done(Result<T, NetworkError>),
}

/// The output of a command that may have failed, as text.
pub open spec fn ok_text(r: Result<String, NetworkError>) -> Option<Seq<char>> {
    match r {
        Ok(t) => Some(t@),
        Err(_) => None,
    }
}

/// An active connection completed with the device state and the IPv4
/// address of its interface.
pub open spec fn with_details(st: WifiStatusView, state: Seq<char>, ipv4: Option<Seq<char>>) -> WifiStatusView {
    WifiStatusView {
        interface: st.interface,
        ssid: st.ssid,
        bssid: st.bssid,
        signal_pct: st.signal_pct,
        frequency_mhz: st.frequency_mhz,
        security: st.security,
        state,
        ipv4,
    }
}

/// The arguments of the terse `dev wifi list` run of a scan.
pub open spec fn scan_args(rescan: bool) -> Seq<Seq<char>> {
    seq![
        "--terse"@,
        "--escape"@,
        "yes"@,
        "-f"@,
        "SSID,BSSID,SIGNAL,FREQ,SECURITY"@,
        "device"@,
        "wifi"@,
        "list"@,
    ] + if rescan {
        seq!["--rescan"@, "yes"@]
    } else {
        Seq::empty()
    }
}

/// The arguments of the terse `dev wifi list` run about interface `iface`.
pub open spec fn active_args(iface: Seq<char>) -> Seq<Seq<char>> {
    seq![
        "--terse"@,
        "--escape"@,
        "yes"@,
        "-f"@,
        "ACTIVE,SSID,BSSID,SIGNAL,FREQ,SECURITY"@,
        "device"@,
        "wifi"@,
        "list"@,
        "ifname"@,
        iface,
    ]
}

/// The arguments of the terse `device status` run: one `DEVICE:STATE` row
/// per device.
pub open spec fn state_args() -> Seq<Seq<char>> {
    seq!["--terse"@, "-f"@, "DEVICE,STATE"@, "device"@, "status"@]
}

fn strings(items: &[&str]) -> (v: Vec<String>)
    ensures
        v@.len() == items@.len(),
        forall|i: int| 0 <= i < items@.len() ==> (#[trigger] v@[i])@ == items@[i]@,
{
    let mut v: Vec<String> = Vec::new();
    let mut i: usize = 0;
    while i < items.len()
        invariant
            i <= items.len(),
            v@.len() == i,
            forall|k: int| 0 <= k < i ==> (#[trigger] v@[k])@ == items@[k]@,
        decreases items.len() - i,
    {
        v.push(items[i].to_owned());
        i += 1;
    }
    v
}

fn text_of(r: &Result<String, NetworkError>) -> (t: Option<&str>)
    ensures
        match t {
            Some(x) => ok_text(*r) == Some(x@),
            None => ok_text(*r).is_none(),
        },
{
    match r {
        Ok(s) => Some(s.as_str()),
        Err(_) => None,
    }
}

impl Wifi {
    /// Whether WiFi can be used: a wireless interface exists and `nmcli`
    /// is installed.
    pub fn is_available(&self, interface: &Option<String>, nmcli_installed: bool) -> (r: bool)
        ensures
            r == (interface.is_some() && nmcli_installed),
    {
        interface.is_some() && nmcli_installed
    }

    /// Whether the WLAN radio is blocked, from the rfkill entries; `None`
    /// when no entry has type `wlan`.
    pub fn radio_blocked(&self, entries: &Vec<RfkillEntry>) -> (r: Option<bool>)
        ensures
            r == spec_rfkill_blocked(entries@, "wlan"@),
    {
        rfkill_blocked(entries, "wlan")
    }

    /// Scans for visible networks: the settings daemon's list (which marks
    /// known networks) when it answers, else a direct scan.
    pub fn scan(&self, daemon: Option<Result<Vec<WifiNetwork>, NetworkError>>) -> (step: WifiStep<Vec<WifiNetwork>>)
        ensures
            match daemon {
                None => step == WifiStep::<Vec<WifiNetwork>>::AskDaemon,
                Some(Ok(v)) => step == WifiStep::<Vec<WifiNetwork>>::Done(Ok(v)),
                Some(Err(_)) => step == WifiStep::<Vec<WifiNetwork>>::ReadDirect,
            },
    {
        match daemon {
            None => WifiStep::AskDaemon,
            Some(Ok(v)) => WifiStep::Done(Ok(v)),
            Some(Err(_)) => WifiStep::ReadDirect,
        }
    }

    /// Scans directly via `nmcli`; with `rescan` an active scan is
    /// triggered before listing. `available` is [`Wifi::is_available`].
    pub fn scan_direct(&self, rescan: bool, available: bool, listing: Option<Result<String, NetworkError>>) -> (step: WifiStep<Vec<WifiNetwork>>)
        ensures
            if !available {
                step == WifiStep::<Vec<WifiNetwork>>::Done(Err(NetworkError::NotAvailable))
            } else {
                match listing {
                    None => step matches WifiStep::Nmcli(args) && string_views(args@) == scan_args(
                        rescan,
                    ),
                    Some(Err(e)) => step == WifiStep::<Vec<WifiNetwork>>::Done(Err(e)),
                    Some(Ok(t)) => step matches WifiStep::Done(Ok(v)) && network_views(
                        v@,
                    ).to_multiset() == network_table(after_header(lines(t@))).to_multiset()
                        && sorted_networks(network_views(v@)) && distinct_networks(
                        network_views(v@),
                    ),
                }
            },
    {
        if !available {
            return WifiStep::Done(Err(NetworkError::NotAvailable));
        }
        match listing {
            None => {
                let mut args = strings(
                    &[
                        "--terse",
                        "--escape",
                        "yes",
                        "-f",
                        "SSID,BSSID,SIGNAL,FREQ,SECURITY",
                        "device",
                        "wifi",
                        "list",
                    ],
                );
                if rescan {
                    args.push("--rescan".to_owned());
                    args.push("yes".to_owned());
                }
                assert(string_views(args@) =~= scan_args(rescan));
                WifiStep::Nmcli(args)
            },
            Some(Err(e)) => WifiStep::Done(Err(e)),
            Some(Ok(t)) => WifiStep::Done(Ok(parse_network_list(t.as_str()))),
        }
    }

    /// The active connection: the settings daemon's answer when it
    /// answers, else a direct read.
    pub fn status(&self, daemon: Option<Result<Option<WifiStatus>, NetworkError>>) -> (step: WifiStep<Option<WifiStatus>>)
        ensures
            match daemon {
                None => step == WifiStep::<Option<WifiStatus>>::AskDaemon,
                Some(Ok(v)) => step == WifiStep::<Option<WifiStatus>>::Done(Ok(v)),
                Some(Err(_)) => step == WifiStep::<Option<WifiStatus>>::ReadDirect,
            },
    {
        match daemon {
            None => WifiStep::AskDaemon,
            Some(Ok(v)) => WifiStep::Done(Ok(v)),
            Some(Err(_)) => WifiStep::ReadDirect,
        }
    }

    /// Reads the active connection directly: the active row of the
    /// listing of interface `iface` (the first wireless interface), then
    /// the device state of `iface` (`unknown` when it cannot be read) and
    /// its IPv4 address (none when the interfaces cannot be listed).
    /// `None` when no row is active.
    pub fn status_direct(
        &self,
        available: bool,
        iface: Option<String>,
        listing: Option<Result<String, NetworkError>>,
        states: Option<Result<String, NetworkError>>,
        interfaces: Option<Result<Vec<Interface>, NetworkError>>,
    ) -> (step: WifiStep<Option<WifiStatus>>)
        ensures
            if !available {
                step == WifiStep::<Option<WifiStatus>>::Done(Err(NetworkError::NotAvailable))
            } else {
                match iface {
                    None => step == WifiStep::<Option<WifiStatus>>::Done(
                        Err(NetworkError::NotAvailable),
                    ),
                    Some(name) => match listing {
                        None => step matches WifiStep::Nmcli(args) && string_views(args@)
                            == active_args(name@),
                        Some(Err(e)) => step == WifiStep::<Option<WifiStatus>>::Done(Err(e)),
                        Some(Ok(t)) => match spec_active_status(name@, t@) {
                            None => step == WifiStep::<Option<WifiStatus>>::Done(Ok(None)),
                            Some(st) => match states {
                                None => step matches WifiStep::Nmcli(args) && string_views(args@)
                                    == state_args(),
                                Some(out) => match interfaces {
                                    None => step == WifiStep::<Option<WifiStatus>>::ListInterfaces,
                                    Some(ifs) => step matches WifiStep::Done(Ok(Some(x))) && x@
                                        == with_details(
                                        st,
                                        spec_device_state(name@, ok_text(out)),
                                        match ifs {
                                            Ok(v) => spec_interface_ipv4(
                                                name@,
                                                interface_views(v@),
                                            ),
                                            Err(_) => None,
                                        },
                                    ),
                                },
                            },
                        },
                    },
                }
            },
    {
        if !available {
            return WifiStep::Done(Err(NetworkError::NotAvailable));
        }
        let name = match iface {
            None => return WifiStep::Done(Err(NetworkError::NotAvailable)),
            Some(name) => name,
        };
        let text = match listing {
            None => {
                let mut args = strings(
                    &[
                        "--terse",
                        "--escape",
                        "yes",
                        "-f",
                        "ACTIVE,SSID,BSSID,SIGNAL,FREQ,SECURITY",
                        "device",
                        "wifi",
                        "list",
                        "ifname",
                    ],
                );
                args.push(name.clone());
                assert(string_views(args@) =~= active_args(name@));
                return WifiStep::Nmcli(args);
            },
            Some(Err(e)) => return WifiStep::Done(Err(e)),
            Some(Ok(t)) => t,
        };
        let mut status = match active_status(name.as_str(), text.as_str()) {
            None => return WifiStep::Done(Ok(None)),
            Some(st) => st,
        };
        let out = match states {
            None => {
                let args = strings(&["--terse", "-f", "DEVICE,STATE", "device", "status"]);
                assert(string_views(args@) =~= state_args());
                return WifiStep::Nmcli(args);
            },
            Some(out) => out,
        };
        let ifs = match interfaces {
            None => return WifiStep::ListInterfaces,
            Some(ifs) => ifs,
        };
        status.state = device_state(name.as_str(), text_of(&out));
        status.ipv4 = match &ifs {
            Ok(v) => interface_ipv4(name.as_str(), v),
            Err(_) => None,
        };
        WifiStep::Done(Ok(Some(status)))
    }
}

} // verus!
