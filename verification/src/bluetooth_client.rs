//! The operations of the Bluetooth client, written as steps: each call is
//! handed what the earlier steps of the operation gave back and answers the
//! next thing to do, or the operation's result. The caller runs the
//! `bluetoothctl` processes, waits, and reads the clock.
use vstd::prelude::*;
use crate::bluetooth::{
    collect_devices, device_command, device_info_from_output, device_views, discovered_devices,
    discovery_table, distinct_addresses, listed_devices, parse_show_output, power_command,
    power_outcome, sorted_by_signal, spec_device_info, spec_parse_show_output, Adapter, Bluetooth,
    Device, DeviceFilter,
};
use crate::localnet::string_views;
use crate::text::lines;
use crate::types::NetworkError;
use crate::util::{rfkill_blocked, spec_rfkill_blocked, RfkillEntry};

verus! {

broadcast use vstd::string::group_string_axioms;

/// One line of an interactive `bluetoothctl` session: the command to type
/// (nothing when empty) and how long to wait after it.
#[derive(Debug, Clone)]
pub struct SessionLine {
    pub command: String,
    pub delay_ms: u64,
}

/// A session line by its text and delay.
pub open spec fn line_view(l: SessionLine) -> (Seq<char>, u64) {
    (l.command@, l.delay_ms)
}

pub open spec fn session_view(v: Seq<SessionLine>) -> Seq<(Seq<char>, u64)> {
    v.map_values(|l: SessionLine| line_view(l))
}

/// What a Bluetooth operation needs next, or its result.
#[derive(Debug)]
pub enum BluetoothStep<T> {
    /// Run `bluetoothctl` with these arguments and hand back its output.
    Run(Vec<String>),
    /// Run one interactive `bluetoothctl` session with these lines, then
    /// `quit`, and hand back its output.
    Session(Vec<SessionLine>),
    /// Read the controller (`Bluetooth::adapter`) and hand back the answer.
    ReadAdapter,
    /// Read the device (`Bluetooth::device_info`) and hand back the answer.
    ReadDevice(String),
    /// Wait this many milliseconds, then forget the last device reading.
    Wait(u64),
    /// The operation is over.
    Done(Result<T, NetworkError>),
}

fn line(command: &str, delay_ms: u64) -> (l: SessionLine)
    ensures
        line_view(l) == (command@, delay_ms),
{
    SessionLine { command: command.to_owned(), delay_ms }
}

/// The poll answer of `pair` and `connect` while waiting for `flag` to be
/// set on the device: a failed reading ends the operation, a device with
/// the flag is the result, else wait half a second; without a reading, the
/// operation times out once the deadline has passed, else the device is
/// read.
pub open spec fn poll_step(
    reading: Option<Result<Device, NetworkError>>,
    expired: bool,
    address: Seq<char>,
    flag: spec_fn(Device) -> bool,
    step: BluetoothStep<Device>,
) -> bool {
    match reading {
        Some(Err(e)) => step == BluetoothStep::<Device>::Done(Err(e)),
        Some(Ok(d)) => if flag(d) {
            step == BluetoothStep::<Device>::Done(Ok(d))
        } else {
            step == BluetoothStep::<Device>::Wait(500)
        },
        None => if expired {
            step == BluetoothStep::<Device>::Done(Err(NetworkError::Timeout))
        } else {
            step matches BluetoothStep::ReadDevice(a) && a@ == address
        },
    }
}

impl Bluetooth {
    /// Whether the bluetooth radio is blocked, from the rfkill entries;
    /// `None` when no entry has type `bluetooth`.
    pub fn radio_blocked(&self, entries: &Vec<RfkillEntry>) -> (r: Option<bool>)
        ensures
            r == spec_rfkill_blocked(entries@, "bluetooth"@),
    {
        rfkill_blocked(entries, "bluetooth")
    }

    /// Reads the default controller, named `name`, via `bluetoothctl show`.
    /// `available` tells whether a controller and `bluetoothctl` exist;
    /// `show` is the output of the `show` run once it was made.
    pub fn adapter(&self, available: bool, show: Option<Result<String, NetworkError>>, name: &str) -> (step: BluetoothStep<Adapter>)
        ensures
            if !available {
                step == BluetoothStep::<Adapter>::Done(Err(NetworkError::NotAvailable))
            } else {
                match show {
                    None => step matches BluetoothStep::Run(args) && string_views(args@) == seq![
                        "--"@,
                        "show"@,
                    ],
                    Some(Err(e)) => step == BluetoothStep::<Adapter>::Done(Err(e)),
                    Some(Ok(t)) => step matches BluetoothStep::Done(Ok(a)) && a@
                        == spec_parse_show_output(t@, name@),
                }
            },
    {
        if !available {
            return BluetoothStep::Done(Err(NetworkError::NotAvailable));
        }
        match show {
            None => {
                let args = vec!["--".to_owned(), "show".to_owned()];
                assert(string_views(args@) == seq!["--"@, "show"@]);
                BluetoothStep::Run(args)
            },
            Some(Err(e)) => BluetoothStep::Done(Err(e)),
            Some(Ok(t)) => BluetoothStep::Done(Ok(parse_show_output(t.as_str(), name))),
        }
    }

    /// Powers the default controller on or off: one session line, then the
    /// controller is read again and must report the requested state, else
    /// the change was denied.
    pub fn set_powered(
        &self,
        powered: bool,
        available: bool,
        session: Option<Result<String, NetworkError>>,
        reading: Option<Result<Adapter, NetworkError>>,
    ) -> (step: BluetoothStep<()>)
        ensures
            if !available {
                step == BluetoothStep::<()>::Done(Err(NetworkError::NotAvailable))
            } else {
                match session {
                    None => step matches BluetoothStep::Session(ls) && session_view(ls@) == seq![
                        (if powered { "power on"@ } else { "power off"@ }, 400u64),
                    ],
                    Some(Err(e)) => step == BluetoothStep::<()>::Done(Err(e)),
                    Some(Ok(_)) => match reading {
                        None => step == BluetoothStep::<()>::ReadAdapter,
                        Some(Err(e)) => step == BluetoothStep::<()>::Done(Err(e)),
                        Some(Ok(a)) => if a.powered == powered {
                            step == BluetoothStep::<()>::Done(Ok(()))
                        } else {
                            step == BluetoothStep::<()>::Done(Err(NetworkError::PermissionDenied))
                        },
                    },
                }
            },
    {
        if !available {
            return BluetoothStep::Done(Err(NetworkError::NotAvailable));
        }
        match session {
            None => {
                let cmd = power_command(powered);
                let ls = vec![SessionLine { command: cmd, delay_ms: 400 }];
                assert(session_view(ls@) =~= seq![(if powered { "power on"@ } else { "power off"@ }, 400u64)]);
                BluetoothStep::Session(ls)
            },
            Some(Err(e)) => BluetoothStep::Done(Err(e)),
            Some(Ok(_)) => match reading {
                None => BluetoothStep::ReadAdapter,
                Some(Err(e)) => BluetoothStep::Done(Err(e)),
                Some(Ok(a)) => {
                    let r = power_outcome(powered, a.powered);
                    match r {
                        Ok(()) => BluetoothStep::Done(Ok(())),
                        Err(_) => BluetoothStep::Done(Err(NetworkError::PermissionDenied)),
                    }
                },
            },
        }
    }

    /// Lists the known devices of `filter` without scanning: one session
    /// line, whose output lists the devices.
    pub fn devices(&self, filter: DeviceFilter, available: bool, session: Option<Result<String, NetworkError>>) -> (step: BluetoothStep<Vec<Device>>)
        ensures
            if !available {
                step == BluetoothStep::<Vec<Device>>::Done(Err(NetworkError::NotAvailable))
            } else {
                match session {
                    None => step matches BluetoothStep::Session(ls) && session_view(ls@) == seq![
                        (
                            match filter {
                                DeviceFilter::All => "devices"@,
                                DeviceFilter::Paired => "devices Paired"@,
                                DeviceFilter::Connected => "devices Connected"@,
                            },
                            300u64,
                        ),
                    ],
                    Some(Err(e)) => step == BluetoothStep::<Vec<Device>>::Done(Err(e)),
                    Some(Ok(t)) => step matches BluetoothStep::Done(Ok(v)) && device_views(v@)
                        == listed_devices(lines(t@)),
                }
            },
    {
        if !available {
            return BluetoothStep::Done(Err(NetworkError::NotAvailable));
        }
        match session {
            None => {
                let ls = vec![line(filter.command(), 300)];
                assert(session_view(ls@) =~= seq![(line_view(ls@[0]).0, 300u64)]);
                BluetoothStep::Session(ls)
            },
            Some(Err(e)) => BluetoothStep::Done(Err(e)),
            Some(Ok(t)) => BluetoothStep::Done(Ok(collect_devices(t.as_str()))),
        }
    }

    /// Scans for nearby devices for `timeout_secs` seconds: the session
    /// turns scanning on, waits, turns it off and lists the devices; every
    /// address seen in its output is reported once, strongest signal first.
    pub fn discover(&self, timeout_secs: u64, available: bool, session: Option<Result<String, NetworkError>>) -> (step: BluetoothStep<Vec<Device>>)
        requires
            timeout_secs * 1000 <= u64::MAX,
        ensures
            if !available {
                step == BluetoothStep::<Vec<Device>>::Done(Err(NetworkError::NotAvailable))
            } else {
                match session {
                    None => step matches BluetoothStep::Session(ls) && session_view(ls@) == seq![
                        ("scan on"@, 500u64),
                        (""@, (timeout_secs * 1000) as u64),
                        ("scan off"@, 400u64),
                        ("devices"@, 300u64),
                    ],
                    Some(Err(e)) => step == BluetoothStep::<Vec<Device>>::Done(Err(e)),
                    Some(Ok(t)) => step matches BluetoothStep::Done(Ok(v)) && device_views(
                        v@,
                    ).to_multiset() == discovery_table(lines(t@)).to_multiset() && sorted_by_signal(
                        device_views(v@),
                    ) && distinct_addresses(device_views(v@)),
                }
            },
    {
        if !available {
            return BluetoothStep::Done(Err(NetworkError::NotAvailable));
        }
        match session {
            None => {
                let ls = vec![
                    line("scan on", 500),
                    line("", timeout_secs * 1000),
                    line("scan off", 400),
                    line("devices", 300),
                ];
                assert(session_view(ls@) =~= seq![
                    ("scan on"@, 500u64),
                    (""@, (timeout_secs * 1000) as u64),
                    ("scan off"@, 400u64),
                    ("devices"@, 300u64),
                ]);
                BluetoothStep::Session(ls)
            },
            Some(Err(e)) => BluetoothStep::Done(Err(e)),
            Some(Ok(t)) => BluetoothStep::Done(Ok(discovered_devices(t.as_str()))),
        }
    }

    /// Fetches detailed information about one device via
    /// `bluetoothctl info`; an answer that names no device is a
    /// `ParseError` naming the address.
    pub fn device_info(&self, address: &str, available: bool, info: Option<Result<String, NetworkError>>) -> (step: BluetoothStep<Device>)
        ensures
            if !available {
                step == BluetoothStep::<Device>::Done(Err(NetworkError::NotAvailable))
            } else {
                match info {
                    None => step matches BluetoothStep::Run(args) && string_views(args@) == seq![
                        "--"@,
                        "info"@,
                        address@,
                    ],
                    Some(Err(e)) => step == BluetoothStep::<Device>::Done(Err(e)),
                    Some(Ok(t)) => match spec_device_info(address@, t@) {
                        Ok(d) => step matches BluetoothStep::Done(Ok(x)) && x@ == d,
                        Err(ev) => step matches BluetoothStep::Done(Err(x)) && x@ == ev,
                    },
                }
            },
    {
        if !available {
            return BluetoothStep::Done(Err(NetworkError::NotAvailable));
        }
        match info {
            None => {
                let args = vec!["--".to_owned(), "info".to_owned(), address.to_owned()];
                assert(string_views(args@) =~= seq!["--"@, "info"@, address@]);
                BluetoothStep::Run(args)
            },
            Some(Err(e)) => BluetoothStep::Done(Err(e)),
            Some(Ok(t)) => BluetoothStep::Done(device_info_from_output(address, t.as_str())),
        }
    }

    fn await_flag(address: &str, reading: Option<Result<Device, NetworkError>>, expired: bool, want_paired: bool) -> (step: BluetoothStep<Device>)
        ensures
            poll_step(
                reading,
                expired,
                address@,
                |d: Device| if want_paired { d.paired } else { d.connected },
                step,
            ),
    {
        match reading {
            Some(Err(e)) => BluetoothStep::Done(Err(e)),
            Some(Ok(d)) => {
                let set = if want_paired { d.paired } else { d.connected };
                if set {
                    BluetoothStep::Done(Ok(d))
                } else {
                    BluetoothStep::Wait(500)
                }
            },
            None => if expired {
                BluetoothStep::Done(Err(NetworkError::Timeout))
            } else {
                BluetoothStep::ReadDevice(address.to_owned())
            },
        }
    }

    /// Pairs with a device and trusts it, then reads the device every half
    /// second until it reports paired; `expired` tells whether the
    /// `timeout_secs` deadline, counted from the end of the session, has
    /// passed, and `reading` is the last device reading since the last wait.
    pub fn pair(
        &self,
        address: &str,
        available: bool,
        session: Option<Result<String, NetworkError>>,
        reading: Option<Result<Device, NetworkError>>,
        expired: bool,
    ) -> (step: BluetoothStep<Device>)
        ensures
            if !available {
                step == BluetoothStep::<Device>::Done(Err(NetworkError::NotAvailable))
            } else {
                match session {
                    None => step matches BluetoothStep::Session(ls) && session_view(ls@) == seq![
                        ("pair"@ + " "@ + address@, 300u64),
                        ("trust"@ + " "@ + address@, 200u64),
                    ],
                    Some(Err(e)) => step == BluetoothStep::<Device>::Done(Err(e)),
                    Some(Ok(_)) => poll_step(reading, expired, address@, |d: Device| d.paired, step),
                }
            },
    {
        if !available {
            return BluetoothStep::Done(Err(NetworkError::NotAvailable));
        }
        match session {
            None => {
                let ls = vec![
                    SessionLine { command: device_command("pair", address), delay_ms: 300 },
                    SessionLine { command: device_command("trust", address), delay_ms: 200 },
                ];
                assert(session_view(ls@) =~= seq![
                    ("pair"@ + " "@ + address@, 300u64),
                    ("trust"@ + " "@ + address@, 200u64),
                ]);
                BluetoothStep::Session(ls)
            },
            Some(Err(e)) => BluetoothStep::Done(Err(e)),
            Some(Ok(_)) => {
                let step = Self::await_flag(address, reading, expired, true);
                assert((|d: Device| if true { d.paired } else { d.connected }) =~= (|d: Device|
                    d.paired));
                step
            },
        }
    }

    /// Opens a connection to a paired device, then reads the device every
    /// half second until it reports connected; `expired` and `reading` as
    /// for [`Bluetooth::pair`].
    pub fn connect(
        &self,
        address: &str,
        available: bool,
        session: Option<Result<String, NetworkError>>,
        reading: Option<Result<Device, NetworkError>>,
        expired: bool,
    ) -> (step: BluetoothStep<Device>)
        ensures
            if !available {
                step == BluetoothStep::<Device>::Done(Err(NetworkError::NotAvailable))
            } else {
                match session {
                    None => step matches BluetoothStep::Session(ls) && session_view(ls@) == seq![
                        ("connect"@ + " "@ + address@, 300u64),
                    ],
                    Some(Err(e)) => step == BluetoothStep::<Device>::Done(Err(e)),
                    Some(Ok(_)) => poll_step(
                        reading,
                        expired,
                        address@,
                        |d: Device| d.connected,
                        step,
                    ),
                }
            },
    {
        if !available {
            return BluetoothStep::Done(Err(NetworkError::NotAvailable));
        }
        match session {
            None => {
                let ls = vec![SessionLine { command: device_command("connect", address), delay_ms: 300 }];
                assert(session_view(ls@) =~= seq![("connect"@ + " "@ + address@, 300u64)]);
                BluetoothStep::Session(ls)
            },
            Some(Err(e)) => BluetoothStep::Done(Err(e)),
            Some(Ok(_)) => {
                let step = Self::await_flag(address, reading, expired, false);
                assert((|d: Device| if false { d.paired } else { d.connected }) =~= (|d: Device|
                    d.connected));
                step
            },
        }
    }

    fn single_command(verb: &str, address: &str, available: bool, session: Option<Result<String, NetworkError>>) -> (step: BluetoothStep<()>)
        ensures
            if !available {
                step == BluetoothStep::<()>::Done(Err(NetworkError::NotAvailable))
            } else {
                match session {
                    None => step matches BluetoothStep::Session(ls) && session_view(ls@) == seq![
                        (verb@ + " "@ + address@, 600u64),
                    ],
                    Some(Err(e)) => step == BluetoothStep::<()>::Done(Err(e)),
                    Some(Ok(_)) => step == BluetoothStep::<()>::Done(Ok(())),
                }
            },
    {
        if !available {
            return BluetoothStep::Done(Err(NetworkError::NotAvailable));
        }
        match session {
            None => {
                let ls = vec![SessionLine { command: device_command(verb, address), delay_ms: 600 }];
                assert(session_view(ls@) =~= seq![(verb@ + " "@ + address@, 600u64)]);
                BluetoothStep::Session(ls)
            },
            Some(Err(e)) => BluetoothStep::Done(Err(e)),
            Some(Ok(_)) => BluetoothStep::Done(Ok(())),
        }
    }

    /// Disconnects a device: one session line.
    pub fn disconnect(&self, address: &str, available: bool, session: Option<Result<String, NetworkError>>) -> (step: BluetoothStep<()>)
        ensures
            if !available {
                step == BluetoothStep::<()>::Done(Err(NetworkError::NotAvailable))
            } else {
                match session {
                    None => step matches BluetoothStep::Session(ls) && session_view(ls@) == seq![
                        ("disconnect"@ + " "@ + address@, 600u64),
                    ],
                    Some(Err(e)) => step == BluetoothStep::<()>::Done(Err(e)),
                    Some(Ok(_)) => step == BluetoothStep::<()>::Done(Ok(())),
                }
            },
    {
        Self::single_command("disconnect", address, available, session)
    }

    /// Removes a paired device from the controller: one session line.
    pub fn remove_device(&self, address: &str, available: bool, session: Option<Result<String, NetworkError>>) -> (step: BluetoothStep<()>)
        ensures
            if !available {
                step == BluetoothStep::<()>::Done(Err(NetworkError::NotAvailable))
            } else {
                match session {
                    None => step matches BluetoothStep::Session(ls) && session_view(ls@) == seq![
                        ("remove"@ + " "@ + address@, 600u64),
                    ],
                    Some(Err(e)) => step == BluetoothStep::<()>::Done(Err(e)),
                    Some(Ok(_)) => step == BluetoothStep::<()>::Done(Ok(())),
                }
            },
    {
        Self::single_command("remove", address, available, session)
    }
}

} // verus!
