//! Bookkeeping of mDNS discovery: each resolved `_pulsebox-cmd._tcp` service
//! becomes one device entry per host name, the latest resolution winning.
use vstd::prelude::*;

verus! {

/// mDNS service type that controllers announce.
pub const SERVICE_TYPE: &'static str = "_pulsebox-cmd._tcp.local.";
/// Audio port of every controller (fixed by the firmware).
pub const AUDIO_PORT: u16 = 5000;
/// How long a scan listens, in milliseconds.
pub const SCAN_MILLIS: u64 = 3000;
/// How long each wait for an event lasts, in milliseconds.
pub const POLL_MILLIS: u64 = 100;

/// A controller found on the network.
#[derive(Debug, Clone)]
pub struct PulseBoxDevice {
    pub name: String,
    pub ip: String,
    pub cmd_port: u16,
    pub audio_port: u16,
}

/// Model of a [`PulseBoxDevice`]: name, address, command port, audio port.
pub open spec fn device_model(d: PulseBoxDevice) -> (Seq<char>, Seq<char>, u16, u16) {
    (d.name@, d.ip@, d.cmd_port, d.audio_port)
}

/// A host name without its trailing dots.
pub open spec fn trim_trailing_dots(s: Seq<char>) -> Seq<char>
    decreases s.len(),
{
    if s.len() > 0 && s.last() == '.' {
        trim_trailing_dots(s.drop_last())
    } else {
        s
    }
}

proof fn lemma_trim_prefix(s: Seq<char>, k: int)
    requires
        0 <= k <= s.len(),
        forall|i: int| k <= i < s.len() ==> s[i] == '.',
    ensures
        trim_trailing_dots(s) == trim_trailing_dots(s.take(k)),
    decreases s.len() - k,
{
    if k < s.len() {
        assert(s.drop_last().take(k) =~= s.take(k));
        lemma_trim_prefix(s.drop_last(), k);
    } else {
        assert(s.take(k) =~= s);
    }
}

/// The device name of a host name: the host name without trailing dots.
pub fn device_name(hostname: &str) -> (out: String)
    ensures
        out@ == trim_trailing_dots(hostname@),
{
    let n = hostname.unicode_len();
    let mut end: usize = n;
    while end > 0 && hostname.get_char(end - 1) == '.'
        invariant
            n == hostname@.len(),
            end <= n,
            forall|i: int| end <= i < n ==> hostname@[i] == '.',
        decreases end,
    {
        end = end - 1;
    }
    proof {
        lemma_trim_prefix(hostname@, end as int);
        let t = hostname@.take(end as int);
        if end > 0 {
            assert(t.last() != '.');
        }
    }
    hostname.substring_char(0, end).to_owned()
}

/// An entry of the registry: name, address, command port, audio port.
pub type DeviceEntry = (Seq<char>, Seq<char>, u16, u16);

/// Position of the entry named `name`, or -1 if there is none.
pub open spec fn name_index(entries: Seq<DeviceEntry>, name: Seq<char>) -> int
    decreases entries.len(),
{
    if entries.len() == 0 {
        -1
    } else {
        let i = name_index(entries.drop_last(), name);
        if i >= 0 {
            i
        } else if entries.last().0 == name {
            entries.len() - 1
        } else {
            -1
        }
    }
}

/// The entries after recording `e`: it replaces the entry of the same name
/// in place, or is appended if the name is new.
pub open spec fn recorded(entries: Seq<DeviceEntry>, e: DeviceEntry) -> Seq<DeviceEntry> {
    let i = name_index(entries, e.0);
    if i >= 0 {
        entries.update(i, e)
    } else {
        entries.push(e)
    }
}

/// No two entries share a name.
pub open spec fn names_distinct(entries: Seq<DeviceEntry>) -> bool {
    forall|i: int, j: int| 0 <= i < j < entries.len() ==> #[trigger] entries[i].0 != #[trigger] entries[j].0
}

proof fn lemma_name_index(entries: Seq<DeviceEntry>, name: Seq<char>)
    ensures
        -1 <= name_index(entries, name) < entries.len(),
        name_index(entries, name) >= 0 ==> entries[name_index(entries, name)].0 == name,
        name_index(entries, name) >= 0 ==> forall|j: int|
            0 <= j < name_index(entries, name) ==> #[trigger] entries[j].0 != name,
        name_index(entries, name) < 0 ==> forall|j: int|
            0 <= j < entries.len() ==> #[trigger] entries[j].0 != name,
    decreases entries.len(),
{
    if entries.len() > 0 {
        let front = entries.drop_last();
        lemma_name_index(front, name);
        assert forall|j: int| 0 <= j < front.len() implies #[trigger] entries[j] == front[j] by {}
    }
}

/// Recording a resolution keeps one entry per name, and the entry of the
/// recorded name holds the latest address and port; every other entry stays
/// as it was, in its place.
pub proof fn lemma_latest_resolution_wins(entries: Seq<DeviceEntry>, e: DeviceEntry)
    requires
        names_distinct(entries),
    ensures
        names_distinct(recorded(entries, e)),
        exists|j: int| 0 <= j < recorded(entries, e).len() && #[trigger] recorded(entries, e)[j] == e,
        forall|j: int|
            0 <= j < recorded(entries, e).len() && (#[trigger] recorded(entries, e)[j]).0 == e.0
                ==> recorded(entries, e)[j] == e,
        forall|j: int|
            0 <= j < entries.len() && (#[trigger] entries[j]).0 != e.0 ==> recorded(entries, e)[j]
                == entries[j],
{
    lemma_name_index(entries, e.0);
    let i = name_index(entries, e.0);
    let r = recorded(entries, e);
    if i >= 0 {
        assert(r[i] == e);
    } else {
        assert(r[entries.len() as int] == e);
    }
}

/// The devices found so far, at most one per name.
pub struct DeviceRegistry {
    devices: Vec<PulseBoxDevice>,
}

impl DeviceRegistry {
    /// The entries, in the order their names were first seen.
    pub closed spec fn entries(&self) -> Seq<DeviceEntry> {
        self.devices@.map_values(|d: PulseBoxDevice| device_model(d))
    }

    /// Well-formed: names are distinct and every audio port is the fixed one.
    pub open spec fn wf(&self) -> bool {
        &&& names_distinct(self.entries())
        &&& forall|i: int| 0 <= i < self.entries().len() ==> #[trigger] self.entries()[i].3 == AUDIO_PORT
    }

    /// An empty registry.
    pub fn new() -> (out: Self)
        ensures
            out.wf(),
            out.entries() == Seq::<(Seq<char>, Seq<char>, u16, u16)>::empty(),
    {
        let out = DeviceRegistry { devices: Vec::new() };
        assert(out.entries() =~= Seq::<(Seq<char>, Seq<char>, u16, u16)>::empty());
        out
    }

    /// Records a resolved service. Without an address nothing changes;
    /// otherwise the entry of its name is replaced in place, or appended if
    /// the name is new.
    pub fn record_resolved(&mut self, hostname: &str, ip: Option<String>, cmd_port: u16)
        requires
            old(self).wf(),
        ensures
            final(self).wf(),
            match ip {
                None => final(self).entries() == old(self).entries(),
                Some(addr) => final(self).entries() == recorded(
                    old(self).entries(),
                    (trim_trailing_dots(hostname@), addr@, cmd_port, AUDIO_PORT),
                ),
            },
    {
        match ip {
            None => {},
            Some(addr) => {
                let name = device_name(hostname);
                let ghost e = (name@, addr@, cmd_port, AUDIO_PORT);
                let ghost before = self.entries();
                proof {
                    lemma_name_index(before, name@);
                }
                let n = self.devices.len();
                let mut i: usize = 0;
                while i < n
                    invariant
                        n == self.devices@.len(),
                        i <= n,
                        before == self.entries(),
                        e == (name@, addr@, cmd_port, AUDIO_PORT),
                        name@ == trim_trailing_dots(hostname@),
                        ip == Some(addr),
                        before == old(self).entries(),
                        old(self).wf(),
                        -1 <= name_index(before, name@) < before.len(),
                        name_index(before, name@) >= 0 ==> before[name_index(before, name@)].0 == name@,
                        name_index(before, name@) >= 0 ==> forall|j: int|
                            0 <= j < name_index(before, name@) ==> #[trigger] before[j].0 != name@,
                        name_index(before, name@) < 0 ==> forall|j: int|
                            0 <= j < before.len() ==> #[trigger] before[j].0 != name@,
                        forall|j: int| 0 <= j < i ==> #[trigger] before[j].0 != name@,
                    decreases n - i,
                {
                    if self.devices[i].name == name {
                        let dev = PulseBoxDevice {
                            name,
                            ip: addr,
                            cmd_port,
                            audio_port: AUDIO_PORT,
                        };
                        self.devices.set(i, dev);
                        assert(before[i as int].0 == e.0);
                        assert(name_index(before, e.0) == i);
                        assert(self.entries() =~= before.update(i as int, e));
                        return;
                    }
                    i = i + 1;
                }
                let dev = PulseBoxDevice { name, ip: addr, cmd_port, audio_port: AUDIO_PORT };
                self.devices.push(dev);
                assert(name_index(before, e.0) < 0);
                assert(self.entries() =~= before.push(e));
            },
        }
    }

    /// The devices found, one per name.
    pub fn into_devices(self) -> (out: Vec<PulseBoxDevice>)
        ensures
            out@.map_values(|d: PulseBoxDevice| device_model(d)) == self.entries(),
    {
        self.devices
    }
}

} // verus!
