use vstd::prelude::*;
use vstd::string::*;

verus! {

/// One controller as a single enumeration reported it.
#[derive(Debug, PartialEq, Eq)]
pub struct DeviceEntry {
    /// Position of the device within the enumeration result.
    pub index: u32,
    /// Best-effort display name.
    pub name: String,
    /// The stable identity, or the message of the failure to resolve it.
    pub identity: Result<String, String>,
}

/// Mathematical model of a `DeviceEntry`.
pub struct EntryView {
    pub index: u32,
    pub name: Seq<char>,
    pub identity: Result<Seq<char>, Seq<char>>,
}

impl View for DeviceEntry {
    type V = EntryView;

    open spec fn view(&self) -> EntryView {
        EntryView {
            index: self.index,
            name: self.name@,
            identity: match self.identity {
                Ok(id) => Ok(id@),
                Err(e) => Err(e@),
            },
        }
    }
}

/// What the tracker tells the reporter about one poll.
#[derive(Debug, Clone, PartialEq, Eq)]
pub enum Event {
    /// The first empty snapshot of the run.
    NoDevicesFound,
    /// A device whose identity has not been seen before.
    DeviceDiscovered { identity: String, name: String, index: u32 },
    /// A device whose identity could not be resolved on this poll.
    DeviceIdentityUnresolved { name: String, index: u32, error: String },
}

/// Mathematical model of an `Event`.
pub enum EventView {
    NoDevicesFound,
    DeviceDiscovered { identity: Seq<char>, name: Seq<char>, index: u32 },
    DeviceIdentityUnresolved { name: Seq<char>, index: u32, error: Seq<char> },
}

impl View for Event {
    type V = EventView;

    open spec fn view(&self) -> EventView {
        match self {
            Event::NoDevicesFound => EventView::NoDevicesFound,
            Event::DeviceDiscovered { identity, name, index } => EventView::DeviceDiscovered {
                identity: identity@,
                name: name@,
                index: *index,
            },
            Event::DeviceIdentityUnresolved { name, index, error } =>
                EventView::DeviceIdentityUnresolved { name: name@, index: *index, error: error@ },
        }
    }
}

pub open spec fn entries_view(v: Seq<DeviceEntry>) -> Seq<EntryView> {
    v.map_values(|e: DeviceEntry| e@)
}

pub open spec fn events_view(v: Seq<Event>) -> Seq<EventView> {
    v.map_values(|e: Event| e@)
}

/// The name shown for a device whose display name could not be read.
pub open spec fn unknown_name() -> Seq<char> {
    seq!['u', 'n', 'k', 'n', 'o', 'w', 'n']
}

/// The display name of a device: the one that was read, else `"unknown"`.
pub fn display_name_or_unknown(name: Option<String>) -> (r: String)
    ensures
        r@ == match name {
            Some(n) => n@,
            None => unknown_name(),
        },
{
    match name {
        Some(n) => n,
        None => {
            let r = String::from_str("unknown");
            proof {
                reveal_strlit("unknown");
                assert(r@ =~= unknown_name());
            }
            r
        },
    }
}

/// The decimal digit `d` as a character.
pub open spec fn digit_char(d: nat) -> char {
    seq!['0', '1', '2', '3', '4', '5', '6', '7', '8', '9'][d as int]
}

/// The decimal notation of `n`, without leading zeros.
pub open spec fn decimal(n: nat) -> Seq<char>
    decreases n,
{
    if n < 10 {
        seq![digit_char(n)]
    } else {
        decimal(n / 10).push(digit_char(n % 10))
    }
}

fn digit_str(d: u32) -> (r: &'static str)
    requires
        d < 10,
    ensures
        r@ == seq![digit_char(d as nat)],
{
    let digits = "0123456789";
    proof {
        reveal_strlit("0123456789");
    }
    let r = digits.substring_char(d as usize, d as usize + 1);
    assert(r@ =~= seq![digit_char(d as nat)]);
    r
}

/// Appends the decimal notation of `n` to `out`.
pub fn push_decimal(out: &mut String, n: u32)
    ensures
        final(out)@ == old(out)@ + decimal(n as nat),
    decreases n,
{
    if n >= 10 {
        push_decimal(out, n / 10);
    }
    out.append(digit_str(n % 10));
    proof {
        if n >= 10 {
            assert(decimal(n as nat) == decimal((n / 10) as nat).push(digit_char((n % 10) as nat)));
        }
        assert(out@ =~= old(out)@ + decimal(n as nat));
    }
}

/// The line that reports an event.
pub open spec fn line_of(ev: EventView) -> Seq<char> {
    match ev {
        EventView::NoDevicesFound => "No Gamepads found at startup"@,
        EventView::DeviceDiscovered { identity, name, index } => "Found controller: "@ + name + ", "@
            + identity + ", index: "@ + decimal(index as nat),
        EventView::DeviceIdentityUnresolved { name, index, error } => "Found controller: "@ + name
            + ", Error getting id: "@ + error + ", index: "@ + decimal(index as nat),
    }
}

impl Event {
    /// Renders the event as the single line the reporter prints.
    pub fn line(&self) -> (r: String)
        ensures
            r@ == line_of(self@),
    {
        match self {
            Event::NoDevicesFound => String::from_str("No Gamepads found at startup"),
            Event::DeviceDiscovered { identity, name, index } => {
                let mut r = String::from_str("Found controller: ");
                r.append(name.as_str());
                r.append(", ");
                r.append(identity.as_str());
                r.append(", index: ");
                push_decimal(&mut r, *index);
                r
            },
            Event::DeviceIdentityUnresolved { name, index, error } => {
                let mut r = String::from_str("Found controller: ");
                r.append(name.as_str());
                r.append(", Error getting id: ");
                r.append(error.as_str());
                r.append(", index: ");
                push_decimal(&mut r, *index);
                r
            },
        }
    }
}

} // verus!
