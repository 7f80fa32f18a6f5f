//! The devices that clusterit knows of, and the errors of applying modules
//! to them.

use vstd::prelude::*;

use crate::destination::{ConnectionError, Destination};
use crate::device::Device;
use crate::error::{parse_error_text, Error};

verus! {

/// The position of the first device whose destination has `hostname`, if
/// there is one.
pub open spec fn first_with_hostname(devices: Seq<Device>, hostname: Seq<char>) -> Option<nat>
    decreases devices.len(),
{
    if devices.len() == 0 {
        None
    } else {
        match first_with_hostname(devices.drop_last(), hostname) {
            Some(i) => Some(i),
            None => if devices.last().destination.hostname@ == hostname {
                Some((devices.len() - 1) as nat)
            } else {
                None
            },
        }
    }
}

proof fn lemma_first_with_hostname(devices: Seq<Device>, hostname: Seq<char>, i: int)
    requires
        0 <= i <= devices.len(),
        forall|j: int| 0 <= j < i ==> devices[j].destination.hostname@ != hostname,
        i < devices.len() ==> devices[i].destination.hostname@ == hostname,
    ensures
        i < devices.len() ==> first_with_hostname(devices, hostname) == Some(i as nat),
        i == devices.len() ==> first_with_hostname(devices, hostname) is None,
    decreases devices.len(),
{
    if devices.len() > 0 {
        let d = devices.drop_last();
        if i < devices.len() - 1 {
            lemma_first_with_hostname(d, hostname, i);
        } else {
            lemma_first_with_hostname(d, hostname, d.len() as int);
        }
    }
}

/// The persisted state: the devices and the file the state belongs to.
#[derive(Debug)]
pub struct State {
    devices: Vec<Device>,
    path: String,
}

pub struct StateView {
    pub path: Seq<char>,
    pub devices: Seq<Device>,
}

impl View for State {
    type V = StateView;

    closed spec fn view(&self) -> StateView {
        StateView { path: self.path@, devices: self.devices@ }
    }
}

impl State {
    /// A state of the given devices that belongs to the file at `path`.
    pub fn new(path: String, devices: Vec<Device>) -> (s: State)
        ensures
            s@.path == path@,
            s@.devices == devices@,
    {
        State { devices, path }
    }

    /// The file the state belongs to.
    pub fn path(&self) -> (p: &String)
        ensures
            p@ == self@.path,
    {
        &self.path
    }

    pub fn add_device(&mut self, device: Device)
        ensures
            final(self)@.devices == old(self)@.devices.push(device),
            final(self)@.path == old(self)@.path,
    {
        self.devices.push(device);
    }

    pub fn devices(&self) -> (d: &Vec<Device>)
        ensures
            d@ == self@.devices,
    {
        &self.devices
    }

    /// The first device with the hostname of `destination`.
    pub fn get_device(&mut self, destination: &Destination) -> (d: Option<&mut Device>)
        ensures
            d is None <==> first_with_hostname(old(self)@.devices, destination.hostname@) is None,
            d is None ==> final(self)@ == old(self)@,
            d matches Some(dev) ==> {
                let i = first_with_hostname(old(self)@.devices, destination.hostname@)->Some_0;
                &&& *dev == old(self)@.devices[i as int]
                &&& final(self)@.devices == old(self)@.devices.update(i as int, *final(dev))
                &&& final(self)@.path == old(self)@.path
            },
    {
        let n = self.devices.len();
        let mut i: usize = 0;
        while i < n
            invariant
                self@ == old(self)@,
                n == self.devices@.len(),
                i <= n,
                forall|j: int| 0 <= j < i ==> self.devices@[j].destination.hostname@ != destination.hostname@,
            decreases n - i,
        {
            if self.devices[i].destination.hostname == destination.hostname {
                proof {
                    lemma_first_with_hostname(self.devices@, destination.hostname@, i as int);
                }
                return Some(&mut self.devices[i]);
            }
            i = i + 1;
        }
        proof {
            lemma_first_with_hostname(self.devices@, destination.hostname@, n as int);
        }
        None
    }
}

/// The main object: the state of all known devices.
pub struct Clusterit {
    pub state: State,
}

impl Clusterit {
    pub fn devices(&self) -> (d: &Vec<Device>)
        ensures
            d@ == self.state@.devices,
    {
        self.state.devices()
    }
}

#[derive(Debug, Clone, Copy, PartialEq, Eq, Structural)]
pub enum ClusteritErrorKind {
    Generic,
    ConnectionError,
    ParseError,
}

/// An error of applying a module, with the text of what caused it.
#[derive(Debug)]
pub struct ClusteritError {
    pub kind: ClusteritErrorKind,
    pub error: String,
}

/// The text an error of the given kind is shown with.
pub open spec fn clusterit_error_text(kind: ClusteritErrorKind, error: Seq<char>) -> Seq<char> {
    match kind {
        ClusteritErrorKind::ParseError => "Failed to parse: "@ + error,
        ClusteritErrorKind::ConnectionError => error,
        ClusteritErrorKind::Generic => "Something went wrong: "@ + error,
    }
}

impl ClusteritError {
    pub fn new(kind: ClusteritErrorKind, error: String) -> (e: ClusteritError)
        ensures
            e.kind == kind,
            e.error == error,
    {
        ClusteritError { kind, error }
    }

    /// The text this error is shown with.
    pub fn message(&self) -> (m: String)
        ensures
            m@ == clusterit_error_text(self.kind, self.error@),
    {
        match self.kind {
            ClusteritErrorKind::ParseError => {
                let mut m = String::from_str("Failed to parse: ");
                m.append(self.error.as_str());
                m
            },
            ClusteritErrorKind::ConnectionError => self.error.clone(),
            ClusteritErrorKind::Generic => {
                let mut m = String::from_str("Something went wrong: ");
                m.append(self.error.as_str());
                m
            },
        }
    }

    /// A parse error, carrying the text of the error of the parser.
    pub fn from_parse_error(e: Error) -> (r: ClusteritError)
        ensures
            r.kind == ClusteritErrorKind::ParseError,
            e matches Error::ParseError { line, message } ==> r.error@ == parse_error_text(line, message@),
            e matches Error::IoError(x) ==> vstd::string::to_string_from_display_ensures::<
                std::io::Error,
            >(&x, r.error),
    {
        ClusteritError::new(ClusteritErrorKind::ParseError, e.message())
    }

    /// A connection error, carrying the text of the connection error.
    pub fn from_connection_error(e: ConnectionError) -> (r: ClusteritError)
        ensures
            r.kind == ClusteritErrorKind::ConnectionError,
            e.spec_message() matches Some(t) ==> r.error@ == t,
            e matches ConnectionError::Ssh(x) ==> vstd::string::to_string_from_display_ensures::<
                ssh2::Error,
            >(&x, r.error),
    {
        ClusteritError::new(ClusteritErrorKind::ConnectionError, e.message())
    }
}

/// A device that was added is found by its hostname, unless a device with
/// the same hostname was there before; then that one is found.
pub proof fn added_device_is_found(devices: Seq<Device>, device: Device)
    ensures
        first_with_hostname(devices.push(device), device.destination.hostname@) == match first_with_hostname(
            devices,
            device.destination.hostname@,
        ) {
            Some(i) => Some(i),
            None => Some(devices.len()),
        },
{
    assert(devices.push(device).drop_last() =~= devices);
}

} // verus!
