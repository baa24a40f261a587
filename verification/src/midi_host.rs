//! Decisions of the realtime MIDI input host: whether a start request may
//! proceed and which input port it opens. Opening ports and receiving
//! messages are done by the host application around these decisions.

use vstd::prelude::*;
use vstd::string::*;

verus! {

/// Why the MIDI host could not start.
#[derive(Debug, Clone, PartialEq, Eq)]
pub enum MidiHostError {
    /// The host is already running.
    AlreadyRunning,
    /// No MIDI input ports are available.
    NoInputPorts,
    /// No MIDI input port has the requested name.
    PortNotFound { name: String },
    /// The MIDI backend could not be initialized.
    InitFailed { reason: String },
    /// The port could not be opened.
    OpenFailed { reason: String },
}

/// The first index at which `names` holds `name`, or `names.len()` when none does.
pub open spec fn first_port_named(names: Seq<Seq<char>>, name: Seq<char>) -> int
    decreases names.len(),
{
    if names.len() == 0 {
        0
    } else if names[0] == name {
        0
    } else {
        1 + first_port_named(names.drop_first(), name)
    }
}

/// The names of the ports as character sequences.
pub open spec fn names_view(names: Seq<String>) -> Seq<Seq<char>> {
    names.map_values(|s: String| s@)
}

proof fn lemma_first_port_named(names: Seq<Seq<char>>, name: Seq<char>, k: int)
    requires
        0 <= k <= names.len(),
        forall|j: int| 0 <= j < k ==> names[j] != name,
        k == names.len() || names[k] == name,
    ensures
        first_port_named(names, name) == k,
    decreases k,
{
    if k > 0 {
        lemma_first_port_named(names.drop_first(), name, k - 1);
    }
}

/// Whether `r` is the outcome of choosing among the ports named `names` for
/// `requested`: no ports is `NoInputPorts`; no request picks the first port;
/// a request picks the first port of that name, or is `PortNotFound`.
pub open spec fn port_selection(
    names: Seq<String>,
    requested: Option<&str>,
    r: Result<usize, MidiHostError>,
) -> bool {
    &&& names.len() == 0 ==> r == Err::<usize, MidiHostError>(MidiHostError::NoInputPorts)
    &&& names.len() > 0 && requested is None ==> r == Ok::<usize, MidiHostError>(0)
    &&& names.len() > 0 && requested is Some ==> {
        let name = requested.unwrap()@;
        let k = first_port_named(names_view(names), name);
        &&& k < names.len() ==> r == Ok::<usize, MidiHostError>(k as usize)
        &&& k >= names.len() ==> (r matches Err(MidiHostError::PortNotFound { name: n }) && n@
            == name)
    }
}

/// Choose the input port to open among the available ports `port_names`: the
/// first port with the requested name, or the first port when none is requested.
pub fn select_input_port(port_names: &Vec<String>, requested: Option<&str>) -> (r: Result<
    usize,
    MidiHostError,
>)
    ensures
        port_selection(port_names@, requested, r),
{
    if port_names.len() == 0 {
        return Err(MidiHostError::NoInputPorts);
    }
    match requested {
        None => Ok(0),
        Some(name) => {
            let wanted = name.to_owned();
            let ghost names = names_view(port_names@);
            let mut i: usize = 0;
            while i < port_names.len()
                invariant
                    i <= port_names@.len(),
                    requested == Some(name),
                    wanted@ == name@,
                    names == names_view(port_names@),
                    forall|j: int| 0 <= j < i ==> names[j] != name@,
                decreases port_names@.len() - i,
            {
                assert(names[i as int] == port_names@[i as int]@);
                if port_names[i] == wanted {
                    proof {
                        lemma_first_port_named(names, name@, i as int);
                    }
                    return Ok(i);
                }
                i = i + 1;
            }
            proof {
                lemma_first_port_named(names, name@, i as int);
            }
            Err(MidiHostError::PortNotFound { name: wanted })
        },
    }
}

/// The connection state of the MIDI input host. `C` is the open connection.
pub struct MidiHostState<C> {
    connection: Option<C>,
    selected_port: Option<String>,
}

impl<C> MidiHostState<C> {
    /// Whether a connection is open.
    pub closed spec fn connected(&self) -> bool {
        self.connection is Some
    }

    /// The name of the port of the open connection.
    pub closed spec fn port(&self) -> Option<Seq<char>> {
        match self.selected_port {
            Some(s) => Some(s@),
            None => None,
        }
    }

    /// A connection is open exactly when a port is selected.
    pub closed spec fn wf(&self) -> bool {
        self.connection is Some <==> self.selected_port is Some
    }

    /// A host with no open connection.
    pub fn new() -> (s: Self)
        ensures
            s.wf(),
            !s.connected(),
            s.port() is None,
    {
        MidiHostState { connection: None, selected_port: None }
    }

    /// Decide which port a start request opens: refused while a connection
    /// is open, otherwise the port chosen by [`select_input_port`].
    pub fn plan_start(&self, port_names: &Vec<String>, requested: Option<&str>) -> (r: Result<
        usize,
        MidiHostError,
    >)
        ensures
            self.connected() ==> r == Err::<usize, MidiHostError>(MidiHostError::AlreadyRunning),
            !self.connected() ==> port_selection(port_names@, requested, r),
    {
        if self.connection.is_some() {
            return Err(MidiHostError::AlreadyRunning);
        }
        select_input_port(port_names, requested)
    }

    /// Record the connection opened on the port named `port_name`.
    pub fn connected_to(&mut self, connection: C, port_name: String)
        requires
            old(self).wf(),
        ensures
            final(self).wf(),
            final(self).connected(),
            final(self).port() == Some(port_name@),
    {
        self.connection = Some(connection);
        self.selected_port = Some(port_name);
    }

    /// Close the connection: the open connection, if any, is handed back
    /// and no port stays selected.
    pub fn stop(&mut self) -> (closed: Option<C>)
        requires
            old(self).wf(),
        ensures
            final(self).wf(),
            !final(self).connected(),
            final(self).port() is None,
            closed is Some <==> old(self).connected(),
    {
        self.selected_port = None;
        self.connection.take()
    }

    /// Whether a connection is open.
    pub fn is_connected(&self) -> (b: bool)
        ensures
            b == self.connected(),
    {
        self.connection.is_some()
    }

    /// The name of the selected port, if a connection is open.
    pub fn selected_port(&self) -> (r: Option<&str>)
        ensures
            r is Some <==> self.port() is Some,
            r matches Some(s) ==> self.port() == Some(s@),
    {
        match &self.selected_port {
            Some(s) => Some(s.as_str()),
            None => None,
        }
    }
}

} // verus!
